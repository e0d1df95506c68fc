use tagtiger::artwork::{ArtworkFormat, EncodedArtwork};
use tagtiger::error::Error;
use tagtiger::model::{
    Date, Definition, EpisodeInfo, MediaKindMeta, MediaMetadata, Person, VideoKind,
};
use tagtiger::plist::{build_itunmovi_plist, parse_itunmovi_people, xml_escape, xml_unescape};
use tagtiger::rating::{
    content_ratings, decode_itunextc, encode_itunextc, index_to_rating, is_valid_content_rating,
    rating_options, rating_to_index,
};
use tagtiger::tag::{
    begin_save, build_tag, merge, next_save_step, read_from_tag, set_only_rating, shorten,
    temp_names, SaveStep, StepOutcome, WritePhase,
};
use mp4ameta::{Data, Fourcc, FreeformIdent};
use tagtiger::save::reported_phase;

fn sample_movie() -> MediaMetadata {
    MediaMetadata {
        title: "The Matrix".into(),
        release_date: Some(Date { year: 1999, month: 3, day: 31 }),
        overview: Some("A hacker learns the truth.".into()),
        summary: Some("A hacker learns the truth.".into()),
        genres: vec!["Action".into(), "Sci-Fi".into()],
        cast: vec![Person::new("Keanu Reeves"), Person::new("Carrie-Anne Moss")],
        directors: vec![Person::new("Lana Wachowski")],
        producers: vec![Person::new("Joel Silver")],
        writers: vec![Person::new("Lilly Wachowski")],
        content_rating: Some("R".into()),
        studio: Some("Warner Bros.".into()),
        video_kind: Some(VideoKind::Movie),
        definition: Some(Definition::Hd1080),
        artwork: vec![],
        kind: MediaKindMeta::Movie,
    }
}

fn sample_episode() -> EpisodeInfo {
    EpisodeInfo {
        show_name: "Breaking Bad".into(),
        season: 1,
        episode: 2,
        episode_title: Some("Cat's in the Bag".into()),
        network: Some("AMC".into()),
        episode_id: None,
    }
}

fn names(people: &[Person]) -> Vec<String> {
    people.iter().map(|p| p.name.clone()).collect()
}

#[test]
fn builds_movie_tag_fields() {
    let tag = build_tag(&sample_movie(), None);
    assert_eq!(tag.title(), Some("The Matrix"));
    assert_eq!(tag.year(), Some("1999-03-31"));
    assert_eq!(tag.media_type(), Some(mp4ameta::MediaType::ShortFilm));
    assert!(tag.genre().is_some());
}

#[test]
fn builds_episode_tv_atoms() {
    let mut meta = sample_movie();
    meta.video_kind = Some(VideoKind::TvShow);
    meta.kind = MediaKindMeta::Episode(sample_episode());
    let tag = build_tag(&meta, None);
    assert_eq!(tag.media_type(), Some(mp4ameta::MediaType::TvShow));
    assert_eq!(tag.tv_show_name(), Some("Breaking Bad"));
    assert_eq!(tag.tv_network_name(), Some("AMC"));
    assert_eq!(tag.tv_season(), Some(1));
    assert_eq!(tag.tv_episode(), Some(2));
}

#[test]
fn itunmovi_contains_people() {
    let xml = build_itunmovi_plist(&sample_movie()).unwrap();
    assert!(xml.contains("<key>cast</key>"));
    assert!(xml.contains("Keanu Reeves"));
    assert!(xml.contains("<key>directors</key>"));
    assert!(xml.contains("Lana Wachowski"));
    assert!(xml.contains("<key>screenwriters</key>"));
}

#[test]
fn parses_itunmovi_people_roundtrip() {
    let xml = build_itunmovi_plist(&sample_movie()).unwrap();
    let people = parse_itunmovi_people(&xml);
    assert_eq!(names(&people.cast), vec!["Keanu Reeves", "Carrie-Anne Moss"]);
    assert_eq!(names(&people.directors), vec!["Lana Wachowski"]);
    assert_eq!(names(&people.producers), vec!["Joel Silver"]);
    assert_eq!(names(&people.writers), vec!["Lilly Wachowski"]);
    assert_eq!(people.studio.as_deref(), Some("Warner Bros."));
}

#[test]
fn unescapes_xml_people() {
    let mut meta = sample_movie();
    meta.cast = vec![Person::new("A & B <tag>")];
    meta.directors = vec![];
    let xml = build_itunmovi_plist(&meta).unwrap();
    let people = parse_itunmovi_people(&xml);
    assert_eq!(people.cast[0].name, "A & B <tag>");
}

#[test]
fn escapes_xml_special_chars() {
    let mut meta = sample_movie();
    meta.cast = vec![Person::new("A & B <tag>")];
    let xml = build_itunmovi_plist(&meta).unwrap();
    assert!(xml.contains("A &amp; B &lt;tag&gt;"));
}

#[test]
fn escaping_reads_back() {
    let text = "a<b & c>d";
    assert_eq!(xml_escape(text), "a&lt;b &amp; c&gt;d");
    assert_eq!(xml_unescape(&xml_escape(text)), text);
}

#[test]
fn nobody_needs_no_plist() {
    assert_eq!(build_itunmovi_plist(&MediaMetadata::default()), None);
    let people = parse_itunmovi_people("no plist at all");
    assert!(people.cast.is_empty());
    assert_eq!(people.studio, None);
}

#[test]
fn itunextc_roundtrip() {
    assert_eq!(encode_itunextc("PG-13").as_deref(), Some("mpaa|PG-13|300|"));
    assert_eq!(encode_itunextc("TV-14").as_deref(), Some("us-tv|TV-14|500|"));
    assert_eq!(encode_itunextc("bogus"), None);
    assert_eq!(decode_itunextc("mpaa|PG-13|300|").as_deref(), Some("PG-13"));
    assert_eq!(decode_itunextc("us-tv|TV-MA|600|").as_deref(), Some("TV-MA"));
    let enc = encode_itunextc("R").unwrap();
    assert_eq!(decode_itunextc(&enc).as_deref(), Some("R"));
}

#[test]
fn odd_ratings_are_read_as_they_are() {
    assert_eq!(decode_itunextc("  ").as_deref(), None);
    assert_eq!(decode_itunextc("plain").as_deref(), Some("plain"));
    assert_eq!(decode_itunextc("mpaa| |300|").as_deref(), Some("mpaa| |300|"));
}

#[test]
fn rating_index_roundtrip() {
    assert_eq!(rating_to_index(""), 0);
    assert_eq!(index_to_rating(0), "");
    for r in content_ratings() {
        let i = rating_to_index(&r);
        assert!(i >= 1, "rating {r} should have a positive index");
        assert_eq!(index_to_rating(i), r);
    }
    let movies = ["G", "PG", "PG-13", "R", "NC-17", "Not Rated", "Unrated"];
    let shows = ["TV-Y", "TV-Y7", "TV-G", "TV-PG", "TV-14", "TV-MA"];
    for r in movies.iter().chain(shows.iter()) {
        let i = rating_to_index(r);
        assert!(i >= 1, "rating {r} should have a positive index");
        assert_eq!(index_to_rating(i), *r);
    }
    assert_eq!(index_to_rating(3), "PG-13");
    assert_eq!(rating_to_index("PG-13"), 3);
    assert_eq!(rating_to_index("BOGUS"), 0);
    assert_eq!(index_to_rating(99), "");
    assert_eq!(rating_options()[0], "(none)");
    assert_eq!(rating_options().len(), 14);
}

#[test]
fn ratings_are_checked_without_white_space() {
    assert!(is_valid_content_rating(" PG-13 "));
    assert!(!is_valid_content_rating("pg-13"));
    assert!(!is_valid_content_rating(""));
}

#[test]
fn tags_read_back() {
    let meta = sample_movie();
    let cover = EncodedArtwork { format: ArtworkFormat::Png, bytes: vec![1, 2, 3] };
    let tag = build_tag(&meta, Some(&cover));
    let (read, bytes) = read_from_tag(&tag, None);
    assert_eq!(bytes, Some(vec![1, 2, 3]));
    assert_eq!(read.title, meta.title);
    assert_eq!(read.release_date, meta.release_date);
    assert_eq!(read.summary, meta.summary);
    assert_eq!(read.overview, meta.overview);
    assert_eq!(read.genres, meta.genres);
    assert_eq!(read.content_rating, meta.content_rating);
    assert_eq!(read.definition, meta.definition);
    assert_eq!(read.video_kind, meta.video_kind);
    assert_eq!(names(&read.cast), names(&meta.cast));
    assert_eq!(names(&read.directors), names(&meta.directors));
    assert_eq!(names(&read.producers), names(&meta.producers));
    assert_eq!(names(&read.writers), names(&meta.writers));
    assert_eq!(read.studio, meta.studio);
    assert_eq!(read, MediaMetadata { artwork: vec![], ..sample_movie() });
}

#[test]
fn definition_comes_from_the_track_where_the_tag_has_none() {
    let mut meta = sample_movie();
    meta.definition = None;
    let tag = build_tag(&meta, None);
    assert_eq!(read_from_tag(&tag, Some((1920, 800))).0.definition, Some(Definition::Hd1080));
    assert_eq!(read_from_tag(&tag, None).0.definition, None);
    let tag = build_tag(&sample_movie(), None);
    assert_eq!(read_from_tag(&tag, Some((640, 480))).0.definition, Some(Definition::Hd1080));
}

#[test]
fn merging_replaces_the_old_tag() {
    let mut old = build_tag(&sample_movie(), None);
    let mut meta = sample_movie();
    meta.title = "Reloaded".into();
    meta.content_rating = None;
    merge(&mut old, build_tag(&meta, None));
    assert_eq!(old.title(), Some("Reloaded"));
    assert_eq!(read_from_tag(&old, None).0.content_rating, None);
}

#[test]
fn summaries_are_cut_at_their_limit() {
    let long = "ä".repeat(300);
    assert_eq!(shorten(&long).chars().count(), 255);
    assert_eq!(shorten("short"), "short");
}

#[test]
fn saves_in_place_where_the_layout_is_right() {
    assert_eq!(begin_save(true, true), SaveStep::TagInPlace);
    assert_eq!(begin_save(false, false), SaveStep::TagInPlace);
    assert_eq!(next_save_step(SaveStep::TagInPlace, true, StepOutcome::Worked), SaveStep::Done);
    assert_eq!(next_save_step(SaveStep::TagInPlace, true, StepOutcome::Broke), SaveStep::Failed);
}

#[test]
fn changing_the_layout_replaces_the_file_last() {
    let mut step = begin_save(false, true);
    let mut seen = vec![step];
    while step != SaveStep::Done {
        step = next_save_step(step, true, StepOutcome::Worked);
        seen.push(step);
    }
    assert_eq!(
        seen,
        vec![
            SaveStep::Copy,
            SaveStep::TagCopy,
            SaveStep::MoovFirst,
            SaveStep::TakeRewritten,
            SaveStep::Replace,
            SaveStep::Done
        ]
    );
    assert_eq!(begin_save(true, false), SaveStep::Copy);
    assert_eq!(next_save_step(SaveStep::TagCopy, false, StepOutcome::Worked), SaveStep::MoovLast);
    assert_eq!(next_save_step(SaveStep::MoovLast, false, StepOutcome::Unchanged), SaveStep::Replace);
    assert_eq!(next_save_step(SaveStep::Copy, true, StepOutcome::Broke), SaveStep::CleanUp);
    assert_eq!(next_save_step(SaveStep::CleanUp, true, StepOutcome::Worked), SaveStep::Failed);
}

#[test]
fn phases_have_labels() {
    assert_eq!(WritePhase::Copying.label(), "Copying");
    assert_eq!(WritePhase::Optimizing.label(), "Optimizing layout");
}

#[test]
fn temporary_files_are_named_after_the_file() {
    let (a, b) = temp_names(Some("movie.mp4"));
    assert_eq!(a, ".movie.mp4.tagtiger.tmp");
    assert_eq!(b, ".movie.mp4.tagtiger.tmp2");
    assert_eq!(temp_names(None).0, ".tagtiger.tagtiger.tmp");
}

#[test]
fn errors_say_what_happened() {
    assert_eq!(Error::Io("x".into()).message(), "I/O error: x");
    assert_eq!(Error::Mp4("x".into()).message(), "MP4 tagging error: x");
    assert_eq!(Error::Http("x".into()).message(), "HTTP error: x");
    assert_eq!(Error::Json("x".into()).message(), "JSON error: x");
    assert_eq!(Error::Image("x".into()).message(), "image error: x");
    assert_eq!(Error::Naming("x".into()).message(), "could not parse filename: x");
    assert_eq!(
        Error::MissingApiKey("tmdb".into()).message(),
        "no API key configured for provider `tmdb`"
    );
    assert_eq!(
        Error::Provider { provider: "tmdb".into(), message: "no".into() }.message(),
        "provider `tmdb` error: no"
    );
    assert_eq!(Error::Other("x".into()).message(), "x");
}

/// An episode's tag with an atom of another program, a comment and a genre from the list.
fn episode_with_foreign_atoms() -> mp4ameta::Tag {
    let meta = MediaMetadata {
        kind: MediaKindMeta::Episode(sample_episode()),
        content_rating: Some("TV-14".into()),
        ..sample_movie()
    };
    let cover = EncodedArtwork { format: ArtworkFormat::Jpeg, bytes: vec![0xff, 0xd8, 0xff, 7] };
    let mut tag = build_tag(&meta, Some(&cover));
    tag.set_data(FreeformIdent::new_static("org.example", "note"), Data::Utf8("mine".into()));
    tag.set_all_data(Fourcc(*b"\xa9cmt"), vec![Data::Utf8("a".into()), Data::Utf8("b".into())]);
    tag
}

fn foreign_atoms(tag: &mut mp4ameta::Tag) -> Vec<Data> {
    let mut data: Vec<Data> =
        tag.take_data_of(&FreeformIdent::new_static("org.example", "note")).collect();
    data.extend(tag.take_data_of(&Fourcc(*b"\xa9cmt")));
    data
}

#[test]
fn setting_a_rating_keeps_the_rest() {
    let written = build_tag(&sample_movie(), None);
    let (before, _) = read_from_tag(&written, None);
    let mut tag = build_tag(&sample_movie(), None);
    assert!(set_only_rating(&mut tag, " TV-MA "));
    let (after, cover) = read_from_tag(&tag, None);
    assert!(cover.is_none());
    assert_ne!(before.content_rating.as_deref(), Some("TV-MA"));
    assert_eq!(after, MediaMetadata { content_rating: Some("TV-MA".into()), ..before });
}

#[test]
fn setting_a_rating_keeps_an_episode_and_foreign_atoms() {
    let before = episode_with_foreign_atoms();
    let mut tag = episode_with_foreign_atoms();
    assert!(set_only_rating(&mut tag, "TV-MA"));
    assert_eq!(tag.tv_show_name(), Some("Breaking Bad"));
    assert_eq!(tag.tv_network_name(), Some("AMC"));
    assert_eq!(tag.tv_episode_name(), before.tv_episode_name());
    assert_eq!(tag.artwork().unwrap().data, &[0xff, 0xd8, 0xff, 7]);
    assert_eq!(read_from_tag(&tag, None).0.content_rating.as_deref(), Some("TV-MA"));
    // But for the rating, every atom is the one it was, in its place.
    assert!(set_only_rating(&mut tag, "TV-14"));
    assert_eq!(tag, before);
}

#[test]
fn unknown_ratings_are_not_set() {
    let mut tag = episode_with_foreign_atoms();
    assert!(!set_only_rating(&mut tag, "XYZ"));
    assert!(!set_only_rating(&mut tag, ""));
    assert_eq!(tag, episode_with_foreign_atoms());
}

#[test]
fn merging_keeps_what_is_not_managed() {
    let mut tag = episode_with_foreign_atoms();
    tag.set_data(Fourcc(*b"gnre"), Data::Reserved(vec![0, 5]));
    let meta = MediaMetadata { title: "Reloaded".into(), ..sample_movie() };
    merge(&mut tag, build_tag(&meta, None));
    // What is managed is that of the new title, a movie without a cover.
    assert_eq!(tag.title(), Some("Reloaded"));
    assert_eq!(tag.tv_show_name(), None);
    assert_eq!(tag.artwork(), None);
    assert_eq!(tag.standard_genre(), None);
    let (read, cover) = read_from_tag(&tag, None);
    assert_eq!(read, read_from_tag(&build_tag(&meta, None), None).0);
    assert_eq!(cover, None);
    // What is not managed is as it was, with all of its values.
    let kept = foreign_atoms(&mut tag);
    assert_eq!(
        kept,
        vec![Data::Utf8("mine".into()), Data::Utf8("a".into()), Data::Utf8("b".into())]
    );
    assert_eq!(kept, foreign_atoms(&mut episode_with_foreign_atoms()));
}

#[test]
fn saving_what_was_read_changes_nothing() {
    let mut tag = build_tag(&sample_movie(), None);
    let (meta, _) = read_from_tag(&tag, None);
    merge(&mut tag, build_tag(&meta, None));
    assert_eq!(read_from_tag(&tag, None).0, meta);
}

#[test]
fn genre_numbers_are_read_from_the_list() {
    let mut tag = build_tag(&sample_movie(), None);
    tag.set_data(Fourcc(*b"gnre"), Data::Reserved(vec![0, 58]));
    assert_eq!(read_from_tag(&tag, None).0.genres, vec!["Comedy"]);
    tag.set_data(Fourcc(*b"gnre"), Data::Reserved(vec![1, 2, 3]));
    assert_eq!(read_from_tag(&tag, None).0.genres, vec!["Action", "Sci-Fi"]);
}

#[test]
fn steps_that_copy_report_their_pass() {
    assert_eq!(reported_phase(SaveStep::Copy), Some(WritePhase::Copying));
    assert_eq!(reported_phase(SaveStep::MoovFirst), Some(WritePhase::Optimizing));
    assert_eq!(reported_phase(SaveStep::MoovLast), Some(WritePhase::Optimizing));
    assert_eq!(reported_phase(SaveStep::TagInPlace), None);
    assert_eq!(reported_phase(SaveStep::Replace), None);
}
