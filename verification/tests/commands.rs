use tagtiger::commands::{
    complete_details, cover_to_fetch, fetched_title, inspect, list_results, list_tree,
    plan_tagging, TagJob,
};
use tagtiger::model::{
    Artwork, Date, Definition, EpisodeInfo, MediaKind, MediaKindMeta, MediaMetadata, Person,
    ProviderId, SearchResult, TvEpisodeHit, TvSeasonMatch, TvShowMatch, VideoKind,
};

#[test]
fn nothing_is_shown_as_none() {
    let lines = inspect(&MediaMetadata::default(), None);
    assert_eq!(lines.len(), 14);
    assert_eq!(lines[0], "Title:        (none)");
    assert_eq!(lines[1], "Release date: (none)");
    assert_eq!(lines[10], "Screenwriters:(none)");
    assert_eq!(lines[13], "Artwork:      (none)");
}

#[test]
fn tags_of_an_episode_are_shown() {
    let meta = MediaMetadata {
        title: "Pilot".into(),
        release_date: Some(Date { year: 2008, month: 1, day: 20 }),
        genres: vec!["Drama".into(), "Crime".into()],
        cast: vec![Person::new("A"), Person::new("B")],
        content_rating: Some("TV-14".into()),
        video_kind: Some(VideoKind::TvShow),
        definition: Some(Definition::Hd720),
        kind: MediaKindMeta::Episode(EpisodeInfo {
            show_name: "Breaking Bad".into(),
            season: 1,
            episode: 2,
            episode_title: None,
            network: None,
            episode_id: None,
        }),
        ..MediaMetadata::default()
    };
    let lines = inspect(&meta, Some(123));
    assert_eq!(lines.len(), 19);
    assert_eq!(lines[1], "Release date: 2008-01-20");
    assert_eq!(lines[2], "Media kind:   TV Show");
    assert_eq!(lines[3], "Definition:   HD 720p");
    assert_eq!(lines[4], "Rating:       TV-14");
    assert_eq!(lines[5], "Genres:       Drama, Crime");
    assert_eq!(lines[8], "Cast:         A, B");
    assert_eq!(lines[13], "Artwork:      yes (123 bytes)");
    assert_eq!(lines[14], "Show:         Breaking Bad");
    assert_eq!(lines[15], "Episode ID:   1x02");
    assert_eq!(lines[16], "Season:       1");
    assert_eq!(lines[17], "Episode:      2");
    assert_eq!(lines[18], "TV Network:   (none)");
}

fn result(year: Option<i32>, overview: Option<String>) -> SearchResult {
    SearchResult {
        id: ProviderId {
            provider: "tmdb".into(),
            id: "603".into(),
            kind: MediaKind::Movie,
            season: None,
            episode: None,
        },
        title: "The Matrix".into(),
        year,
        overview,
        poster_thumb_url: None,
        episode_name: None,
    }
}

#[test]
fn results_are_listed() {
    assert_eq!(list_results(&vec![]), vec!["No matches."]);
    let lines = list_results(&vec![
        result(Some(1999), Some("x".repeat(100))),
        result(None, None),
    ]);
    assert_eq!(lines[0], "Matches:");
    assert_eq!(lines[1], format!("  [603] The Matrix (1999)  {}", "x".repeat(80)));
    assert_eq!(lines[2], "  [603] The Matrix (?)  ");
}

#[test]
fn trees_are_listed() {
    assert_eq!(list_tree(&vec![]), vec!["No matching episodes."]);
    let shows = vec![
        TvShowMatch {
            series_id: "1396".into(),
            show_name: "Breaking Bad".into(),
            year: Some(2008),
            seasons: vec![TvSeasonMatch {
                season_number: 1,
                name: "Season 1".into(),
                episodes: vec![TvEpisodeHit { number: 2, name: "Bag".into() }],
            }],
        },
        TvShowMatch {
            series_id: "2".into(),
            show_name: "Other".into(),
            year: None,
            seasons: vec![],
        },
    ];
    assert_eq!(
        list_tree(&shows),
        vec![
            "Breaking Bad (2008)  [1396]",
            "  Season 1 (season 1)",
            "    2: Bag",
            "Other  [2]"
        ]
    );
}

#[test]
fn arguments_decide_what_is_tagged() {
    let some = |s: &str| Some(s.to_string());
    assert!(matches!(plan_tagging(None, None), TagJob::Nothing));
    assert!(matches!(plan_tagging(None, some(" R ")), TagJob::SetRating(r) if r == "R"));
    assert!(
        matches!(plan_tagging(some("603"), some("x ")), TagJob::UnknownRating(r) if r == "x")
    );
    match plan_tagging(some("603"), some("PG")) {
        TagJob::Fetch { id, rating } => {
            assert_eq!(id, "603");
            assert_eq!(rating.as_deref(), Some("PG"));
        }
        other => panic!("unexpected: {other:?}"),
    }
    assert!(matches!(plan_tagging(some("603"), None), TagJob::Fetch { rating: None, .. }));
}

#[test]
fn shows_take_their_numbers_from_the_file() {
    let id = fetched_title("1".into(), true, "Show s02e03.mp4", None);
    assert_eq!(id.kind, MediaKind::TvShow);
    assert_eq!((id.season, id.episode), (Some(2), Some(3)));
    let id = fetched_title("1".into(), false, "Show s02e03.mp4", None);
    assert_eq!(id.kind, MediaKind::Movie);
    assert_eq!((id.season, id.episode), (None, None));
}

#[test]
fn details_are_completed() {
    let mut meta = MediaMetadata { content_rating: Some("PG".into()), ..MediaMetadata::default() };
    complete_details(&mut meta, Some((1920, 800)), None);
    assert_eq!(meta.definition, Some(Definition::Hd1080));
    assert_eq!(meta.content_rating.as_deref(), Some("PG"));
    complete_details(&mut meta, Some((640, 480)), Some("R".into()));
    assert_eq!(meta.definition, Some(Definition::Hd1080));
    assert_eq!(meta.content_rating.as_deref(), Some("R"));
}

#[test]
fn first_picture_is_the_cover() {
    let mut meta = MediaMetadata::default();
    assert_eq!(cover_to_fetch(&meta, false), None);
    meta.artwork.push(Artwork { url: "u".into(), thumb_url: None, width: None, height: None });
    assert_eq!(cover_to_fetch(&meta, false).as_deref(), Some("u"));
    assert_eq!(cover_to_fetch(&meta, true), None);
}
