use tagtiger::model::{
    EpisodeInfo, MediaKind, MediaKindMeta, MediaMetadata, MediaQuery, ProviderId, SearchResult,
    TvSeasonSummary, VideoKind,
};
use tagtiger::tag::WritePhase;
use tagtiger::tmdb::{Auth, TmdbProvider};
use tagtiger::worker::{
    build_provider, complete_id, cover_ready, episodes_named, fill_episode_numbers, full_ready,
    has_tmdb_credential, load_file, next_tv_step, plan, prefill_episode,
    prefill_episode_from_filename, progress_events, season_listed, seasons_ready, shows_ready,
    thumb_ready, CoverSource, Event, FoundFile, Job, Request, TvStep,
};

fn png(w: u32, h: u32) -> Vec<u8> {
    let img = image::RgbaImage::from_pixel(w, h, image::Rgba([10, 20, 30, 255]));
    let mut out = std::io::Cursor::new(Vec::new());
    image::DynamicImage::ImageRgba8(img).write_to(&mut out, image::ImageFormat::Png).unwrap();
    out.into_inner()
}

fn episode(show_name: &str, season: u32, number: u32) -> EpisodeInfo {
    EpisodeInfo {
        show_name: show_name.into(),
        season,
        episode: number,
        episode_title: None,
        network: None,
        episode_id: None,
    }
}

#[test]
fn fills_show_season_episode_from_episode_filename() {
    let mut meta = MediaMetadata::default();
    prefill_episode_from_filename(&mut meta, "Breaking Bad - S01E02.mp4", None);
    match meta.kind {
        MediaKindMeta::Episode(ep) => {
            assert_eq!(ep.show_name, "Breaking Bad");
            assert_eq!(ep.season, 1);
            assert_eq!(ep.episode, 2);
        }
        _ => panic!("expected Episode kind"),
    }
    assert_eq!(meta.video_kind, Some(VideoKind::TvShow));
}

#[test]
fn does_not_overwrite_existing_atom_values() {
    let mut meta = MediaMetadata {
        video_kind: Some(VideoKind::TvShow),
        kind: MediaKindMeta::Episode(EpisodeInfo {
            show_name: "Atom Show".into(),
            season: 5,
            episode: 9,
            episode_title: Some("From Atoms".into()),
            network: Some("HBO".into()),
            episode_id: Some("5x09".into()),
        }),
        ..MediaMetadata::default()
    };
    prefill_episode_from_filename(&mut meta, "Breaking Bad - S01E02.mp4", None);
    match meta.kind {
        MediaKindMeta::Episode(ep) => {
            assert_eq!(ep.show_name, "Atom Show");
            assert_eq!(ep.season, 5);
            assert_eq!(ep.episode, 9);
            assert_eq!(ep.episode_title.as_deref(), Some("From Atoms"));
            assert_eq!(ep.network.as_deref(), Some("HBO"));
        }
        _ => panic!("expected Episode kind"),
    }
}

#[test]
fn fills_only_missing_fields() {
    let mut meta = MediaMetadata {
        kind: MediaKindMeta::Episode(episode("Kept Name", 0, 0)),
        ..MediaMetadata::default()
    };
    prefill_episode_from_filename(&mut meta, "Breaking Bad - S03E10.mp4", None);
    match meta.kind {
        MediaKindMeta::Episode(ep) => {
            assert_eq!(ep.show_name, "Kept Name");
            assert_eq!(ep.season, 3);
            assert_eq!(ep.episode, 10);
        }
        _ => panic!("expected Episode kind"),
    }
}

#[test]
fn movie_filename_leaves_kind_unchanged() {
    let mut meta = MediaMetadata::default();
    prefill_episode_from_filename(&mut meta, "The Matrix (1999).mp4", None);
    assert!(matches!(meta.kind, MediaKindMeta::Movie));
    assert_eq!(meta.video_kind, None);
}

#[test]
fn explicit_kind_of_video_is_kept() {
    let mut meta = MediaMetadata { video_kind: Some(VideoKind::Movie), ..MediaMetadata::default() };
    let query = MediaQuery {
        title: "Show".into(),
        year: None,
        kind: MediaKind::TvShow,
        season: Some(1),
        episode: None,
    };
    prefill_episode(&mut meta, Some(query));
    assert_eq!(meta.video_kind, Some(VideoKind::Movie));
    assert_eq!(meta.kind, MediaKindMeta::Episode(episode("Show", 1, 0)));
    prefill_episode(&mut meta, None);
    assert_eq!(meta.kind, MediaKindMeta::Episode(episode("Show", 1, 0)));
}

#[test]
fn saved_token_goes_before_the_environment() {
    let p = build_provider("  saved ", Some("env"), Some("key")).unwrap();
    assert!(matches!(p.auth, Auth::Bearer(t) if t == "saved"));
    let p = build_provider(" ", Some("env"), Some("key")).unwrap();
    assert!(matches!(p.auth, Auth::Bearer(t) if t == "env"));
    assert!(build_provider("", None, None).is_none());
    assert!(has_tmdb_credential("x", None, None));
    assert!(has_tmdb_credential("", None, Some("k")));
    assert!(!has_tmdb_credential(" ", Some(" "), None));
}

#[test]
fn service_is_refused_without_a_credential() {
    match plan(Request::Search { query: "x".into() }, None) {
        Job::Refuse { message } => assert_eq!(message, "Set TMDB_BEARER_TOKEN or TMDB_API_KEY"),
        other => panic!("unexpected: {other:?}"),
    }
    assert!(matches!(plan(Request::PickFile, None), Job::Pick));
    let open = Request::OpenFile { path: "/a.mp4".into() };
    assert!(matches!(plan(open, None), Job::Load { path } if path == "/a.mp4"));
}

#[test]
fn requests_become_jobs() {
    let p = TmdbProvider::with_bearer("t");
    match plan(Request::Search { query: "Heat".into() }, Some(&p)) {
        Job::FindMovies { search } => {
            assert_eq!(search.url, "https://api.themoviedb.org/3/search/movie");
            assert_eq!(search.query, vec![("query".to_string(), "Heat".to_string())]);
        }
        other => panic!("unexpected: {other:?}"),
    }
    let shows = Request::SearchShows { show: "S".into(), season_filter: Some(2) };
    match plan(shows, Some(&p)) {
        Job::FindShows { search, season_filter } => {
            assert!(search.url.ends_with("/search/tv"));
            assert_eq!(season_filter, Some(2));
        }
        other => panic!("unexpected: {other:?}"),
    }
    let season = Request::FetchSeasonEpisodes { series_id: "7".into(), season: 3 };
    match plan(season, Some(&p)) {
        Job::Episodes { ask, series_id, season } => {
            assert!(ask.url.ends_with("/tv/7/season/3"));
            assert_eq!((series_id.as_str(), season), ("7", 3));
        }
        other => panic!("unexpected: {other:?}"),
    }
    let thumb = Request::FetchThumb { index: 4, url: "u".into() };
    assert!(matches!(plan(thumb, None), Job::Thumb { index: 4, url } if url == "u"));
}

#[test]
fn own_cover_goes_before_a_fetched_one() {
    let write = |own: Option<Vec<u8>>, url: Option<&str>| Request::WriteTags {
        file: "/a.mp4".into(),
        meta: MediaMetadata::default(),
        artwork_url: url.map(str::to_string),
        cover_override: own,
        fast_start: true,
    };
    let cover = |r: Request| match plan(r, None) {
        Job::Write { cover, fast_start, .. } => {
            assert!(fast_start);
            cover
        }
        other => panic!("unexpected: {other:?}"),
    };
    assert!(matches!(cover(write(Some(vec![1]), Some("u"))), CoverSource::Own(b) if b == [1]));
    assert!(matches!(cover(write(None, Some("u"))), CoverSource::Fetched(u) if u == "u"));
    assert!(matches!(cover(write(None, None)), CoverSource::Nowhere));
}

fn hit(id: &str, title: &str) -> SearchResult {
    SearchResult {
        id: ProviderId {
            provider: "tmdb".into(),
            id: id.into(),
            kind: MediaKind::TvShow,
            season: None,
            episode: None,
        },
        title: title.into(),
        year: Some(2008),
        overview: None,
        poster_thumb_url: None,
        episode_name: None,
    }
}

#[test]
fn shows_become_roots() {
    match shows_ready(&vec![hit("1", "A"), hit("2", "B")], Some(3)) {
        Event::TvShowsReady { shows, season_filter } => {
            assert_eq!(season_filter, Some(3));
            assert_eq!(shows.len(), 2);
            assert_eq!((shows[1].series_id.as_str(), shows[1].name.as_str()), ("2", "B"));
            assert_eq!(shows[0].year, Some(2008));
        }
        other => panic!("unexpected: {other:?}"),
    }
}

#[test]
fn seasons_are_filtered() {
    let season = |n: u32| TvSeasonSummary {
        season_number: n,
        name: format!("Season {n}"),
        episode_count: 1,
    };
    let kept = |filter: Option<u32>| match seasons_ready(
        "7".into(),
        &vec![season(1), season(2), season(3)],
        filter,
    ) {
        Event::ShowSeasonsReady { seasons, .. } => {
            seasons.into_iter().map(|s| s.season_number).collect::<Vec<u32>>()
        }
        other => panic!("unexpected: {other:?}"),
    };
    assert_eq!(kept(None), vec![1, 2, 3]);
    assert_eq!(kept(Some(2)), vec![2]);
    assert!(kept(Some(9)).is_empty());
}

#[test]
fn a_season_is_listed_for_the_first_show() {
    let results = vec![hit("1", "A"), hit("2", "B")];
    match next_tv_step(&results, Some(4), None) {
        TvStep::ListSeason { series_id, show_name, season } => {
            assert_eq!((series_id.as_str(), show_name.as_str(), season), ("1", "A", 4));
        }
        other => panic!("unexpected: {other:?}"),
    }
    assert!(matches!(next_tv_step(&vec![], Some(4), None), TvStep::Done));
    assert!(matches!(next_tv_step(&results, None, None), TvStep::Done));

    match season_listed(vec![hit("1", "A")], None, 4) {
        Event::SearchDone { results } => assert_eq!(results[0].id.season, Some(4)),
        other => panic!("unexpected: {other:?}"),
    }
    match season_listed(vec![hit("1", "A")], Some(vec![hit("9", "E")]), 4) {
        Event::SearchDone { results } => {
            assert_eq!(results[0].id.id, "9");
            assert_eq!(results[0].id.season, None);
        }
        other => panic!("unexpected: {other:?}"),
    }
}

#[test]
fn episodes_are_named_for_the_first_shows() {
    let results: Vec<SearchResult> = (0..14).map(|i| hit(&i.to_string(), "S")).collect();
    match next_tv_step(&results, Some(1), Some(2)) {
        TvStep::NameEpisodes { series_ids, season, episode } => {
            assert_eq!(series_ids.len(), 12);
            assert_eq!(series_ids[11], "11");
            assert_eq!((season, episode), (1, 2));
        }
        other => panic!("unexpected: {other:?}"),
    }
    let names = vec![Some("Pilot".to_string()), None];
    match episodes_named(&results, &names, 1, 2) {
        Event::SearchDone { results } => {
            assert_eq!(results.len(), 14);
            assert_eq!(results[0].episode_name.as_deref(), Some("Pilot"));
            assert_eq!(results[1].id.episode, Some(2));
            assert_eq!(results[1].episode_name, None);
            assert_eq!(results[2].id.season, None);
        }
        other => panic!("unexpected: {other:?}"),
    }
}

#[test]
fn file_names_complete_the_title() {
    let id = hit("1", "A").id;
    let full = complete_id(id, "Show s02e03.mp4", None);
    assert_eq!((full.season, full.episode), (Some(2), Some(3)));
    let mut id = hit("1", "A").id;
    id.season = Some(7);
    let full = complete_id(id, "Show s02e03.mp4", None);
    assert_eq!((full.season, full.episode), (Some(7), Some(3)));
    let mut movie = hit("1", "A").id;
    movie.kind = MediaKind::Movie;
    assert_eq!(complete_id(movie, "Show s02e03.mp4", None).season, None);
}

#[test]
fn missing_numbers_are_filled_in() {
    let mut meta = MediaMetadata {
        kind: MediaKindMeta::Episode(episode("S", 0, 5)),
        ..MediaMetadata::default()
    };
    fill_episode_numbers(&mut meta, Some(2), Some(3));
    assert_eq!(meta.kind, MediaKindMeta::Episode(episode("S", 2, 5)));
    let mut movie = MediaMetadata::default();
    fill_episode_numbers(&mut movie, Some(2), Some(3));
    assert_eq!(movie.kind, MediaKindMeta::Movie);
}

#[test]
fn loaded_file_is_reported() {
    let cover = png(30, 20);
    let meta = MediaMetadata { title: "Smoke Test Movie".into(), ..MediaMetadata::default() };
    let file = FoundFile {
        path: "/d/Smoke Test (2001).mp4".into(),
        file_name: "Smoke Test (2001).mp4".into(),
        folder: Some("d".into()),
        tags: Some((meta, Some(cover.clone()))),
        video_dimensions: Some((320, 240)),
        fast_start: true,
    };
    match load_file(file) {
        Event::FileLoaded {
            file,
            meta,
            suggested_query,
            cover: shown,
            cover_size,
            cover_bytes,
            video_dimensions,
            fast_start,
        } => {
            assert_eq!(file, "/d/Smoke Test (2001).mp4");
            assert_eq!(meta.title, "Smoke Test Movie");
            assert_eq!(suggested_query, "Smoke Test Movie");
            let shown = shown.unwrap();
            assert!(shown.width <= 1000 && shown.height <= 1000);
            assert_eq!(cover_size, Some((30, 20)));
            assert_eq!(cover_bytes, Some(cover));
            assert_eq!(video_dimensions, Some((320, 240)));
            assert!(fast_start);
        }
        other => panic!("unexpected: {other:?}"),
    }
}

#[test]
fn file_without_tags_is_searched_by_its_name() {
    let file = FoundFile {
        path: "/d/Heat.mp4".into(),
        file_name: "Heat.mp4".into(),
        folder: None,
        tags: None,
        video_dimensions: None,
        fast_start: false,
    };
    match load_file(file) {
        Event::FileLoaded { suggested_query, cover, cover_bytes, meta, .. } => {
            assert_eq!(suggested_query, "Heat");
            assert!(cover.is_none());
            assert_eq!(cover_bytes, None);
            assert_eq!(meta, MediaMetadata::default());
        }
        other => panic!("unexpected: {other:?}"),
    }
}

#[test]
fn pictures_are_reported() {
    let bytes = png(400, 100);
    match thumb_ready(3, &bytes).unwrap() {
        Event::ThumbDone { index, image } => {
            assert_eq!((index, image.width, image.height), (3, 200, 50));
        }
        other => panic!("unexpected: {other:?}"),
    }
    match full_ready(1, &png(2400, 600)).unwrap() {
        Event::FullImageDone { index, image } => {
            assert_eq!((index, image.width, image.height), (1, 1200, 300));
        }
        other => panic!("unexpected: {other:?}"),
    }
    match cover_ready(bytes.clone()).unwrap() {
        Event::CoverSet { orig_size, bytes: kept, .. } => {
            assert_eq!(orig_size, (400, 100));
            assert_eq!(kept, bytes);
        }
        other => panic!("unexpected: {other:?}"),
    }
    assert!(thumb_ready(0, b"no").is_err());
    assert!(full_ready(0, b"no").is_err());
    assert!(cover_ready(vec![1, 2]).is_err());
}

#[test]
fn start_is_announced_once() {
    let mut announced = false;
    let first = progress_events(&mut announced, WritePhase::Copying, 1, 10);
    assert_eq!(first.len(), 2);
    assert!(matches!(first[0], Event::WriteStarted));
    assert!(announced);
    let second = progress_events(&mut announced, WritePhase::Copying, 2, 10);
    assert_eq!(second.len(), 1);
    assert!(matches!(second[0], Event::WriteProgress { done: 2, total: 10, .. }));
}
