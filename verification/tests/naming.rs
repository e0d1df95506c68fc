use tagtiger::error::Error;
use tagtiger::model::MediaKind;
use tagtiger::naming::{
    episode_title, extension, file_stem, normalize, parse, query_from_episode, query_from_movie,
    title_from_match, Captured,
};

#[test]
fn parses_movie_with_year() {
    let q = parse("The Matrix (1999).mp4", None).unwrap();
    assert_eq!(q.title, "The Matrix");
    assert_eq!(q.year, Some(1999));
    assert_eq!(q.kind, MediaKind::Movie);
}

#[test]
fn parses_movie_with_dots() {
    let q = parse("The.Matrix.1999.1080p.mp4", None).unwrap();
    assert_eq!(q.title, "The Matrix");
    assert_eq!(q.year, Some(1999));
}

#[test]
fn parses_episode() {
    let q = parse("Breaking Bad - S01E02 - Cat's in the Bag.mkv", None).unwrap();
    assert_eq!(q.title, "Breaking Bad");
    assert_eq!(q.kind, MediaKind::TvShow);
    assert_eq!(q.season, Some(1));
    assert_eq!(q.episode, Some(2));
}

#[test]
fn parses_episode_compact() {
    let q = parse("The.Office.S03E10.720p.mp4", None).unwrap();
    assert_eq!(q.title, "The Office");
    assert_eq!(q.season, Some(3));
    assert_eq!(q.episode, Some(10));
}

#[test]
fn extracts_episode_title() {
    assert_eq!(
        episode_title("Breaking Bad - S01E02 - Cat's in the Bag"),
        Some("Cat's in the Bag".to_string())
    );
    assert_eq!(episode_title("The Matrix (1999)"), None);
}

#[test]
fn folder_names_the_show() {
    let q = parse("s02e05.mp4", Some("Breaking.Bad")).unwrap();
    assert_eq!(q.title, "Breaking Bad");
    assert_eq!((q.season, q.episode), (Some(2), Some(5)));
}

#[test]
fn movie_without_year() {
    let q = parse("Heat.mp4", Some("Movies")).unwrap();
    assert_eq!(q.title, "Heat");
    assert_eq!(q.year, None);
}

#[test]
fn empty_title_is_an_error() {
    match parse("___.mp4", None) {
        Err(Error::Naming(m)) => assert_eq!(m, "empty title from `___`"),
        other => panic!("unexpected: {other:?}"),
    }
}

#[test]
fn normalizing_twice_changes_nothing() {
    let once = normalize("  The..Matrix_  Reloaded ");
    assert_eq!(once, "The Matrix Reloaded");
    assert_eq!(normalize(&once), once);
}

#[test]
fn stems_and_extensions() {
    assert_eq!(file_stem("a.b.mp4"), "a.b");
    assert_eq!(extension("a.b.mp4").as_deref(), Some("mp4"));
    assert_eq!(file_stem(".hidden"), ".hidden");
    assert_eq!(extension(".hidden"), None);
    assert_eq!(extension("plain"), None);
}

#[test]
fn queries_from_what_patterns_found() {
    let episode = Captured {
        before: "".into(),
        groups: vec![
            Some("Show s01e02".into()),
            Some("Show.".into()),
            Some("01".into()),
            Some("02".into()),
        ],
    };
    let q = query_from_episode(&episode, None);
    assert_eq!(q.title, "Show");
    assert_eq!((q.season, q.episode, q.year), (Some(1), Some(2), None));

    let year = Captured {
        before: "Heat".into(),
        groups: vec![Some(".1995.".into()), Some("1995".into())],
    };
    let m = query_from_movie(Some(&year), "Heat.1995.x").unwrap();
    assert_eq!((m.title.as_str(), m.year), ("Heat", Some(1995)));
    assert!(query_from_movie(None, "..").is_err());

    let blank = Captured { before: "".into(), groups: vec![None, Some(" . ".into())] };
    assert_eq!(title_from_match(&blank), None);
}

#[test]
fn numbers_in_names_have_bounds() {
    let q = parse("Show S99E999.mp4", None).unwrap();
    assert_eq!((q.season, q.episode), (Some(99), Some(999)));
    let q = parse("Show S123E4.mp4", None).unwrap();
    assert_eq!((q.season, q.episode), (None, None));
    let q = parse("Show S12E1234.mp4", None).unwrap();
    assert_eq!((q.season, q.episode), (Some(12), Some(123)));
    // Digits of another script count as digits, but are no number.
    let q = parse("Show S\u{661}E\u{662}.mp4", None).unwrap();
    assert_eq!((q.season, q.episode), (Some(0), Some(0)));
    assert_eq!(parse("Name (1900).mp4", None).unwrap().year, Some(1900));
    assert_eq!(parse("Name (2099).mp4", None).unwrap().year, Some(2099));
    assert_eq!(parse("Name (1899).mp4", None).unwrap().year, None);
    assert_eq!(parse("Name (2100).mp4", None).unwrap().year, None);
}
