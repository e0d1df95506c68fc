use tagtiger::episodes::{first_show, Question, TitleSearch, TreeSearch};
use tagtiger::model::{MediaKind, ProviderId, SearchResult, TvSeasonSummary};
use tagtiger::tmdb::TmdbProvider;

fn show(id: &str, title: &str) -> SearchResult {
    SearchResult {
        id: ProviderId {
            provider: "tmdb".into(),
            id: id.into(),
            kind: MediaKind::TvShow,
            season: None,
            episode: None,
        },
        title: title.into(),
        year: Some(2008),
        overview: None,
        poster_thumb_url: None,
        episode_name: None,
    }
}

fn episode(id: &str, number: u32, name: &str) -> SearchResult {
    let mut e = show(id, "Show");
    e.id.season = Some(1);
    e.id.episode = Some(number);
    e.episode_name = Some(name.into());
    e
}

fn season(n: u32) -> TvSeasonSummary {
    TvSeasonSummary { season_number: n, name: format!("Season {n}"), episode_count: 2 }
}

#[test]
fn title_search_asks_for_each_season_once() {
    let p = TmdbProvider::with_bearer("t");
    assert_eq!(first_show(&vec![]), None);
    assert_eq!(first_show(&vec![show("7", "A"), show("8", "B")]).as_deref(), Some("7"));
    let mut s =
        TitleSearch::start("7".into(), "Show".into(), None, &vec![season(1), season(2), season(3)]);
    let (n, ask) = s.question(&p).unwrap();
    assert_eq!((n, ask.url.as_str()), (1, "https://api.themoviedb.org/3/tv/7/season/1"));
    assert_eq!(ask.bearer.as_deref(), Some("t"));
    s.season_came(Some(vec![episode("7", 1, "Pilot"), episode("7", 2, "Other")]));
    assert_eq!(s.question(&p).unwrap().0, 2);
    s.season_came(None);
    assert_eq!(s.question(&p).unwrap().0, 3);
    s.season_came(Some(vec![episode("7", 3, "The PILOT returns")]));
    assert!(s.question(&p).is_none());
    let found = s.found(" pilot ");
    let names: Vec<_> = found.iter().map(|r| r.episode_name.as_deref().unwrap()).collect();
    assert_eq!(names, ["Pilot", "The PILOT returns"]);
    assert_eq!(s.found("").len(), 3);
}

#[test]
fn title_search_can_be_about_one_season() {
    let p = TmdbProvider::new("k");
    let mut s = TitleSearch::start("7".into(), "Show".into(), Some(9), &vec![season(1)]);
    let (n, ask) = s.question(&p).unwrap();
    assert_eq!(n, 9);
    assert_eq!(ask.query, vec![("api_key".to_string(), "k".to_string())]);
    s.season_came(None);
    assert!(s.question(&p).is_none());
    assert!(s.found("").is_empty());
}

#[test]
fn title_search_is_limited_to_fifty_seasons() {
    let seasons: Vec<_> = (1..=60).map(season).collect();
    assert_eq!(TitleSearch::start("7".into(), "S".into(), None, &seasons).seasons.len(), 50);
}

#[test]
fn tree_search_goes_through_shows_and_seasons() {
    let p = TmdbProvider::with_bearer("t");
    let mut t = TreeSearch::start(vec![show("1", "One"), show("2", "Two"), show("3", " ")]);
    match t.question(&p) {
        Question::Seasons(r) => assert_eq!(r.url, "https://api.themoviedb.org/3/tv/1"),
        other => panic!("unexpected: {other:?}"),
    }
    t.seasons_came(Some(("Own".into(), vec![season(1), season(2)])));
    match t.question(&p) {
        Question::Episodes(r) => assert_eq!(r.url, "https://api.themoviedb.org/3/tv/1/season/1"),
        other => panic!("unexpected: {other:?}"),
    }
    t.episodes_came(None);
    match t.question(&p) {
        Question::Episodes(r) => assert_eq!(r.url, "https://api.themoviedb.org/3/tv/1/season/2"),
        other => panic!("unexpected: {other:?}"),
    }
    t.episodes_came(Some(vec![(1, "Pilot".into()), (2, "Other".into())]));
    match t.question(&p) {
        Question::Seasons(r) => assert_eq!(r.url, "https://api.themoviedb.org/3/tv/2"),
        other => panic!("unexpected: {other:?}"),
    }
    t.seasons_came(None);
    assert!(matches!(t.question(&p), Question::Seasons(_)));
    t.seasons_came(Some(("Third".into(), vec![season(4)])));
    t.episodes_came(Some(vec![(5, "A pilot".into())]));
    assert!(matches!(t.question(&p), Question::Nothing));
    let found = t.found("PILOT");
    assert_eq!(found.len(), 2);
    assert_eq!((found[0].show_name.as_str(), found[0].seasons.len()), ("One", 1));
    assert_eq!(found[0].seasons[0].season_number, 2);
    assert_eq!(found[0].seasons[0].episodes[0].name, "Pilot");
    assert_eq!(found[1].show_name, "Third");
    assert!(t.found("nothing").is_empty());
}

#[test]
fn tree_search_is_limited() {
    let p = TmdbProvider::with_bearer("t");
    let hits: Vec<_> = (0..20).map(|i| show(&i.to_string(), "S")).collect();
    let mut t = TreeSearch::start(hits);
    let mut asked = (0, 0);
    loop {
        match t.question(&p) {
            Question::Seasons(_) => {
                asked.0 += 1;
                t.seasons_came(Some(("S".into(), (1..=70).map(season).collect())));
            }
            Question::Episodes(_) => {
                asked.1 += 1;
                t.episodes_came(Some(vec![(1, "E".into())]));
            }
            Question::Nothing => break,
        }
    }
    assert_eq!(asked, (8, 400));
    assert_eq!(t.found("").len(), 8);
    assert_eq!(t.found("")[0].seasons.len(), 50);
    let mut empty = TreeSearch::start(vec![show("1", "S")]);
    empty.seasons_came(Some(("S".into(), vec![])));
    assert!(matches!(empty.question(&p), Question::Nothing));
    assert!(empty.found("").is_empty());
}
