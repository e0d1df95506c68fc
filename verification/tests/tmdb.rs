use serde_json::Value;
use tagtiger::dates::{date_exists, parse_date, parse_year};
use tagtiger::error::Error;
use tagtiger::model::{Date, MediaKind, MediaKindMeta, MediaQuery, ProviderId, SearchResult};
use tagtiger::tmdb::{
    collect_artwork, collect_still_artwork, crew_directors, crew_people, episode_details,
    episode_title_matches, filter_matching_episodes, movie_details, movie_hits, needle,
    pick_summary, tv_hits, us_movie_certification, us_tv_rating, Auth, SeasonListing, ShowListing,
    TmdbCast, TmdbContentRatingCountry, TmdbContentRatings, TmdbCredits, TmdbCrew,
    TmdbEpisodeDetail, TmdbImage, TmdbMovieDetail, TmdbMovieHit, TmdbProvider, TmdbReleaseDateEntry,
    TmdbReleaseDates, TmdbReleaseDatesCountry, TmdbSeasonEntry, TmdbSeasonEpisode, TmdbTvDetail,
    TmdbTvHit, Trade,
};

fn text(v: &Value, key: &str) -> Option<String> {
    v.get(key).and_then(Value::as_str).map(str::to_string)
}

fn number(v: &Value, key: &str) -> Option<u32> {
    v.get(key).and_then(Value::as_u64).map(|n| n as u32)
}

fn list<'a>(v: &'a Value, key: &str) -> Option<&'a Vec<Value>> {
    v.get(key).and_then(Value::as_array)
}

fn crew_of(v: &Value) -> TmdbCrew {
    TmdbCrew {
        name: text(v, "name").unwrap(),
        job: text(v, "job"),
        department: text(v, "department"),
    }
}

fn cast_of(v: &Value) -> TmdbCast {
    TmdbCast { name: text(v, "name").unwrap(), character: text(v, "character") }
}

fn image_of(v: &Value) -> TmdbImage {
    TmdbImage {
        file_path: text(v, "file_path").unwrap(),
        width: number(v, "width"),
        height: number(v, "height"),
    }
}

fn episode_of(json: &str) -> TmdbEpisodeDetail {
    let v: Value = serde_json::from_str(json).unwrap();
    TmdbEpisodeDetail {
        name: text(&v, "name"),
        overview: text(&v, "overview"),
        air_date: text(&v, "air_date"),
        still_path: text(&v, "still_path"),
        guest_stars: list(&v, "guest_stars")
            .map(|l| l.iter().map(cast_of).collect())
            .unwrap_or_default(),
        crew: list(&v, "crew").map(|l| l.iter().map(crew_of).collect()),
        stills: v
            .get("images")
            .and_then(|i| list(i, "stills"))
            .map(|l| l.iter().map(image_of).collect()),
    }
}

fn names(people: Vec<tagtiger::model::Person>) -> Vec<String> {
    people.into_iter().map(|p| p.name).collect()
}

#[test]
fn image_url_builds() {
    let p = Some("/abc.jpg".to_string());
    assert_eq!(
        TmdbProvider::image_url(&p, "w342"),
        Some("https://image.tmdb.org/t/p/w342/abc.jpg".to_string())
    );
    assert_eq!(TmdbProvider::image_url(&None, "w342"), None);
}

#[test]
fn summary_prefers_tagline() {
    assert_eq!(
        pick_summary(&Some("Believe the impossible.".into()), &Some("Long...".into())).as_deref(),
        Some("Believe the impossible.")
    );
    assert_eq!(
        pick_summary(&Some("   ".into()), &Some("An overview.".into())).as_deref(),
        Some("An overview.")
    );
    assert_eq!(
        pick_summary(&None, &Some("An overview.".into())).as_deref(),
        Some("An overview.")
    );
    assert_eq!(pick_summary(&None, &None), None);
}

#[test]
fn parses_year_and_date() {
    assert_eq!(parse_year("1999-03-31"), Some(1999));
    assert_eq!(parse_date("1999-03-31"), Some(Date { year: 1999, month: 3, day: 31 }));
}

#[test]
fn dates_that_do_not_exist_are_not_read() {
    assert_eq!(parse_date("1999-02-29"), None);
    assert_eq!(parse_date(""), None);
    assert_eq!(parse_date("soon"), None);
    assert_eq!(parse_date("2000-02-29"), Some(Date { year: 2000, month: 2, day: 29 }));
    assert!(date_exists(Date { year: 2000, month: 2, day: 29 }));
    assert!(!date_exists(Date { year: 1999, month: 2, day: 29 }));
    assert!(!date_exists(Date { year: 1999, month: 13, day: 1 }));
    assert_eq!(parse_year("19"), None);
    assert_eq!(parse_year("next"), None);
}

#[test]
fn extracts_us_movie_certification() {
    let rd = TmdbReleaseDates {
        results: vec![
            TmdbReleaseDatesCountry {
                iso_3166_1: "GB".into(),
                release_dates: vec![TmdbReleaseDateEntry { certification: "15".into() }],
            },
            TmdbReleaseDatesCountry {
                iso_3166_1: "US".into(),
                release_dates: vec![
                    TmdbReleaseDateEntry { certification: "".into() },
                    TmdbReleaseDateEntry { certification: "R".into() },
                ],
            },
        ],
    };
    assert_eq!(us_movie_certification(&Some(rd)).as_deref(), Some("R"));
    assert_eq!(us_movie_certification(&None), None);
}

#[test]
fn extracts_us_tv_rating() {
    let cr = TmdbContentRatings {
        results: vec![
            TmdbContentRatingCountry { iso_3166_1: "DE".into(), rating: "16".into() },
            TmdbContentRatingCountry { iso_3166_1: "US".into(), rating: "TV-14".into() },
        ],
    };
    assert_eq!(us_tv_rating(&Some(cr)).as_deref(), Some("TV-14"));
}

#[test]
fn other_countries_fill_in() {
    let cr = TmdbContentRatings {
        results: vec![
            TmdbContentRatingCountry { iso_3166_1: "DE".into(), rating: "16".into() },
            TmdbContentRatingCountry { iso_3166_1: "US".into(), rating: "  ".into() },
        ],
    };
    assert_eq!(us_tv_rating(&Some(cr)).as_deref(), Some("16"));
    assert_eq!(us_tv_rating(&None), None);
    let rd = TmdbReleaseDates {
        results: vec![TmdbReleaseDatesCountry {
            iso_3166_1: "GB".into(),
            release_dates: vec![TmdbReleaseDateEntry { certification: " 15 ".into() }],
        }],
    };
    assert_eq!(us_movie_certification(&Some(rd)).as_deref(), Some("15"));
}

fn crew(name: &str, job: Option<&str>, dept: Option<&str>) -> TmdbCrew {
    TmdbCrew {
        name: name.to_string(),
        job: job.map(str::to_string),
        department: dept.map(str::to_string),
    }
}

#[test]
fn producers_match_whole_production_department() {
    let crew_list = vec![
        crew("Exec Only", Some("Executive Producer"), Some("Production")),
        crew("Co Prod", Some("Co-Producer"), Some("Production")),
        crew("A Director", Some("Director"), Some("Directing")),
        crew("Bare Producer", Some("Producer"), None),
    ];
    assert_eq!(
        names(crew_people(&crew_list, Trade::Producing)),
        vec!["Exec Only", "Co Prod", "Bare Producer"]
    );
}

#[test]
fn writers_match_whole_writing_department() {
    let crew_list = vec![
        crew("Screen Writer", Some("Screenplay"), Some("Writing")),
        crew("Story Person", Some("Story"), Some("Writing")),
        crew("A Director", Some("Director"), Some("Directing")),
        crew("Bare Writer", Some("Writer"), None),
    ];
    assert_eq!(
        names(crew_people(&crew_list, Trade::Writing)),
        vec!["Screen Writer", "Story Person", "Bare Writer"]
    );
}

#[test]
fn jobs_count_where_no_department_is_given() {
    let crew_list = vec![
        crew("A", Some("Producer"), Some("Directing")),
        crew("B", Some("Associate Producer"), None),
        crew("C", Some("Writer"), Some("Directing")),
        crew("D", Some("Novel"), None),
        crew("E", None, None),
        crew("F", Some("Casting"), Some("Production")),
    ];
    assert_eq!(names(crew_people(&crew_list, Trade::Producing)), vec!["B", "F"]);
    assert_eq!(names(crew_people(&crew_list, Trade::Writing)), vec!["D"]);
}

#[test]
fn crew_people_dedupes_by_name() {
    let crew_list = vec![
        crew("Jane Doe", Some("Producer"), Some("Production")),
        crew("Jane Doe", Some("Executive Producer"), Some("Production")),
    ];
    assert_eq!(names(crew_people(&crew_list, Trade::Producing)), vec!["Jane Doe"]);
}

#[test]
fn parses_producers_writers_from_tmdb_credits_json() {
    let json = r#"{
        "cast": [
            { "name": "Keanu Reeves", "character": "Neo" }
        ],
        "crew": [
            { "name": "Lana Wachowski", "job": "Director", "department": "Directing" },
            { "name": "Lilly Wachowski", "job": "Writer", "department": "Writing" },
            { "name": "Joel Silver", "job": "Producer", "department": "Production" },
            { "name": "Bruce Berman", "job": "Executive Producer", "department": "Production" }
        ]
    }"#;
    let v: Value = serde_json::from_str(json).unwrap();
    let credits = TmdbCredits {
        cast: list(&v, "cast").unwrap().iter().map(cast_of).collect(),
        crew: list(&v, "crew").unwrap().iter().map(crew_of).collect(),
    };
    assert_eq!(
        names(crew_people(&credits.crew, Trade::Producing)),
        vec!["Joel Silver", "Bruce Berman"]
    );
    assert_eq!(names(crew_people(&credits.crew, Trade::Writing)), vec!["Lilly Wachowski"]);
}

#[test]
fn parses_episode_detail_json() {
    let json = r#"{
        "name": "Cat's in the Bag...",
        "overview": "Walt and Jesse attempt to tie up loose ends.",
        "air_date": "2008-01-27",
        "still_path": "/still1.jpg",
        "guest_stars": [ { "name": "Guest One", "character": "Victim" } ],
        "crew": [
            { "name": "Adam Bernstein", "job": "Director", "department": "Directing" },
            { "name": "Vince Gilligan", "job": "Writer", "department": "Writing" }
        ],
        "images": { "stills": [
            { "file_path": "/still1.jpg", "width": 1920, "height": 1080 },
            { "file_path": "/still2.jpg", "width": 1280, "height": 720 }
        ] }
    }"#;
    let ep = episode_of(json);
    assert_eq!(ep.name.as_deref(), Some("Cat's in the Bag..."));
    assert_eq!(ep.air_date.as_deref(), Some("2008-01-27"));

    let art = collect_still_artwork(&ep.still_path, &ep.stills);
    assert_eq!(art.len(), 2);
    assert!(art[0].url.ends_with("/still1.jpg"));
    assert_eq!(art[0].width, Some(1920));
    assert!(art[1].url.ends_with("/still2.jpg"));

    let crew = ep.crew.unwrap();
    assert_eq!(names(crew_directors(&crew)), vec!["Adam Bernstein"]);
    assert_eq!(names(crew_people(&crew, Trade::Writing)), vec!["Vince Gilligan"]);
}

#[test]
fn episode_detail_tolerates_missing_fields() {
    let ep = episode_of("{}");
    assert!(ep.name.is_none());
    assert!(ep.overview.is_none());
    assert!(ep.air_date.is_none());
    assert!(ep.still_path.is_none());
    assert!(ep.guest_stars.is_empty());
    assert!(ep.crew.is_none());
    assert!(collect_still_artwork(&ep.still_path, &ep.stills).is_empty());
}

#[test]
fn parses_episode_name_payload() {
    let ep: Value = serde_json::from_str(r#"{ "name": "Pilot", "overview": "..." }"#).unwrap();
    assert_eq!(TmdbProvider::episode_name(text(&ep, "name")).as_deref(), Some("Pilot"));
    let none: Value = serde_json::from_str("{}").unwrap();
    assert!(TmdbProvider::episode_name(text(&none, "name")).is_none());
    let blank: Value = serde_json::from_str(r#"{ "name": "  " }"#).unwrap();
    assert!(TmdbProvider::episode_name(text(&blank, "name")).is_none());
}

fn season_of(json: &str) -> Vec<TmdbSeasonEpisode> {
    let v: Value = serde_json::from_str(json).unwrap();
    list(&v, "episodes")
        .unwrap()
        .iter()
        .map(|e| TmdbSeasonEpisode {
            episode_number: number(e, "episode_number").unwrap(),
            name: text(e, "name"),
            overview: text(e, "overview"),
            air_date: text(e, "air_date"),
            still_path: text(e, "still_path"),
        })
        .collect()
}

#[test]
fn parses_season_episode_list() {
    let json = r#"{
        "episodes": [
            { "episode_number": 1, "name": "Pilot", "air_date": "2008-01-20",
              "overview": "First.", "still_path": "/s1.jpg" },
            { "episode_number": 2, "name": "Cat's in the Bag...", "air_date": "2008-01-27",
              "overview": "Second.", "still_path": null }
        ]
    }"#;
    let season = season_of(json);
    assert_eq!(season.len(), 2);
    assert_eq!(season[0].episode_number, 1);
    assert_eq!(season[1].name.as_deref(), Some("Cat's in the Bag..."));
    assert!(season[1].still_path.is_none());

    let results = TmdbProvider::list_season_episodes("1396", "Breaking Bad", 1, &season);
    assert_eq!(results.len(), 2);
    assert_eq!(results[0].id.id, "1396");
    assert_eq!(results[0].id.episode, Some(1));
    assert_eq!(results[0].title, "Breaking Bad");
    assert_eq!(results[0].year, Some(2008));
    assert_eq!(results[0].episode_name.as_deref(), Some("Pilot"));
    assert_eq!(
        results[0].poster_thumb_url.as_deref(),
        Some("https://image.tmdb.org/t/p/w342/s1.jpg")
    );
    assert_eq!(results[1].poster_thumb_url, None);
    let listed = TmdbProvider::season_episode_names(&season);
    assert_eq!(listed[1], (2, "Cat's in the Bag...".to_string()));
}

#[test]
fn parses_tv_seasons_detail() {
    let json = r#"{
        "name": "Breaking Bad",
        "seasons": [
            { "season_number": 0, "name": "Specials", "episode_count": 3 },
            { "season_number": 1, "name": "Season 1", "episode_count": 7 },
            { "season_number": 2, "name": null, "episode_count": 0 }
        ]
    }"#;
    let v: Value = serde_json::from_str(json).unwrap();
    assert_eq!(text(&v, "name").as_deref(), Some("Breaking Bad"));
    let seasons: Vec<TmdbSeasonEntry> = list(&v, "seasons")
        .unwrap()
        .iter()
        .map(|s| TmdbSeasonEntry {
            season_number: number(s, "season_number").unwrap(),
            name: text(s, "name"),
            episode_count: number(s, "episode_count").unwrap(),
        })
        .collect();
    assert_eq!(seasons.len(), 3);
    assert_eq!(seasons[2].episode_count, 0);
    assert!(seasons[2].name.is_none());
    let kept = TmdbProvider::tv_seasons(&seasons);
    assert_eq!(kept.len(), 2);
    assert_eq!(kept[0].name, "Specials");
}

#[test]
fn seasons_are_put_in_order() {
    let entry = |season_number: u32, name: Option<&str>, episode_count: u32| TmdbSeasonEntry {
        season_number,
        name: name.map(str::to_string),
        episode_count,
    };
    let seasons = vec![entry(3, None, 1), entry(1, Some(" "), 2), entry(2, Some("Two"), 3)];
    let kept = TmdbProvider::tv_seasons(&seasons);
    let numbers: Vec<u32> = kept.iter().map(|s| s.season_number).collect();
    assert_eq!(numbers, vec![1, 2, 3]);
    assert_eq!(kept[0].name, "Season 1");
    assert_eq!(kept[1].name, "Two");
    assert_eq!(TmdbProvider::seasons_to_scan(None, &kept), vec![1, 2, 3]);
    assert_eq!(TmdbProvider::seasons_to_scan(Some(9), &kept), vec![9]);
}

#[test]
fn episode_title_matches_is_case_insensitive_substring() {
    assert!(episode_title_matches(Some("Pilot"), ""));
    assert!(episode_title_matches(None, ""));
    assert!(episode_title_matches(Some("Cat's in the Bag..."), "cat"));
    assert!(episode_title_matches(Some("Pilot"), "pil"));
    assert!(!episode_title_matches(Some("Pilot"), "zzz"));
    assert!(!episode_title_matches(None, "pilot"));
}

#[test]
fn filter_matching_episodes_keeps_only_matches() {
    let eps: Vec<(u32, String)> = vec![
        (1, "Pilot".to_string()),
        (2, "Cat's in the Bag...".to_string()),
        (3, "...And the Bag's in the River".to_string()),
    ];
    let hits = filter_matching_episodes(&eps, "bag");
    assert_eq!(hits.len(), 2);
    assert_eq!(hits[0].number, 2);
    assert_eq!(hits[1].number, 3);
    assert_eq!(filter_matching_episodes(&eps, "").len(), 3);
    assert!(filter_matching_episodes(&eps, "zzz").is_empty());
}

#[test]
fn titles_are_looked_for_in_lower_case() {
    assert_eq!(needle("  The BAG "), "the bag");
}

fn image(path: &str, width: u32) -> TmdbImage {
    TmdbImage { file_path: path.into(), width: Some(width), height: Some(1) }
}

#[test]
fn galleries_offer_each_picture_once() {
    let images = Some(vec![image("/a.jpg", 10), image("/b.jpg", 20), image("/a.jpg", 30)]);
    let art = collect_artwork(&Some("/b.jpg".into()), &images);
    let urls: Vec<&str> = art.iter().map(|a| a.url.as_str()).collect();
    assert_eq!(
        urls,
        vec![
            "https://image.tmdb.org/t/p/original/b.jpg",
            "https://image.tmdb.org/t/p/original/a.jpg"
        ]
    );
    assert_eq!(art[0].width, Some(20));
    assert!(collect_artwork(&None, &None).is_empty());
}

fn matrix() -> TmdbMovieDetail {
    TmdbMovieDetail {
        title: "The Matrix".into(),
        overview: Some("A hacker learns the truth.".into()),
        tagline: Some("Believe the unbelievable.".into()),
        release_date: Some("1999-03-31".into()),
        poster_path: Some("/p.jpg".into()),
        genres: vec!["Action".into(), "Science Fiction".into()],
        production_companies: vec!["Village Roadshow".into(), "Warner".into()],
        credits: Some(TmdbCredits {
            cast: vec![TmdbCast { name: "Keanu Reeves".into(), character: Some("Neo".into()) }],
            crew: vec![
                crew("Lana Wachowski", Some("Director"), Some("Directing")),
                crew("Joel Silver", Some("Producer"), Some("Production")),
            ],
        }),
        images: Some(vec![image("/p.jpg", 500)]),
        release_dates: None,
    }
}

#[test]
fn movie_details_become_metadata() {
    let m = movie_details(matrix());
    assert_eq!(m.title, "The Matrix");
    assert_eq!(m.release_date, Some(Date { year: 1999, month: 3, day: 31 }));
    assert_eq!(m.summary.as_deref(), Some("Believe the unbelievable."));
    assert_eq!(m.genres, vec!["Action", "Science Fiction"]);
    assert_eq!(m.studio.as_deref(), Some("Village Roadshow"));
    assert_eq!(m.cast[0].role.as_deref(), Some("Neo"));
    assert_eq!(names(m.directors), vec!["Lana Wachowski"]);
    assert_eq!(names(m.producers), vec!["Joel Silver"]);
    assert_eq!(m.artwork.len(), 1);
    assert_eq!(m.kind, MediaKindMeta::Movie);
}

fn breaking_bad() -> TmdbTvDetail {
    TmdbTvDetail {
        name: "Breaking Bad".into(),
        overview: Some("A teacher turns to crime.".into()),
        tagline: None,
        first_air_date: Some("2008-01-20".into()),
        poster_path: Some("/show.jpg".into()),
        genres: vec!["Drama".into()],
        networks: vec!["AMC".into()],
        credits: None,
        images: None,
        content_ratings: None,
    }
}

fn show_id(season: Option<u32>, episode: Option<u32>) -> ProviderId {
    ProviderId {
        provider: "tmdb".into(),
        id: "1396".into(),
        kind: MediaKind::TvShow,
        season,
        episode,
    }
}

#[test]
fn episode_details_become_metadata() {
    let ep = episode_of(
        r#"{ "name": "Pilot", "overview": "It begins.", "air_date": "2008-01-20" }"#,
    );
    let m = episode_details(breaking_bad(), &show_id(Some(1), Some(1)), Some(ep));
    assert_eq!(m.release_date, Some(Date { year: 2008, month: 1, day: 20 }));
    match m.kind {
        MediaKindMeta::Episode(e) => {
            assert_eq!(e.show_name, "Breaking Bad");
            assert_eq!((e.season, e.episode), (1, 1));
            assert_eq!(e.episode_title.as_deref(), Some("Pilot"));
            assert_eq!(e.network.as_deref(), Some("AMC"));
        }
        MediaKindMeta::Movie => panic!("expected an episode"),
    }
}

#[test]
fn episodes_offer_each_picture_once() {
    let picture = |path: &str| TmdbImage { file_path: path.into(), width: None, height: None };
    let mut show = breaking_bad();
    show.images = Some(vec![picture("/a.jpg"), picture("/show.jpg"), picture("/b.jpg")]);
    let mut ep = episode_of(r#"{ "still_path": "/s.jpg" }"#);
    ep.stills = Some(vec![picture("/b.jpg"), picture("/s.jpg")]);
    let m = episode_details(show, &show_id(Some(1), Some(1)), Some(ep));
    let paths: Vec<&str> = m.artwork.iter().map(|a| a.url.rsplit('/').next().unwrap()).collect();
    assert_eq!(paths, vec!["s.jpg", "b.jpg", "show.jpg", "a.jpg"]);
}

#[test]
fn hits_become_results() {
    let movies = movie_hits(&vec![TmdbMovieHit {
        id: 603,
        title: "The Matrix".into(),
        overview: None,
        release_date: Some("1999-03-31".into()),
        poster_path: Some("/p.jpg".into()),
    }]);
    assert_eq!(movies[0].id.id, "603");
    assert_eq!(movies[0].id.kind, MediaKind::Movie);
    assert_eq!(movies[0].year, Some(1999));
    let shows = tv_hits(&vec![TmdbTvHit {
        id: 1396,
        name: "Breaking Bad".into(),
        overview: None,
        first_air_date: None,
        poster_path: None,
    }]);
    assert_eq!(shows[0].title, "Breaking Bad");
    assert_eq!(shows[0].id.kind, MediaKind::TvShow);
    assert_eq!(shows[0].poster_thumb_url, None);
}

#[test]
fn environment_decides_who_asks() {
    let p = TmdbProvider::from_env(Some("token"), Some("key")).unwrap();
    assert!(matches!(p.auth, Auth::Bearer(t) if t == "token"));
    let p = TmdbProvider::from_env(Some("  "), Some("key")).unwrap();
    assert!(matches!(p.auth, Auth::ApiKey(k) if k == "key"));
    assert!(matches!(TmdbProvider::from_env(None, None), Err(Error::MissingApiKey(_))));
    assert_eq!(TmdbProvider::new("k").name(), "tmdb");
}

#[test]
fn requests_carry_the_credential() {
    let by_key = TmdbProvider::new("secret");
    let query = MediaQuery {
        title: "The Matrix".into(),
        year: Some(1999),
        kind: MediaKind::Movie,
        season: None,
        episode: None,
    };
    let r = by_key.search_request(&query);
    assert_eq!(r.url, "https://api.themoviedb.org/3/search/movie");
    let expected: Vec<(String, String)> = vec![
        ("api_key".into(), "secret".into()),
        ("query".into(), "The Matrix".into()),
        ("year".into(), "1999".into()),
    ];
    assert_eq!(r.query, expected);
    assert_eq!(r.bearer, None);

    let by_token = TmdbProvider::with_bearer("token");
    let r = by_token.search_request(&TmdbProvider::show_query("Breaking Bad"));
    assert_eq!(r.url, "https://api.themoviedb.org/3/search/tv");
    assert_eq!(r.query, vec![("query".to_string(), "Breaking Bad".to_string())]);
    assert_eq!(r.bearer.as_deref(), Some("token"));
}

#[test]
fn requests_name_their_titles() {
    let p = TmdbProvider::with_bearer("t");
    let base = "https://api.themoviedb.org/3";
    let extra = |parts: &str| vec![("append_to_response".to_string(), parts.to_string())];
    let id = show_id(Some(1), Some(2));
    let r = p.details_request(&id);
    assert_eq!(r.url, format!("{base}/tv/1396"));
    assert_eq!(r.query, extra("credits,images,content_ratings"));
    let r = p.episode_request(&id).unwrap();
    assert_eq!(r.url, format!("{base}/tv/1396/season/1/episode/2"));
    assert_eq!(r.query, extra("images"));
    assert!(p.episode_request(&show_id(Some(1), None)).is_none());
    let movie = ProviderId { kind: MediaKind::Movie, ..show_id(None, None) };
    let r = p.details_request(&movie);
    assert_eq!(r.url, format!("{base}/movie/1396"));
    assert_eq!(r.query, extra("credits,images,release_dates"));
    assert_eq!(p.season_request("7", 3).url, format!("{base}/tv/7/season/3"));
    assert_eq!(p.seasons_request("7").url, format!("{base}/tv/7"));
    assert_eq!(p.posters_request("7").query, extra("images"));
    assert_eq!(
        p.episode_name_request("7", 3, 4).url,
        format!("{base}/tv/7/season/3/episode/4")
    );
}

#[test]
fn show_posters_are_those_of_the_show() {
    let art = TmdbProvider::tv_show_posters(&breaking_bad());
    assert_eq!(art.len(), 1);
    assert_eq!(art[0].url, "https://image.tmdb.org/t/p/original/show.jpg");
}

fn result(title: &str, episode_name: Option<&str>) -> SearchResult {
    SearchResult {
        id: show_id(None, None),
        title: title.into(),
        year: Some(2008),
        overview: None,
        poster_thumb_url: None,
        episode_name: episode_name.map(str::to_string),
    }
}

#[test]
fn episodes_are_found_across_seasons() {
    let seasons = vec![
        vec![result("S", Some("Pilot")), result("S", Some("The Bag"))],
        vec![result("S", None), result("S", Some("BAGMAN"))],
    ];
    let found = TmdbProvider::search_episodes_by_title(&seasons, " Bag ");
    let titles: Vec<Option<String>> = found.into_iter().map(|r| r.episode_name).collect();
    assert_eq!(titles, vec![Some("The Bag".to_string()), Some("BAGMAN".to_string())]);
    assert_eq!(TmdbProvider::search_episodes_by_title(&seasons, "").len(), 4);
}

#[test]
fn trees_hold_matches_only() {
    let listing = |name: &str, episodes: Vec<(u32, &str)>| SeasonListing {
        summary: tagtiger::model::TvSeasonSummary {
            season_number: 1,
            name: name.into(),
            episode_count: 2,
        },
        episodes: episodes.into_iter().map(|(n, t)| (n, t.to_string())).collect(),
    };
    let shows = vec![
        ShowListing {
            hit: result("  ", None),
            fetched: Some((
                "Own Name".into(),
                vec![listing("One", vec![(1, "Pilot"), (2, "Bag")]), listing("Two", vec![(1, "X")])],
            )),
        },
        ShowListing { hit: result("Lost", None), fetched: None },
        ShowListing {
            hit: result("Other", None),
            fetched: Some(("O".into(), vec![listing("One", vec![(1, "Nothing")])])),
        },
    ];
    let tree = TmdbProvider::search_episode_tree_by_title(&shows, "BAG");
    assert_eq!(tree.len(), 1);
    assert_eq!(tree[0].show_name, "Own Name");
    assert_eq!(tree[0].seasons.len(), 1);
    assert_eq!(tree[0].seasons[0].episodes[0].number, 2);
    assert_eq!(TmdbProvider::search_episode_tree_by_title(&shows, "").len(), 2);
}
