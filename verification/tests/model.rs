use tagtiger::model::{
    Artwork, Date, Definition, EpisodeInfo, MediaKind, MediaKindMeta, MediaMetadata, Person,
    VideoKind,
};

/// The definition of a picture, which must not depend on how it is turned.
fn deduce(w: u32, h: u32) -> Definition {
    let a = Definition::from_dimensions(w, h);
    let b = Definition::from_dimensions(h, w);
    assert_eq!(a, b, "the definition must not depend on rotation: {w}x{h}");
    a
}

#[test]
fn definition_from_dimensions_table() {
    let cases = [
        (1892, 776, Definition::Hd1080),
        (1440, 1080, Definition::Hd1080),
        (1440, 996, Definition::Hd1080),
        (1920, 1080, Definition::Hd1080),
        (1280, 720, Definition::Hd720),
        (960, 720, Definition::Hd720),
        (720, 576, Definition::Sd),
        (640, 480, Definition::Sd),
        (3840, 2160, Definition::Uhd4k),
        (3840, 1600, Definition::Uhd4k),
    ];
    for (w, h, expected) in cases {
        assert_eq!(deduce(w, h), expected, "{w}x{h} should be {expected:?}");
    }
}

#[test]
fn definition_tier_boundaries() {
    assert_eq!(deduce(1280, 720), Definition::Hd720);
    assert_eq!(deduce(1281, 721), Definition::Hd1080);
    assert_eq!(deduce(1920, 1080), Definition::Hd1080);
    assert_eq!(deduce(1921, 1081), Definition::Uhd4k);
    assert_eq!(deduce(720, 576), Definition::Sd);
    assert_eq!(deduce(1025, 577), Definition::Hd720);
}

#[test]
fn deduces_definition_from_dimensions() {
    assert_eq!(Definition::from_dimensions(640, 480), Definition::Sd);
    assert_eq!(Definition::from_dimensions(1280, 720), Definition::Hd720);
    assert_eq!(Definition::from_dimensions(1920, 1080), Definition::Hd1080);
    assert_eq!(Definition::from_dimensions(3840, 2160), Definition::Uhd4k);
}

#[test]
fn cropping_keeps_or_lowers_the_definition() {
    assert_eq!(Definition::from_dimensions(3840, 2160).hdvd(), 3);
    assert_eq!(Definition::from_dimensions(3840, 800).hdvd(), 3);
    assert_eq!(Definition::from_dimensions(1900, 800).hdvd(), 2);
    assert_eq!(Definition::from_dimensions(0, 0), Definition::Sd);
}

#[test]
fn stik_numbers_read_back() {
    assert_eq!(VideoKind::HomeVideo.stik(), 0);
    assert_eq!(VideoKind::MusicVideo.stik(), 6);
    assert_eq!(VideoKind::Movie.stik(), 9);
    assert_eq!(VideoKind::TvShow.stik(), 10);
    assert_eq!(VideoKind::Booklet.stik(), 11);
    for k in VideoKind::all() {
        assert_eq!(VideoKind::from_stik(k.stik()), Some(k));
    }
    assert_eq!(VideoKind::from_stik(1), None);
    assert_eq!(VideoKind::all().len(), 5);
    assert_eq!(VideoKind::all()[0].label(), "Movie");
    assert_eq!(VideoKind::TvShow.label(), "TV Show");
}

#[test]
fn hdvd_numbers_read_back() {
    for (i, d) in Definition::all().into_iter().enumerate() {
        assert_eq!(d.hdvd() as usize, i);
        assert_eq!(Definition::from_hdvd(d.hdvd()), Some(d));
    }
    assert_eq!(Definition::from_hdvd(4), None);
    assert_eq!(Definition::Uhd4k.label(), "4K");
    assert_eq!(Definition::Hd720.label(), "HD 720p");
}

#[test]
fn metadata_starts_blank_and_copies() {
    let blank = MediaMetadata::default();
    assert_eq!(blank.title, "");
    assert_eq!(blank.kind.kind(), MediaKind::Movie);
    let meta = MediaMetadata {
        title: "Pilot".into(),
        release_date: Some(Date { year: 2008, month: 1, day: 20 }),
        genres: vec!["Drama".into()],
        cast: vec![Person { name: "A".into(), role: Some("B".into()) }],
        artwork: vec![Artwork {
            url: "u".into(),
            thumb_url: None,
            width: Some(1),
            height: None,
        }],
        kind: MediaKindMeta::Episode(EpisodeInfo {
            show_name: "Show".into(),
            season: 1,
            episode: 2,
            episode_title: None,
            network: None,
            episode_id: None,
        }),
        ..MediaMetadata::default()
    };
    assert_eq!(meta.copy(), meta);
    assert_eq!(meta.kind.kind(), MediaKind::TvShow);
    assert_eq!(Person::new("X"), Person { name: "X".into(), role: None });
}
