use tagtiger::artwork::DecodedImage;
use tagtiger::editor::{ClipContext, Editor, Effect};
use tagtiger::form::{
    definition_to_index, dims_caption, index_to_definition, index_to_video_kind, join_people,
    size_caption, video_kind_to_index, Fields, Locks,
};
use tagtiger::gallery::{visible_index_range, Gallery, Lightbox};
use tagtiger::history::{Draft, History, Snapshot};
use tagtiger::license::{expected_key, Settings};
use tagtiger::model::{
    Artwork, Date, Definition, MediaKind, MediaMetadata, Person, ProviderId, SearchResult,
    VideoKind,
};
use tagtiger::tag::WritePhase;
use tagtiger::text::split_csv;
use tagtiger::worker::{Event, Request};

#[test]
fn video_kind_index_roundtrip() {
    assert_eq!(video_kind_to_index(None), 0);
    assert_eq!(index_to_video_kind(0), None);
    for k in VideoKind::all() {
        let i = video_kind_to_index(Some(k));
        assert!(i >= 1);
        assert_eq!(index_to_video_kind(i), Some(k));
    }
    assert_eq!(index_to_video_kind(1), Some(VideoKind::all()[0]));
    assert_eq!(index_to_video_kind(6), None);
    assert_eq!(index_to_video_kind(-1), None);
}

#[test]
fn definition_index_roundtrip() {
    assert_eq!(definition_to_index(None), 0);
    assert_eq!(index_to_definition(0), None);
    for d in Definition::all() {
        let i = definition_to_index(Some(d));
        assert!(i >= 1);
        assert_eq!(index_to_definition(i), Some(d));
    }
    assert_eq!(index_to_definition(5), None);
}

#[test]
fn split_csv_trims_and_drops_empties() {
    assert_eq!(split_csv("a, b ,,c"), vec!["a", "b", "c"]);
    assert_eq!(split_csv("  "), Vec::<String>::new());
}

#[test]
fn visible_index_range_maps_rows_to_indices() {
    assert_eq!(visible_index_range(0, 1, 4, 20), Some((0, 7)));
    assert_eq!(visible_index_range(2, 3, 4, 20), Some((8, 15)));
    assert_eq!(visible_index_range(4, 6, 4, 20), Some((16, 19)));
    assert_eq!(visible_index_range(-2, 0, 4, 20), Some((0, 3)));
    assert_eq!(visible_index_range(10, 12, 4, 20), None);
    assert_eq!(visible_index_range(0, 1, 0, 20), None);
    assert_eq!(visible_index_range(0, 1, 4, 0), None);
}

#[test]
fn visible_range_of_huge_rows() {
    assert_eq!(visible_index_range(0, i32::MAX, i32::MAX, 5), Some((0, 4)));
    assert_eq!(visible_index_range(i32::MAX, i32::MAX, i32::MAX, 5), None);
}

#[test]
fn captions_show_sizes() {
    assert_eq!(dims_caption(Some((1920, 1080))), "1920 x 1080");
    assert_eq!(dims_caption(Some((0, 1080))), "");
    assert_eq!(dims_caption(None), "");
    assert_eq!(size_caption(Some((1000, 1500))), "1000 x 1500");
    assert_eq!(size_caption(None), "— x —");
    assert_eq!(size_caption(Some((5, 0))), "— x —");
}

fn no_locks() -> Locks {
    Locks {
        title: false,
        year: false,
        video_kind: false,
        rating: false,
        summary: false,
        overview: false,
        genres: false,
        cast: false,
        directors: false,
        producers: false,
        writers: false,
        studio: false,
        poster: false,
    }
}

fn matrix() -> MediaMetadata {
    MediaMetadata {
        title: "The Matrix".into(),
        release_date: Some(Date { year: 1999, month: 3, day: 31 }),
        summary: Some("Short.".into()),
        overview: Some("Long.".into()),
        genres: vec!["Action".into(), "Sci-Fi".into()],
        cast: vec![Person::new("Keanu Reeves"), Person::new("Carrie-Anne Moss")],
        directors: vec![Person::new("Lana Wachowski")],
        producers: vec![],
        writers: vec![Person::new("Lilly Wachowski")],
        content_rating: Some("R".into()),
        studio: Some("Warner".into()),
        video_kind: Some(VideoKind::Movie),
        definition: Some(Definition::Hd1080),
        artwork: (0..10)
            .map(|i| Artwork {
                url: format!("full{i}"),
                thumb_url: if i == 0 { None } else { Some(format!("thumb{i}")) },
                width: Some(10),
                height: Some(15),
            })
            .collect(),
        ..MediaMetadata::default()
    }
}

#[test]
fn fields_show_metadata() {
    let mut f = Fields::blank();
    f.load_meta(&matrix(), None);
    assert_eq!(f.title, "The Matrix");
    assert_eq!(f.year, "1999-03-31");
    assert_eq!(f.video_kind_index, 1);
    assert_eq!(f.definition_index, 3);
    assert_eq!(f.rating_index, 4);
    assert_eq!(f.genres, "Action, Sci-Fi");
    assert_eq!(f.cast, "Keanu Reeves, Carrie-Anne Moss");
    assert_eq!(f.producers, "");
    assert_eq!(join_people(&vec![Person::new("A"), Person::new("B")]), "A, B");
}

#[test]
fn unedited_fields_give_the_metadata_back() {
    let mut f = Fields::blank();
    f.load_meta(&matrix(), None);
    assert_eq!(f.collect_edited(&matrix()), matrix());
}

#[test]
fn edited_fields_are_collected() {
    let mut f = Fields::blank();
    f.load_meta(&matrix(), None);
    f.title = "Other".into();
    f.year = " 2000-02-29 ".into();
    f.rating_index = 0;
    f.summary = "x".repeat(300);
    f.overview = "  ".into();
    f.genres = " a,, b ".into();
    f.studio = " S ".into();
    f.definition_index = 0;
    let m = f.collect_edited(&matrix());
    assert_eq!(m.title, "Other");
    assert_eq!(m.release_date, Some(Date { year: 2000, month: 2, day: 29 }));
    assert_eq!(m.content_rating, None);
    assert_eq!(m.summary.unwrap().len(), 255);
    assert_eq!(m.overview, None);
    assert_eq!(m.genres, vec!["a", "b"]);
    assert_eq!(m.studio.as_deref(), Some("S"));
    assert_eq!(m.definition, None);
    f.year = "2001".into();
    assert_eq!(f.collect_edited(&matrix()).release_date, None);
}

#[test]
fn locked_fields_keep_their_text() {
    let mut f = Fields::blank();
    f.load_meta(&matrix(), None);
    let other = MediaMetadata { title: "Other".into(), ..MediaMetadata::default() };
    let locks = Locks { title: true, cast: true, ..no_locks() };
    f.load_meta(&other, Some(locks));
    assert_eq!(f.title, "The Matrix");
    assert_eq!(f.cast, "Keanu Reeves, Carrie-Anne Moss");
    assert_eq!(f.genres, "");
    // The definition is the file's own.
    assert_eq!(f.definition_index, 3);
}

#[test]
fn undo_and_redo_restore_states() {
    let mut draft = Draft { fields: Fields::blank(), cover_bytes: None, cover_size: None };
    let mut history = History::empty();
    draft.fields.title = "a".into();
    history.note_typing();
    draft.fields.title = "ab".into();
    history.note_typing();
    assert!(history.can_undo());
    history.commit_text_edit(&draft);
    draft.fields.rating_index = 3;
    history.discrete_change(&draft);
    assert!(history.undo(&mut draft));
    assert_eq!((draft.fields.title.as_str(), draft.fields.rating_index), ("ab", 0));
    assert!(history.undo(&mut draft));
    assert_eq!(draft.fields.title, "");
    assert!(!history.undo(&mut draft));
    assert!(history.can_redo());
    assert!(history.redo(&mut draft));
    assert!(history.redo(&mut draft));
    assert_eq!((draft.fields.title.as_str(), draft.fields.rating_index), ("ab", 3));
    assert!(!history.redo(&mut draft));
}

#[test]
fn unchanged_typing_is_no_step() {
    let draft = Draft { fields: Fields::blank(), cover_bytes: None, cover_size: None };
    let mut history = History::empty();
    history.note_typing();
    history.commit_text_edit(&draft);
    history.discrete_change(&draft);
    assert!(!history.can_undo());
    history.push_undo(&draft);
    assert!(history.can_undo());
    history.clear();
    assert!(!history.can_undo());
}

#[test]
fn snapshots_are_told_apart() {
    let a = Snapshot::empty();
    let mut b = a.copy();
    assert!(a.same(&b));
    b.cover_bytes = Some(vec![1]);
    assert!(!a.same(&b));
    assert!(b.same(&b.copy()));
}

fn image(width: u32) -> DecodedImage {
    DecodedImage { width, height: 1, rgba: vec![0; 4 * width as usize] }
}

#[test]
fn posters_are_asked_for_once() {
    let art = matrix().artwork;
    let mut g = Gallery::empty();
    g.rebuild(&art);
    assert_eq!(g.posters.len(), 10);
    assert_eq!(g.posters[0].size, "10 x 15");
    let first = g.request_visible_thumbs(&art, 0, 0, 4);
    assert_eq!(first.len(), 4);
    assert!(matches!(&first[0], Request::FetchThumb { index: 0, url } if url == "full0"));
    assert!(matches!(&first[3], Request::FetchThumb { index: 3, url } if url == "thumb3"));
    assert!(g.request_visible_thumbs(&art, 0, 0, 4).is_empty());
    assert_eq!(g.request_visible_thumbs(&art, 0, 9, 4).len(), 6);
    g.place_thumb(2, image(3));
    assert!(g.posters[2].image.is_some());
    g.place_thumb(99, image(3));
    assert_eq!(g.posters.len(), 10);
}

#[test]
fn enlarged_poster_waits_for_its_picture() {
    let art = matrix().artwork;
    let mut g = Gallery::empty();
    g.rebuild(&art);
    assert!(g.open(1, Some("full1".into())).is_some());
    assert_eq!(g.lightbox, Some(Lightbox::Tmdb(1)));
    assert!(!g.loaded);
    assert!(g.open(1, Some("full1".into())).is_none());
    g.place_full(1, image(7));
    assert!(g.loaded);
    assert_eq!(g.picture.as_ref().unwrap().width, 7);
    g.place_full(2, image(9));
    assert_eq!(g.picture.as_ref().unwrap().width, 7);
    assert!(g.open(2, Some("full2".into())).is_none());
    assert_eq!(g.picture.as_ref().unwrap().width, 9);
}

fn editor() -> Editor {
    Editor::start(Settings::default(), None).0
}

fn loaded_event() -> Event {
    Event::FileLoaded {
        file: "/d/m.mp4".into(),
        meta: matrix(),
        suggested_query: "The Matrix".into(),
        cover: Some(image(5)),
        cover_size: Some((50, 10)),
        cover_bytes: Some(vec![1, 2, 3]),
        video_dimensions: Some((1920, 800)),
        fast_start: true,
    }
}

fn open_editor() -> Editor {
    let mut e = editor();
    let effects = e.on_event(loaded_event());
    match &effects[..] {
        [Effect::SendAll(list)] => assert_eq!(list.len(), 8),
        other => panic!("unexpected: {other:?}"),
    }
    e
}

#[test]
fn start_asks_for_a_license() {
    let (e, effects) = Editor::start(Settings::default(), Some("/a.mp4".into()));
    assert!(e.dialogs.splash);
    assert!(e.dialogs.theme_dark);
    assert!(matches!(&effects[..], [Effect::Send(Request::OpenFile { path })] if path == "/a.mp4"));
    let settings = Settings {
        license_email: "a@b.com".into(),
        license_key: expected_key("a@b.com"),
        theme: "Light".into(),
        ..Settings::default()
    };
    let (e, effects) = Editor::start(settings, None);
    assert!(!e.dialogs.splash);
    assert!(e.dialogs.about_licensed);
    assert!(!e.dialogs.theme_dark);
    assert!(effects.is_empty());
}

#[test]
fn loaded_file_fills_the_editor() {
    let e = open_editor();
    assert_eq!(e.file.as_deref(), Some("/d/m.mp4"));
    assert_eq!(e.draft.fields.title, "The Matrix");
    assert_eq!(e.panel.search_query, "The Matrix");
    assert_eq!(e.panel.status, "Edit fields, or search TMDB to fetch metadata.");
    assert!(!e.can_undo());
    assert!(!e.can_redo());
    assert!(e.fast_start);
}

#[test]
fn untouched_file_is_written_as_it_was_loaded() {
    let mut e = open_editor();
    match e.write_tags().pop() {
        Some(Effect::Send(Request::WriteTags {
            file,
            meta,
            artwork_url,
            cover_override,
            fast_start,
        })) => {
            assert_eq!(file, "/d/m.mp4");
            assert_eq!(meta, matrix());
            assert_eq!(artwork_url, None);
            assert_eq!(cover_override, Some(vec![1, 2, 3]));
            assert!(fast_start);
        }
        other => panic!("unexpected: {other:?}"),
    }
    assert_eq!(e.panel.status, "Writing…");
    // One save at a time.
    assert!(e.write_tags().is_empty());
    assert_eq!(editor().write_tags().len(), 0);
}

#[test]
fn save_is_reported() {
    let mut e = open_editor();
    e.write_tags();
    e.on_event(Event::WriteStarted);
    assert!(e.panel.progress.shown);
    e.on_event(Event::WriteProgress { phase: WritePhase::Optimizing, done: 5, total: 10 });
    assert_eq!(e.panel.progress.phase, "Optimizing layout");
    assert_eq!(e.panel.progress.caption, Some((5, 10)));
    let effects = e.on_event(Event::WriteDone { file_name: "m.mp4".into() });
    assert!(matches!(&effects[..], [Effect::SaveSettings]));
    assert_eq!(e.panel.status, "Saved: m.mp4");
    assert_eq!(e.panel.complete.as_deref(), Some("“m.mp4” was rewritten (media shifted)."));
    assert_eq!(e.settings.tag_count, 1);
    assert!(!e.dialogs.splash_pending);
    assert!(!e.writing);
    e.on_event(Event::WriteDone { file_name: "m.mp4".into() });
    assert_eq!(e.panel.complete.as_deref(), Some("“m.mp4” was updated in place."));
}

#[test]
fn license_is_asked_for_at_intervals() {
    let mut e = open_editor();
    e.splash_dismiss();
    e.settings.tag_count = 4;
    e.on_event(Event::WriteDone { file_name: "m".into() });
    assert!(!e.dialogs.splash_pending);
    e.settings.tag_count = 9;
    e.on_event(Event::WriteDone { file_name: "m".into() });
    assert!(e.dialogs.splash_pending);
    assert!(!e.dialogs.splash);
    e.complete_ok();
    assert!(e.dialogs.splash);
    assert!(!e.dialogs.splash_pending);
    assert_eq!(e.panel.complete, None);
    e.splash_dismiss();
    e.on_event(Event::WriteDone { file_name: "m".into() });
    e.complete_ok();
    assert!(!e.dialogs.splash);
}

#[test]
fn failure_ends_what_is_under_way() {
    let mut e = open_editor();
    e.write_tags();
    e.on_event(Event::Failed { message: "disk full".into() });
    assert_eq!(e.panel.status, "Error: disk full");
    assert!(!e.writing);
    assert!(!e.loading);
}

#[test]
fn typing_after_a_new_cover_is_undone_alone() {
    let mut e = open_editor();
    let before = e.draft.cover_bytes.clone();
    e.image_read(Some(png(20, 10)));
    e.draft.fields.title = "Other".into();
    e.on_field_edited();
    e.undo();
    assert_eq!(e.draft.fields.title, "The Matrix");
    assert_eq!(e.draft.cover_size, Some((20, 10)));
    e.undo();
    assert_eq!(e.draft.cover_bytes, before);
}

#[test]
fn edits_are_steps() {
    let mut e = open_editor();
    e.draft.fields.title = "Other".into();
    e.draft.fields.summary = "x".repeat(300);
    e.panel.poster_selected = true;
    e.on_field_edited();
    assert!(!e.panel.poster_selected);
    assert_eq!(e.draft.fields.summary.len(), 255);
    assert!(e.can_undo());
    e.commit_text_edit();
    e.draft.fields.rating_index = 1;
    e.discrete_change();
    e.undo();
    assert_eq!(e.panel.status, "Undo.");
    assert_eq!(e.draft.fields.rating_index, 4);
    e.undo();
    assert_eq!(e.draft.fields.title, "The Matrix");
    e.redo();
    assert_eq!(e.panel.status, "Redo.");
    assert_eq!(e.draft.fields.title, "Other");
    e.fast_start_changed(false);
    assert!(!e.fast_start);
}

fn results() -> Vec<SearchResult> {
    vec![SearchResult {
        id: ProviderId {
            provider: "tmdb".into(),
            id: "603".into(),
            kind: MediaKind::Movie,
            season: None,
            episode: None,
        },
        title: "The Matrix".into(),
        year: Some(1999),
        overview: None,
        poster_thumb_url: None,
        episode_name: None,
    }]
}

#[test]
fn matches_are_searched_and_chosen() {
    let mut e = open_editor();
    e.panel.search_query = "  ".into();
    assert!(e.start_search(true).is_empty());
    assert_eq!(e.panel.status, "Enter a title to search.");
    e.panel.search_query = " Heat ".into();
    assert!(e.start_search(false).is_empty());
    assert!(e.dialogs.no_credential);
    e.no_cred_ok();
    assert!(!e.dialogs.no_credential);
    let effects = e.start_search(true);
    assert!(matches!(&effects[..], [Effect::Send(Request::Search { query })] if query == "Heat"));
    assert_eq!(e.panel.status, "Searching for “Heat”…");

    e.on_event(Event::SearchDone { results: results() });
    assert_eq!(e.panel.status, "1 match(es).");
    assert_eq!(e.matches(), vec![("The Matrix".to_string(), "1999".to_string())]);
    assert!(e.select_match(1).is_empty());
    assert!(e.select_match(-1).is_empty());
    match e.select_match(0).pop() {
        Some(Effect::Send(Request::FetchDetails { id, file })) => {
            assert_eq!((id.id.as_str(), file.as_str()), ("603", "/d/m.mp4"));
        }
        other => panic!("unexpected: {other:?}"),
    }
    assert!(e.loading);
    // One fetch at a time.
    assert!(e.select_match(0).is_empty());
    e.locks.title = true;
    let other = MediaMetadata { title: "Other".into(), ..MediaMetadata::default() };
    e.on_event(Event::DetailsDone { meta: other });
    assert!(!e.loading);
    assert_eq!(e.draft.fields.title, "The Matrix");
    assert_eq!(e.draft.fields.genres, "");
    assert_eq!(e.draft.cover_bytes, Some(vec![1, 2, 3]));
}

fn png(w: u32, h: u32) -> Vec<u8> {
    let img = image::RgbaImage::from_pixel(w, h, image::Rgba([10, 20, 30, 255]));
    let mut out = std::io::Cursor::new(Vec::new());
    image::DynamicImage::ImageRgba8(img).write_to(&mut out, image::ImageFormat::Png).unwrap();
    out.into_inner()
}

const POSTER: ClipContext =
    ClipContext { text_focused: false, current_poster: true, grid_poster: false };
const TEXT: ClipContext =
    ClipContext { text_focused: true, current_poster: true, grid_poster: false };
const GRID: ClipContext =
    ClipContext { text_focused: false, current_poster: false, grid_poster: true };

#[test]
fn cover_is_cut_and_pasted() {
    let mut e = open_editor();
    assert!(matches!(&e.do_cut(TEXT)[..], [Effect::Shortcut('x')]));
    assert!(matches!(&e.do_copy(POSTER)[..], [Effect::CopyImage(b)] if b == &[1, 2, 3]));
    e.image_copied(true);
    assert_eq!(e.panel.status, "Poster copied to clipboard.");
    e.image_copied(false);
    assert_eq!(e.panel.status, "Failed to copy poster.");
    assert!(matches!(&e.do_cut(POSTER)[..], [Effect::CopyImageQuietly(_)]));
    assert_eq!(e.draft.cover_bytes, None);
    assert!(e.cover.is_none());
    assert_eq!(e.panel.status, "Poster cut.");
    assert!(e.do_cut(POSTER).is_empty());
    assert_eq!(e.panel.status, "No poster to cut.");
    assert!(e.do_copy(POSTER).is_empty());
    assert_eq!(e.panel.status, "No poster to copy.");
    assert!(matches!(&e.do_paste(POSTER)[..], [Effect::ReadClipboard]));
    e.image_read(None);
    assert_eq!(e.panel.status, "No image on clipboard.");
    e.image_read(Some(png(20, 10)));
    assert_eq!(e.panel.status, "Poster pasted.");
    assert_eq!(e.draft.cover_size, Some((20, 10)));
    assert!(e.cover.is_some());
    e.undo();
    assert_eq!(e.draft.cover_bytes, None);
    e.undo();
    assert_eq!(e.draft.cover_bytes, Some(vec![1, 2, 3]));
    e.redo();
    e.redo();
    assert_eq!(e.draft.cover_size, Some((20, 10)));
    assert!(matches!(&e.do_paste(TEXT)[..], [Effect::Shortcut('v')]));
    assert!(e.do_paste(GRID).is_empty());
}

#[test]
fn locked_poster_stays() {
    let mut e = open_editor();
    e.locks.poster = true;
    assert!(e.do_cut(POSTER).is_empty());
    assert_eq!(e.panel.status, "Poster is locked.");
    assert!(e.do_paste(POSTER).is_empty());
    assert!(e.poster_choice_clicked(0).is_empty());
    assert!(!e.accepts_image());
    e.image_dropped(png(2, 2));
    assert_eq!(e.draft.cover_bytes, Some(vec![1, 2, 3]));
    e.locks.poster = false;
    e.image_dropped(png(2, 2));
    assert_eq!(e.draft.cover_size, Some((2, 2)));
    assert_eq!(e.panel.status, "Poster replaced from dropped image.");
}

#[test]
fn posters_are_chosen_and_enlarged() {
    let mut e = open_editor();
    assert!(matches!(
        &e.poster_choice_clicked(1)[..],
        [Effect::Send(Request::SetCoverFromUrl { url })] if url == "full1"
    ));
    assert_eq!(e.panel.selected_poster, 1);
    assert!(e.poster_choice_clicked(99).is_empty());
    assert!(matches!(
        &e.do_copy(GRID)[..],
        [Effect::Send(Request::CopyPosterToClipboard { url })] if url == "full1"
    ));
    let bytes = png(4, 4);
    e.on_event(Event::CoverSet { image: image(4), orig_size: (4, 4), bytes: bytes.clone() });
    assert_eq!(e.panel.status, "Poster set as current.");
    assert_eq!(e.draft.cover_bytes, Some(bytes));
    assert!(e.can_undo());
    e.poster_clicked();
    assert!(e.panel.poster_selected);
    assert_eq!(e.panel.selected_poster, -1);
    e.clear_poster_selection();
    assert!(!e.panel.poster_selected);

    e.open_current_cover_lightbox();
    assert_eq!(e.gallery.lightbox, Some(Lightbox::CurrentCover));
    assert!(matches!(
        &e.open_tmdb_lightbox(2)[..],
        [Effect::Send(Request::FetchFullImage { index: 2, url })] if url == "full2"
    ));
    e.on_event(Event::FullImageDone { index: 2, image: image(6) });
    assert!(e.gallery.loaded);
    e.lightbox_close();
    assert_eq!(e.gallery.lightbox, None);
    assert!(e.open_tmdb_lightbox(-1).is_empty());
    match &e.poster_rows_visible(2, 2, 4)[..] {
        [Effect::SendAll(list)] => assert_eq!(list.len(), 2),
        other => panic!("unexpected: {other:?}"),
    }
    e.on_event(Event::ThumbDone { index: 0, image: image(1) });
    assert!(e.gallery.posters[0].image.is_some());
    assert!(matches!(
        &e.on_event(Event::CopyToClipboard { bytes: vec![9] })[..],
        [Effect::CopyImage(b)] if b == &[9]
    ));
}

#[test]
fn files_of_the_system_are_opened() {
    let mut e = editor();
    assert!(e.open_path("/a.txt".into(), "a.txt", true).is_empty());
    assert!(e.open_path("/a.mp4".into(), "a.mp4", false).is_empty());
    assert_eq!(e.open_path("/a.mp4".into(), "a.mp4", true).len(), 1);
    assert_eq!(e.panel.status, "Opening file…");
    assert!(matches!(&e.open_file()[..], [Effect::Send(Request::PickFile)]));
}

#[test]
fn license_is_entered() {
    let mut e = editor();
    e.open_license_dialog();
    assert!(e.dialogs.license.shown);
    e.dialogs.license.email = " a@b.com ".into();
    e.dialogs.license.key = expected_key("a@b.com").to_lowercase();
    e.license_key_edited();
    assert!(e.dialogs.license.valid);
    assert_eq!(e.dialogs.license.key.len(), 19);
    assert!(matches!(&e.license_save()[..], [Effect::SaveSettings]));
    assert_eq!(e.settings.license_email, "a@b.com");
    e.license_saved(Some("read-only".into()));
    assert_eq!(e.dialogs.license.message, "Couldn't save settings: read-only");
    assert!(e.dialogs.splash);
    e.license_saved(None);
    assert!(!e.dialogs.license.shown);
    assert!(e.dialogs.about_licensed);
    assert!(!e.dialogs.splash);
    assert_eq!(e.panel.status, "License saved. Thank you!");
    e.open_license_dialog();
    e.license_cancel();
    assert!(!e.dialogs.license.shown);
}

#[test]
fn settings_are_changed_or_not() {
    let mut e = editor();
    e.open_settings_dialog();
    assert_eq!(e.dialogs.settings.theme_index, 1);
    e.theme_changed(0);
    assert!(!e.dialogs.theme_dark);
    e.settings_cancel();
    assert!(e.dialogs.theme_dark);
    assert!(!e.dialogs.settings.shown);
    e.no_cred_open_settings();
    assert!(e.dialogs.settings.shown);
    e.dialogs.settings.token = " tok ".into();
    e.dialogs.settings.theme_index = 0;
    assert!(matches!(&e.settings_save()[..], [Effect::SaveSettings]));
    assert_eq!(e.settings.theme, "Light");
    assert!(matches!(
        &e.settings_saved(None)[..],
        [Effect::Send(Request::SetBearerToken { token })] if token == "tok"
    ));
    assert_eq!(e.panel.status, "TMDB token saved.");
    e.settings_saved(Some("no".into()));
    assert_eq!(e.panel.status, "Failed to save settings: no");
    e.open_about();
    assert!(e.dialogs.about);
    e.about_ok();
    assert!(!e.dialogs.about);
}
