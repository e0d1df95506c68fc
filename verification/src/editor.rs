//! The editor: what is on the screen, and what becomes of it with each thing that the user does and
//! each thing that the worker reports. What has to be done outside is handed back as effects.

use crate::artwork::{
    dimensions, picture_size, scaled_picture, thumbnail, DecodedImage, PixelsView,
};
use crate::dates::valid_date;
use crate::form::{collected, fields_after, fields_of, Fields, FieldsView, Locks};
use crate::gallery::{
    copy_image, enlarged, no_gallery, rebuilt, row_requests, rows_requested, asked_for, Gallery,
    GalleryView, Lightbox, PosterView,
};
use crate::history::{
    chosen, copy_bytes, fresh, law_change_is_one_step, law_history_stays_sound, no_snapshot, redone,
    replaced, settled, snap, sound, typed, undone, Draft, DraftView, History, HistoryView,
};
use crate::license::{
    format_key, formatted_key, is_valid, normalize_key, normalized_key, valid_key, Settings,
    SettingsView, LICENSE_SALT,
};
use crate::model::{MediaMetadata, MetadataView, SearchResult, SearchResultView};
use crate::paths::{is_movie_path, names_movie};
use crate::tag::{phase_label, shortened, WritePhase};
use crate::text::{
    ascii_lowered, decimal, has_solid, law_trim_cuts_white_space_only, show, show_signed,
    signed_decimal, trim, trimmed,
};
use crate::worker::{bytes_of, pixels, Event, EventView, Request, RequestView, COVER_SIDE};
use vstd::prelude::*;

verus! {

/// After how many writes someone without a license is asked for one.
pub const SPLASH_INTERVAL: u64 = 10;

// ---------------------------------------------------------------------------
// The state
// ---------------------------------------------------------------------------

/// How far a save has come. The amounts are in bytes; the caption shows the last that had a total.
#[derive(Debug)]
pub struct Progress {
    pub shown: bool,
    pub phase: String,
    pub done: u64,
    pub total: u64,
    pub caption: Option<(u64, u64)>,
}

/// How far a save has come, in mathematical terms.
pub struct ProgressView {
    pub shown: bool,
    pub phase: Seq<char>,
    pub done: u64,
    pub total: u64,
    pub caption: Option<(u64, u64)>,
}

impl View for Progress {
    type V = ProgressView;

    open spec fn view(&self) -> ProgressView {
        ProgressView {
            shown: self.shown,
            phase: self.phase@,
            done: self.done,
            total: self.total,
            caption: self.caption,
        }
    }
}

/// What the main window shows beside the fields.
#[derive(Debug)]
pub struct Panel {
    pub status: String,
    pub search_query: String,
    /// The match that is chosen, or -1.
    pub selected_match: i32,
    /// Whether the current cover is selected.
    pub poster_selected: bool,
    /// The poster of the grid that is selected, or -1.
    pub selected_poster: i32,
    pub progress: Progress,
    /// What is said when a save is complete, until it is dismissed.
    pub complete: Option<String>,
}

/// What the main window shows beside the fields, in mathematical terms.
pub struct PanelView {
    pub status: Seq<char>,
    pub search_query: Seq<char>,
    pub selected_match: int,
    pub poster_selected: bool,
    pub selected_poster: int,
    pub progress: ProgressView,
    pub complete: Option<Seq<char>>,
}

impl View for Panel {
    type V = PanelView;

    open spec fn view(&self) -> PanelView {
        PanelView {
            status: self.status@,
            search_query: self.search_query@,
            selected_match: self.selected_match as int,
            poster_selected: self.poster_selected,
            selected_poster: self.selected_poster as int,
            progress: self.progress@,
            complete: self.complete.deep_view(),
        }
    }
}

/// The dialog in which a license is entered.
#[derive(Debug)]
pub struct LicenseDialog {
    pub shown: bool,
    pub email: String,
    pub key: String,
    pub valid: bool,
    pub message: String,
}

/// The license dialog, in mathematical terms.
pub struct LicenseDialogView {
    pub shown: bool,
    pub email: Seq<char>,
    pub key: Seq<char>,
    pub valid: bool,
    pub message: Seq<char>,
}

impl View for LicenseDialog {
    type V = LicenseDialogView;

    open spec fn view(&self) -> LicenseDialogView {
        LicenseDialogView {
            shown: self.shown,
            email: self.email@,
            key: self.key@,
            valid: self.valid,
            message: self.message@,
        }
    }
}

/// The dialog in which the settings are changed.
#[derive(Debug)]
pub struct SettingsDialog {
    pub shown: bool,
    pub token: String,
    /// 0 for light, 1 for dark.
    pub theme_index: i32,
    /// Whether the theme was dark when the dialog was opened.
    pub theme_before: bool,
}

/// The settings dialog, in mathematical terms.
pub struct SettingsDialogView {
    pub shown: bool,
    pub token: Seq<char>,
    pub theme_index: int,
    pub theme_before: bool,
}

impl View for SettingsDialog {
    type V = SettingsDialogView;

    open spec fn view(&self) -> SettingsDialogView {
        SettingsDialogView {
            shown: self.shown,
            token: self.token@,
            theme_index: self.theme_index as int,
            theme_before: self.theme_before,
        }
    }
}

/// The dialogs, and the theme of the window.
#[derive(Debug)]
pub struct Dialogs {
    pub about: bool,
    /// Whether the user is thanked for a license.
    pub about_licensed: bool,
    /// Whether the user is asked for a license.
    pub splash: bool,
    /// Whether the user is to be asked for one once a save is dismissed.
    pub splash_pending: bool,
    pub no_credential: bool,
    pub theme_dark: bool,
    pub license: LicenseDialog,
    pub settings: SettingsDialog,
}

/// The dialogs, in mathematical terms.
pub struct DialogsView {
    pub about: bool,
    pub about_licensed: bool,
    pub splash: bool,
    pub splash_pending: bool,
    pub no_credential: bool,
    pub theme_dark: bool,
    pub license: LicenseDialogView,
    pub settings: SettingsDialogView,
}

impl View for Dialogs {
    type V = DialogsView;

    open spec fn view(&self) -> DialogsView {
        DialogsView {
            about: self.about,
            about_licensed: self.about_licensed,
            splash: self.splash,
            splash_pending: self.splash_pending,
            no_credential: self.no_credential,
            theme_dark: self.theme_dark,
            license: self.license@,
            settings: self.settings@,
        }
    }
}

/// The editor.
#[derive(Debug)]
pub struct Editor {
    /// The file that is open.
    pub file: Option<String>,
    /// Whether details are on their way.
    pub loading: bool,
    /// What the file or the chosen match says.
    pub meta: Option<MediaMetadata>,
    pub results: Vec<SearchResult>,
    pub draft: Draft,
    pub locks: Locks,
    pub history: History,
    /// The current cover, for display.
    pub cover: Option<DecodedImage>,
    pub gallery: Gallery,
    pub panel: Panel,
    pub dialogs: Dialogs,
    pub settings: Settings,
    pub video_dimensions: Option<(u32, u32)>,
    pub fast_start: bool,
    pub writing: bool,
    /// Whether the save moves the media.
    pub write_is_shift: bool,
}

/// The editor, in mathematical terms.
pub struct EditorView {
    pub file: Option<Seq<char>>,
    pub loading: bool,
    pub meta: Option<MetadataView>,
    pub results: Seq<SearchResultView>,
    pub draft: DraftView,
    pub locks: Locks,
    pub history: HistoryView,
    pub cover: Option<PixelsView>,
    pub gallery: GalleryView,
    pub panel: PanelView,
    pub dialogs: DialogsView,
    pub settings: SettingsView,
    pub video_dimensions: Option<(u32, u32)>,
    pub fast_start: bool,
    pub writing: bool,
    pub write_is_shift: bool,
}

impl View for Editor {
    type V = EditorView;

    open spec fn view(&self) -> EditorView {
        EditorView {
            file: self.file.deep_view(),
            loading: self.loading,
            meta: self.meta.deep_view(),
            results: self.results.deep_view(),
            draft: self.draft@,
            locks: self.locks,
            history: self.history@,
            cover: pixels(self.cover),
            gallery: self.gallery@,
            panel: self.panel@,
            dialogs: self.dialogs@,
            settings: self.settings.deep_view(),
            video_dimensions: self.video_dimensions,
            fast_start: self.fast_start,
            writing: self.writing,
            write_is_shift: self.write_is_shift,
        }
    }
}

/// What has to be done outside.
#[derive(Debug)]
pub enum Effect {
    /// Hand a request to the worker.
    Send(Request),
    /// Hand requests to the worker, in order.
    SendAll(Vec<Request>),
    /// Store the settings.
    SaveSettings,
    /// Put a picture on the clipboard, and report whether it worked.
    CopyImage(Vec<u8>),
    /// Put a picture on the clipboard.
    CopyImageQuietly(Vec<u8>),
    /// Take a picture from the clipboard, and report it.
    ReadClipboard,
    /// Let the focused field cut, copy or paste.
    Shortcut(char),
}

/// What has to be done outside, in mathematical terms.
pub enum EffectView {
    Send(RequestView),
    SendAll(Seq<RequestView>),
    SaveSettings,
    CopyImage(Seq<u8>),
    CopyImageQuietly(Seq<u8>),
    ReadClipboard,
    Shortcut(char),
}

impl DeepView for Effect {
    type V = EffectView;

    open spec fn deep_view(&self) -> EffectView {
        match *self {
            Effect::Send(r) => EffectView::Send(r.deep_view()),
            Effect::SendAll(l) => EffectView::SendAll(l.deep_view()),
            Effect::SaveSettings => EffectView::SaveSettings,
            Effect::CopyImage(b) => EffectView::CopyImage(b@),
            Effect::CopyImageQuietly(b) => EffectView::CopyImageQuietly(b@),
            Effect::ReadClipboard => EffectView::ReadClipboard,
            Effect::Shortcut(c) => EffectView::Shortcut(c),
        }
    }
}

/// No effect.
fn nothing() -> (r: Vec<Effect>)
    ensures
        r.deep_view() == Seq::<EffectView>::empty(),
{
    let r: Vec<Effect> = Vec::new();
    assert(r.deep_view() =~= Seq::<EffectView>::empty());
    r
}

/// One effect.
fn just(e: Effect) -> (r: Vec<Effect>)
    ensures
        r.deep_view() == seq![e.deep_view()],
{
    let mut r: Vec<Effect> = Vec::new();
    r.push(e);
    assert(r.deep_view() =~= seq![e.deep_view()]);
    r
}

/// Whether the settings hold a valid license.
pub open spec fn licensed(s: SettingsView) -> bool {
    valid_key(LICENSE_SALT@, s.license_key, s.license_email)
}

/// Whether the settings ask for a dark theme.
pub open spec fn dark(s: SettingsView) -> bool {
    ascii_lowered(s.theme) != ascii_lowered("Light"@)
}

/// The place of a theme in its list.
pub open spec fn theme_place(dark: bool) -> int {
    if dark {
        1
    } else {
        0
    }
}

/// The editor with something said in the status line.
pub open spec fn said(e: EditorView, status: Seq<char>) -> EditorView {
    EditorView { panel: PanelView { status, ..e.panel }, ..e }
}

/// Locks of which none is closed.
pub open spec fn unlocked() -> Locks {
    Locks {
        title: false,
        year: false,
        video_kind: false,
        rating: false,
        summary: false,
        overview: false,
        genres: false,
        cast: false,
        directors: false,
        producers: false,
        writers: false,
        studio: false,
        poster: false,
    }
}

/// A save that has not begun.
pub open spec fn no_progress() -> ProgressView {
    ProgressView { shown: false, phase: ""@, done: 0, total: 0, caption: None }
}

/// The editor as it starts: without a file, with the theme that is set, and asking for a license
/// where there is none.
pub open spec fn started(s: SettingsView) -> EditorView {
    EditorView {
        file: None,
        loading: false,
        meta: None,
        results: Seq::empty(),
        draft: DraftView {
            fields: crate::form::blank_fields(),
            cover_bytes: None,
            cover_size: None,
        },
        locks: unlocked(),
        history: HistoryView {
            undo: Seq::empty(),
            redo: Seq::empty(),
            pending: None,
            committed: no_snapshot(),
        },
        cover: None,
        gallery: no_gallery(),
        panel: PanelView {
            status: ""@,
            search_query: ""@,
            selected_match: -1,
            poster_selected: false,
            selected_poster: -1,
            progress: no_progress(),
            complete: None,
        },
        dialogs: DialogsView {
            about: false,
            about_licensed: licensed(s),
            splash: !licensed(s),
            splash_pending: false,
            no_credential: false,
            theme_dark: dark(s),
            license: LicenseDialogView {
                shown: false,
                email: ""@,
                key: ""@,
                valid: false,
                message: ""@,
            },
            settings: SettingsDialogView {
                shown: false,
                token: ""@,
                theme_index: theme_place(dark(s)),
                theme_before: true,
            },
        },
        settings: s,
        video_dimensions: None,
        fast_start: false,
        writing: false,
        write_is_shift: false,
    }
}

impl Editor {
    /// The editor as it starts. A file that the program was started with is asked for.
    pub fn start(settings: Settings, launch: Option<String>) -> (r: (Editor, Vec<Effect>))
        ensures
            r.0@ == started(settings.deep_view()),
            r.1.deep_view() == (match launch {
                Some(path) => seq![EffectView::Send(RequestView::OpenFile { path: path@ })],
                None => Seq::empty(),
            }),
    {
        let licensed = settings.is_licensed();
        let dark = settings.theme_is_dark();
        let e = Editor {
            file: None,
            loading: false,
            meta: None,
            results: Vec::new(),
            draft: Draft { fields: Fields::blank(), cover_bytes: None, cover_size: None },
            locks: Locks {
                title: false,
                year: false,
                video_kind: false,
                rating: false,
                summary: false,
                overview: false,
                genres: false,
                cast: false,
                directors: false,
                producers: false,
                writers: false,
                studio: false,
                poster: false,
            },
            history: History::empty(),
            cover: None,
            gallery: Gallery::empty(),
            panel: Panel {
                status: "".to_string(),
                search_query: "".to_string(),
                selected_match: -1,
                poster_selected: false,
                selected_poster: -1,
                progress: Progress {
                    shown: false,
                    phase: "".to_string(),
                    done: 0,
                    total: 0,
                    caption: None,
                },
                complete: None,
            },
            dialogs: Dialogs {
                about: false,
                about_licensed: licensed,
                splash: !licensed,
                splash_pending: false,
                no_credential: false,
                theme_dark: dark,
                license: LicenseDialog {
                    shown: false,
                    email: "".to_string(),
                    key: "".to_string(),
                    valid: false,
                    message: "".to_string(),
                },
                settings: SettingsDialog {
                    shown: false,
                    token: "".to_string(),
                    theme_index: if dark {
                        1
                    } else {
                        0
                    },
                    theme_before: true,
                },
            },
            settings,
            video_dimensions: None,
            fast_start: false,
            writing: false,
            write_is_shift: false,
        };
        assert(e.results.deep_view() =~= Seq::<SearchResultView>::empty());
        let effects = match launch {
            Some(path) => just(Effect::Send(Request::OpenFile { path })),
            None => nothing(),
        };
        (e, effects)
    }

    /// Says something in the status line.
    fn say(&mut self, status: &str)
        ensures
            final(self)@ == said(old(self)@, status@),
    {
        self.panel.status = status.to_string();
    }
}

// ---------------------------------------------------------------------------
// Metadata and covers
// ---------------------------------------------------------------------------

/// The pictures that the metadata offers.
pub open spec fn artwork_of(e: EditorView) -> Seq<crate::model::ArtworkView> {
    match e.meta {
        Some(m) => m.artwork,
        None => Seq::empty(),
    }
}

/// The rows and the columns of the grid that are in sight at first.
pub open spec fn first_requests(m: MetadataView) -> Seq<RequestView> {
    row_requests(m.artwork, Seq::new(m.artwork.len(), |i: int| false), 0, 1, 4)
}

/// The gallery of new metadata, with the first rows asked for.
pub open spec fn first_gallery(g: GalleryView, m: MetadataView) -> GalleryView {
    let new = rebuilt(g, m.artwork);
    GalleryView {
        thumb_requested: rows_requested(new.thumb_requested, 0, 1, 4, m.artwork.len()),
        ..new
    }
}

/// The editor after metadata was loaded into it: all fields are filled, or those that are not
/// locked; what they then hold is the last settled state.
pub open spec fn filled(e: EditorView, m: MetadataView, locks: Option<Locks>) -> EditorView {
    let draft = DraftView { fields: fields_after(e.draft.fields, m, locks), ..e.draft };
    EditorView {
        meta: Some(m),
        draft,
        history: HistoryView { committed: snap(draft), ..e.history },
        gallery: first_gallery(e.gallery, m),
        ..e
    }
}

/// The cover as it is shown after the bytes of it were replaced: bytes that cannot be decoded leave
/// the picture as it was.
pub open spec fn cover_shown(old: Option<PixelsView>, bytes: Option<Seq<u8>>) -> Option<PixelsView> {
    match bytes {
        Some(b) => match scaled_picture(b, COVER_SIDE) {
            Some(p) => Some(p),
            None => old,
        },
        None => None,
    }
}

/// The editor with a picture as the cover, which can be undone.
pub open spec fn covered(e: EditorView, bytes: Seq<u8>) -> EditorView {
    let draft = DraftView {
        cover_bytes: Some(bytes),
        cover_size: picture_size(bytes),
        ..e.draft
    };
    EditorView {
        draft,
        history: replaced(e.history, e.draft, draft),
        cover: cover_shown(e.cover, Some(bytes)),
        ..e
    }
}

impl Editor {
    /// Shows the cover that the draft holds.
    fn show_cover(&mut self)
        ensures
            final(self)@ == (EditorView {
                cover: cover_shown(old(self)@.cover, old(self)@.draft.cover_bytes),
                ..old(self)@
            }),
    {
        match &self.draft.cover_bytes {
            Some(b) => {
                if let Ok(img) = thumbnail(b.as_slice(), COVER_SIDE) {
                    self.cover = Some(img);
                }
            },
            None => {
                self.cover = None;
            },
        }
    }

    /// Loads metadata: into all fields, or into those that are not locked.
    fn load_meta(&mut self, meta: MediaMetadata, locks: Option<Locks>) -> (r: Vec<Effect>)
        requires
            meta.release_date matches Some(d) ==> valid_date(d),
        ensures
            final(self)@ == filled(old(self)@, meta.deep_view(), locks),
            r.deep_view() == seq![EffectView::SendAll(first_requests(meta.deep_view()))],
    {
        self.draft.fields.load_meta(&meta, locks);
        self.gallery.rebuild(&meta.artwork);
        let requests = self.gallery.request_visible_thumbs(&meta.artwork, 0, 1, 4);
        self.meta = Some(meta);
        self.history.refresh_committed(&self.draft);
        just(Effect::SendAll(requests))
    }

    /// Makes a picture the cover, which can be undone.
    fn set_cover(&mut self, bytes: Vec<u8>)
        ensures
            final(self)@ == covered(old(self)@, bytes@),
    {
        self.history.push_undo(&self.draft);
        self.draft.cover_size = match dimensions(bytes.as_slice()) {
            Ok(size) => Some(size),
            Err(_) => None,
        };
        self.draft.cover_bytes = Some(bytes);
        self.history.refresh_committed(&self.draft);
        self.show_cover();
    }
}

// ---------------------------------------------------------------------------
// What the worker reports
// ---------------------------------------------------------------------------

/// The editor after a file was loaded: nothing of another file is left, and there is nothing to
/// undo.
pub open spec fn file_loaded(
    e: EditorView,
    file: Seq<char>,
    meta: MetadataView,
    query: Seq<char>,
    cover: Option<PixelsView>,
    cover_size: Option<(u32, u32)>,
    cover_bytes: Option<Seq<u8>>,
    video_dimensions: Option<(u32, u32)>,
    fast_start: bool,
) -> EditorView {
    let draft = DraftView { fields: fields_of(meta), cover_bytes, cover_size };
    EditorView {
        file: Some(file),
        loading: false,
        meta: Some(meta),
        results: Seq::empty(),
        draft,
        history: fresh(draft),
        cover,
        gallery: first_gallery(e.gallery, meta),
        panel: PanelView {
            status: "Edit fields, or search TMDB to fetch metadata."@,
            search_query: query,
            selected_match: -1,
            poster_selected: false,
            selected_poster: -1,
            ..e.panel
        },
        video_dimensions,
        fast_start,
        ..e
    }
}

/// The settings after one more write.
pub open spec fn counted(s: SettingsView) -> SettingsView {
    SettingsView { tag_count: ((s.tag_count + 1) % 0x1_0000_0000_0000_0000) as u64, ..s }
}

/// What is said of a save that is complete.
pub open spec fn complete_text(name: Seq<char>, shifted: bool) -> Seq<char> {
    "“"@ + name + "” was "@ + (if shifted {
        "rewritten (media shifted)"@
    } else {
        "updated in place"@
    }) + "."@
}

/// The editor after tags were written.
pub open spec fn write_done(e: EditorView, name: Seq<char>) -> EditorView {
    let settings = counted(e.settings);
    EditorView {
        writing: false,
        write_is_shift: false,
        settings,
        panel: PanelView {
            status: "Saved: "@ + name,
            progress: ProgressView { shown: false, ..e.panel.progress },
            complete: Some(complete_text(name, e.write_is_shift)),
            ..e.panel
        },
        dialogs: DialogsView {
            splash_pending: !licensed(settings) && settings.tag_count % SPLASH_INTERVAL == 0,
            ..e.dialogs
        },
        ..e
    }
}

/// The editor after something failed.
pub open spec fn failed(e: EditorView, message: Seq<char>) -> EditorView {
    EditorView {
        loading: false,
        writing: false,
        write_is_shift: false,
        panel: PanelView {
            status: "Error: "@ + message,
            progress: ProgressView { shown: false, ..e.panel.progress },
            ..e.panel
        },
        ..e
    }
}

/// The editor after a report of the worker.
pub open spec fn after_event(e: EditorView, event: EventView) -> EditorView {
    match event {
        EventView::FileLoaded {
            file,
            meta,
            suggested_query,
            cover,
            cover_size,
            cover_bytes,
            video_dimensions,
            fast_start,
        } => file_loaded(
            e,
            file,
            meta,
            suggested_query,
            cover,
            cover_size,
            cover_bytes,
            video_dimensions,
            fast_start,
        ),
        EventView::CoverSet { image, orig_size, bytes } => {
            let draft = DraftView {
                cover_bytes: Some(bytes),
                cover_size: Some(orig_size),
                ..e.draft
            };
            said(
                EditorView {
                    draft,
                    history: replaced(e.history, e.draft, draft),
                    cover: Some(image),
                    ..e
                },
                "Poster set as current."@,
            )
        },
        EventView::SearchDone { results } => EditorView {
            results,
            panel: PanelView {
                status: decimal(results.len()) + " match(es)."@,
                selected_match: -1,
                ..e.panel
            },
            ..e
        },
        EventView::DetailsDone { meta } => said(
            filled(EditorView { loading: false, ..e }, meta, Some(e.locks)),
            "Details loaded. Edit fields and pick a poster."@,
        ),
        EventView::ThumbDone { index, image } => EditorView {
            gallery: if index < e.gallery.posters.len() {
                GalleryView {
                    posters: e.gallery.posters.update(
                        index as int,
                        PosterView {
                            image: Some(image),
                            size: e.gallery.posters[index as int].size,
                        },
                    ),
                    ..e.gallery
                }
            } else {
                e.gallery
            },
            ..e
        },
        EventView::FullImageDone { index, image } => {
            let waited = e.gallery.lightbox == Some(Lightbox::Tmdb(index));
            EditorView {
                gallery: GalleryView {
                    full_images: if index < e.gallery.full_images.len() {
                        e.gallery.full_images.update(index as int, Some(image))
                    } else {
                        e.gallery.full_images
                    },
                    picture: if waited {
                        Some(image)
                    } else {
                        e.gallery.picture
                    },
                    loaded: waited || e.gallery.loaded,
                    ..e.gallery
                },
                ..e
            }
        },
        EventView::WriteDone { file_name } => write_done(e, file_name),
        EventView::WriteStarted => EditorView {
            write_is_shift: true,
            panel: PanelView {
                progress: ProgressView {
                    shown: true,
                    phase: "Copying"@,
                    done: 0,
                    total: 0,
                    caption: None,
                },
                ..e.panel
            },
            ..e
        },
        EventView::WriteProgress { phase, done, total } => EditorView {
            panel: PanelView {
                progress: ProgressView {
                    phase: phase_label(phase),
                    done,
                    total,
                    caption: if total > 0 {
                        Some((done, total))
                    } else {
                        e.panel.progress.caption
                    },
                    ..e.panel.progress
                },
                ..e.panel
            },
            ..e
        },
        EventView::Failed { message } => failed(e, message),
        _ => e,
    }
}

/// What has to be done outside after a report of the worker.
pub open spec fn event_effects(event: EventView) -> Seq<EffectView> {
    match event {
        EventView::FileLoaded { meta, .. } => seq![EffectView::SendAll(first_requests(meta))],
        EventView::DetailsDone { meta } => seq![EffectView::SendAll(first_requests(meta))],
        EventView::CopyToClipboard { bytes } => seq![EffectView::CopyImage(bytes)],
        EventView::WriteDone { .. } => seq![EffectView::SaveSettings],
        _ => Seq::empty(),
    }
}

/// Whether the dates in a report exist.
pub open spec fn dates_exist(event: EventView) -> bool {
    match event {
        EventView::FileLoaded { meta, .. } => meta.release_date matches Some(d) ==> valid_date(d),
        EventView::DetailsDone { meta } => meta.release_date matches Some(d) ==> valid_date(d),
        _ => true,
    }
}

impl Editor {
    /// Takes up a file.
    fn take_file(
        &mut self,
        file: String,
        meta: MediaMetadata,
        query: String,
        cover: Option<DecodedImage>,
        cover_size: Option<(u32, u32)>,
        cover_bytes: Option<Vec<u8>>,
        video_dimensions: Option<(u32, u32)>,
        fast_start: bool,
    ) -> (r: Vec<Effect>)
        requires
            meta.release_date matches Some(d) ==> valid_date(d),
        ensures
            final(self)@ == file_loaded(
                old(self)@,
                file@,
                meta.deep_view(),
                query@,
                pixels(cover),
                cover_size,
                bytes_of(cover_bytes),
                video_dimensions,
                fast_start,
            ),
            r.deep_view() == seq![EffectView::SendAll(first_requests(meta.deep_view()))],
    {
        self.file = Some(file);
        self.loading = false;
        self.results = Vec::new();
        assert(self.results.deep_view() =~= Seq::<SearchResultView>::empty());
        self.draft.cover_bytes = cover_bytes;
        self.draft.cover_size = cover_size;
        self.video_dimensions = video_dimensions;
        self.fast_start = fast_start;
        self.history.clear();
        self.cover = cover;
        self.panel.poster_selected = false;
        self.panel.selected_poster = -1;
        self.panel.selected_match = -1;
        self.panel.search_query = query;
        let effects = self.load_meta(meta, None);
        self.say("Edit fields, or search TMDB to fetch metadata.");
        effects
    }

    /// Takes up a poster that was chosen as the cover.
    fn take_cover(&mut self, image: DecodedImage, orig_size: (u32, u32), bytes: Vec<u8>)
        ensures
            final(self)@ == after_event(
                old(self)@,
                (EventView::CoverSet { image: image@, orig_size, bytes: bytes@ }),
            ),
    {
        self.history.push_undo(&self.draft);
        self.draft.cover_size = Some(orig_size);
        self.draft.cover_bytes = Some(bytes);
        self.history.refresh_committed(&self.draft);
        self.cover = Some(image);
        self.say("Poster set as current.");
    }

    /// Takes up the details of a match.
    fn take_details(&mut self, meta: MediaMetadata) -> (r: Vec<Effect>)
        requires
            meta.release_date matches Some(d) ==> valid_date(d),
        ensures
            final(self)@ == after_event(
                old(self)@,
                (EventView::DetailsDone { meta: meta.deep_view() }),
            ),
            r.deep_view() == seq![EffectView::SendAll(first_requests(meta.deep_view()))],
    {
        self.loading = false;
        let locks = self.locks;
        let effects = self.load_meta(meta, Some(locks));
        self.say("Details loaded. Edit fields and pick a poster.");
        effects
    }

    /// Takes up that tags were written.
    fn take_write(&mut self, name: String)
        ensures
            final(self)@ == write_done(old(self)@, name@),
    {
        self.writing = false;
        let how = if self.write_is_shift {
            "rewritten (media shifted)"
        } else {
            "updated in place"
        };
        self.write_is_shift = false;
        self.settings.tag_count = self.settings.tag_count.wrapping_add(1);
        self.dialogs.splash_pending = !self.settings.is_licensed() && self.settings.tag_count
            % SPLASH_INTERVAL == 0;
        self.panel.progress.shown = false;
        self.panel.status = "Saved: ".to_string().concat(name.as_str());
        self.panel.complete = Some(
            "“".to_string().concat(name.as_str()).concat("” was ").concat(how).concat("."),
        );
    }

    /// Takes up how far a save has come.
    fn take_progress(&mut self, phase: WritePhase, done: u64, total: u64)
        ensures
            final(self)@ == after_event(
                old(self)@,
                (EventView::WriteProgress { phase, done, total }),
            ),
    {
        self.panel.progress.phase = phase.label().to_string();
        self.panel.progress.done = done;
        self.panel.progress.total = total;
        if total > 0 {
            self.panel.progress.caption = Some((done, total));
        }
    }

    /// Takes up that something failed.
    fn take_failure(&mut self, message: String)
        ensures
            final(self)@ == failed(old(self)@, message@),
    {
        self.loading = false;
        self.write_is_shift = false;
        self.writing = false;
        self.panel.progress.shown = false;
        self.panel.status = "Error: ".to_string().concat(message.as_str());
    }

    /// Takes up the results of a search.
    fn take_results(&mut self, results: Vec<SearchResult>)
        ensures
            final(self)@ == after_event(
                old(self)@,
                (EventView::SearchDone { results: results.deep_view() }),
            ),
    {
        let n: usize = results.len();
        self.results = results;
        self.panel.selected_match = -1;
        self.panel.status = show(n as u64).concat(" match(es).");
    }

    /// Takes up a poster for the grid.
    fn take_thumb(&mut self, index: usize, image: DecodedImage)
        ensures
            final(self)@ == after_event(
                old(self)@,
                (EventView::ThumbDone { index, image: image@ }),
            ),
    {
        self.gallery.place_thumb(index, image);
    }

    /// Takes up an enlarged poster.
    fn take_full(&mut self, index: usize, image: DecodedImage)
        ensures
            final(self)@ == after_event(
                old(self)@,
                (EventView::FullImageDone { index, image: image@ }),
            ),
    {
        self.gallery.place_full(index, image);
    }

    /// Takes up that a save moves the media.
    fn take_start(&mut self)
        ensures
            final(self)@ == after_event(old(self)@, EventView::WriteStarted),
    {
        self.write_is_shift = true;
        self.panel.progress = Progress {
            shown: true,
            phase: "Copying".to_string(),
            done: 0,
            total: 0,
            caption: None,
        };
    }

    /// Takes up a report of the worker.
    #[verifier::rlimit(60)]
    pub fn on_event(&mut self, event: Event) -> (r: Vec<Effect>)
        requires
            dates_exist(event.deep_view()),
        ensures
            final(self)@ == after_event(old(self)@, event.deep_view()),
            r.deep_view() == event_effects(event.deep_view()),
    {
        match event {
            Event::FileLoaded {
                file,
                meta,
                suggested_query,
                cover,
                cover_size,
                cover_bytes,
                video_dimensions,
                fast_start,
            } => self.take_file(
                file,
                meta,
                suggested_query,
                cover,
                cover_size,
                cover_bytes,
                video_dimensions,
                fast_start,
            ),
            Event::CoverSet { image, orig_size, bytes } => {
                self.take_cover(image, orig_size, bytes);
                nothing()
            },
            Event::CopyToClipboard { bytes } => just(Effect::CopyImage(bytes)),
            Event::SearchDone { results } => {
                self.take_results(results);
                nothing()
            },
            Event::DetailsDone { meta } => self.take_details(meta),
            Event::ThumbDone { index, image } => {
                self.take_thumb(index, image);
                nothing()
            },
            Event::FullImageDone { index, image } => {
                self.take_full(index, image);
                nothing()
            },
            Event::WriteDone { file_name } => {
                self.take_write(file_name);
                just(Effect::SaveSettings)
            },
            Event::WriteStarted => {
                self.take_start();
                nothing()
            },
            Event::WriteProgress { phase, done, total } => {
                self.take_progress(phase, done, total);
                nothing()
            },
            Event::Failed { message } => {
                self.take_failure(message);
                nothing()
            },
            _ => nothing(),
        }
    }
}

// ---------------------------------------------------------------------------
// Editing
// ---------------------------------------------------------------------------

/// The editor after a keystroke in a field: the current cover is no longer selected, a short
/// description that is too long is cut off, and the run of keystrokes is one step to undo.
pub open spec fn field_edited(e: EditorView) -> EditorView {
    EditorView {
        draft: DraftView {
            fields: FieldsView {
                summary: shortened(e.draft.fields.summary),
                ..e.draft.fields
            },
            ..e.draft
        },
        history: typed(e.history),
        panel: PanelView { poster_selected: false, ..e.panel },
        ..e
    }
}

/// The editor after a step back.
pub open spec fn stepped_back(e: EditorView) -> EditorView {
    let (history, draft) = undone(e.history, e.draft);
    if settled(e.history, e.draft).undo.len() > 0 {
        said(
            EditorView {
                draft,
                history,
                cover: cover_shown(e.cover, draft.cover_bytes),
                ..e
            },
            "Undo."@,
        )
    } else {
        EditorView { draft, history, ..e }
    }
}

/// The editor after a step forward.
pub open spec fn stepped_forward(e: EditorView) -> EditorView {
    let (history, draft) = redone(e.history, e.draft);
    if settled(e.history, e.draft).redo.len() > 0 {
        said(
            EditorView {
                draft,
                history,
                cover: cover_shown(e.cover, draft.cover_bytes),
                ..e
            },
            "Redo."@,
        )
    } else {
        EditorView { draft, history, ..e }
    }
}

impl Editor {
    /// A keystroke came in a field.
    pub fn on_field_edited(&mut self)
        ensures
            final(self)@ == field_edited(old(self)@),
    {
        self.panel.poster_selected = false;
        self.draft.fields.clip_summary();
        self.history.note_typing();
    }

    /// A run of keystrokes is over.
    pub fn commit_text_edit(&mut self)
        ensures
            final(self)@ == (EditorView {
                history: settled(old(self)@.history, old(self)@.draft),
                ..old(self)@
            }),
    {
        self.history.commit_text_edit(&self.draft);
    }

    /// A choice was made in a menu.
    pub fn discrete_change(&mut self)
        ensures
            final(self)@ == (EditorView {
                history: chosen(old(self)@.history, old(self)@.draft),
                ..old(self)@
            }),
    {
        self.history.discrete_change(&self.draft);
    }

    /// The user wants the movie's index in front of the media, or behind it. This is no step to
    /// undo.
    pub fn fast_start_changed(&mut self, on: bool)
        ensures
            final(self)@ == (EditorView { fast_start: on, ..old(self)@ }),
    {
        self.fast_start = on;
    }

    /// Goes a step back.
    pub fn undo(&mut self)
        ensures
            final(self)@ == stepped_back(old(self)@),
    {
        if self.history.undo(&mut self.draft) {
            self.show_cover();
            self.say("Undo.");
        }
    }

    /// Goes a step forward.
    pub fn redo(&mut self)
        ensures
            final(self)@ == stepped_forward(old(self)@),
    {
        if self.history.redo(&mut self.draft) {
            self.show_cover();
            self.say("Redo.");
        }
    }

    /// Whether there is a step to go back.
    pub fn can_undo(&self) -> (r: bool)
        ensures
            r == (self@.history.undo.len() > 0 || self@.history.pending is Some),
    {
        self.history.can_undo()
    }

    /// Whether there is a step to go forward.
    pub fn can_redo(&self) -> (r: bool)
        ensures
            r == (self@.history.redo.len() > 0),
    {
        self.history.can_redo()
    }
}

// ---------------------------------------------------------------------------
// The cover and the posters
// ---------------------------------------------------------------------------

/// Where the focus is, when something is cut, copied or pasted.
#[derive(Clone, Copy, Debug, PartialEq, Eq, Structural)]
pub struct ClipContext {
    pub text_focused: bool,
    pub current_poster: bool,
    pub grid_poster: bool,
}

/// Editor and effects after the cover was cut.
pub open spec fn cut(e: EditorView) -> (EditorView, Seq<EffectView>) {
    match e.draft.cover_bytes {
        None => (said(e, "No poster to cut."@), Seq::empty()),
        Some(b) => if e.locks.poster {
            (said(e, "Poster is locked."@), Seq::empty())
        } else {
            let draft = DraftView { cover_bytes: None, cover_size: None, ..e.draft };
            (
                said(
                    EditorView {
                        draft,
                        history: replaced(e.history, e.draft, draft),
                        cover: None,
                        ..e
                    },
                    "Poster cut."@,
                ),
                seq![EffectView::CopyImageQuietly(b)],
            )
        },
    }
}

/// Editor and effects after the cover was copied.
pub open spec fn copied(e: EditorView) -> (EditorView, Seq<EffectView>) {
    match e.draft.cover_bytes {
        None => (said(e, "No poster to copy."@), Seq::empty()),
        Some(b) => (e, seq![EffectView::CopyImage(b)]),
    }
}

/// Editor and effects after a picture is to be pasted as the cover.
pub open spec fn pasting(e: EditorView) -> (EditorView, Seq<EffectView>) {
    if e.locks.poster {
        (said(e, "Poster is locked."@), Seq::empty())
    } else {
        (e, seq![EffectView::ReadClipboard])
    }
}

/// Where the poster of an index is to be had, if there is one.
pub open spec fn poster_address(e: EditorView, index: int) -> Option<Seq<char>> {
    if 0 <= index < artwork_of(e).len() {
        Some(artwork_of(e)[index].url)
    } else {
        None
    }
}

/// Editor and effects after the selected poster of the grid was copied.
pub open spec fn grid_copied(e: EditorView) -> (EditorView, Seq<EffectView>) {
    match poster_address(e, e.panel.selected_poster) {
        Some(url) => (
            said(e, "Copying poster…"@),
            seq![EffectView::Send(RequestView::CopyPosterToClipboard { url })],
        ),
        None => (e, Seq::empty()),
    }
}

/// Editor and effects after a poster of the grid was clicked: it is to be the cover, unless the
/// poster is locked.
pub open spec fn poster_picked(e: EditorView, index: int) -> (EditorView, Seq<EffectView>) {
    match poster_address(e, index) {
        Some(url) => if e.locks.poster {
            (e, Seq::empty())
        } else {
            (
                EditorView {
                    panel: PanelView {
                        selected_poster: index,
                        poster_selected: false,
                        status: "Setting poster…"@,
                        ..e.panel
                    },
                    ..e
                },
                seq![EffectView::Send(RequestView::SetCoverFromUrl { url })],
            )
        },
        None => (e, Seq::empty()),
    }
}

impl Editor {
    /// Cuts the current cover.
    pub fn cut_poster(&mut self) -> (r: Vec<Effect>)
        ensures
            (final(self)@, r.deep_view()) == cut(old(self)@),
    {
        let bytes = match copy_bytes(&self.draft.cover_bytes) {
            Some(b) => b,
            None => {
                self.say("No poster to cut.");
                return nothing();
            },
        };
        if self.locks.poster {
            self.say("Poster is locked.");
            return nothing();
        }
        self.history.push_undo(&self.draft);
        self.draft.cover_bytes = None;
        self.draft.cover_size = None;
        self.history.refresh_committed(&self.draft);
        self.cover = None;
        self.say("Poster cut.");
        just(Effect::CopyImageQuietly(bytes))
    }

    /// Copies the current cover.
    pub fn copy_poster(&mut self) -> (r: Vec<Effect>)
        ensures
            (final(self)@, r.deep_view()) == copied(old(self)@),
    {
        match copy_bytes(&self.draft.cover_bytes) {
            Some(b) => just(Effect::CopyImage(b)),
            None => {
                self.say("No poster to copy.");
                nothing()
            },
        }
    }

    /// A picture was put on the clipboard, or could not be.
    pub fn image_copied(&mut self, worked: bool)
        ensures
            final(self)@ == said(
                old(self)@,
                if worked {
                    "Poster copied to clipboard."@
                } else {
                    "Failed to copy poster."@
                },
            ),
    {
        if worked {
            self.say("Poster copied to clipboard.");
        } else {
            self.say("Failed to copy poster.");
        }
    }

    /// Pastes a picture as the cover.
    pub fn paste_poster(&mut self) -> (r: Vec<Effect>)
        ensures
            (final(self)@, r.deep_view()) == pasting(old(self)@),
    {
        if self.locks.poster {
            self.say("Poster is locked.");
            return nothing();
        }
        just(Effect::ReadClipboard)
    }

    /// The clipboard held a picture, or none.
    pub fn image_read(&mut self, image: Option<Vec<u8>>)
        ensures
            final(self)@ == (match image {
                Some(b) => said(covered(old(self)@, b@), "Poster pasted."@),
                None => said(old(self)@, "No image on clipboard."@),
            }),
    {
        match image {
            Some(b) => {
                self.set_cover(b);
                self.say("Poster pasted.");
            },
            None => {
                self.say("No image on clipboard.");
            },
        }
    }

    /// Whether a picture that is dropped on the window becomes the cover: there is a file, and the
    /// poster is not locked.
    pub fn accepts_image(&self) -> (r: bool)
        ensures
            r == (self@.file is Some && !self@.locks.poster),
    {
        self.file.is_some() && !self.locks.poster
    }

    /// A picture was dropped on the window.
    pub fn image_dropped(&mut self, bytes: Vec<u8>)
        ensures
            final(self)@ == (if old(self)@.file is Some && !old(self)@.locks.poster {
                said(covered(old(self)@, bytes@), "Poster replaced from dropped image."@)
            } else {
                old(self)@
            }),
    {
        if self.accepts_image() {
            self.set_cover(bytes);
            self.say("Poster replaced from dropped image.");
        }
    }

    /// Where the poster of an index is to be had, if there is one.
    fn poster_url(&self, index: i32) -> (r: Option<String>)
        ensures
            r.deep_view() == poster_address(self@, index as int),
    {
        if index < 0 {
            return None;
        }
        match &self.meta {
            Some(m) => {
                assert(m.artwork.deep_view().len() == m.artwork@.len());
                if (index as u64) < m.artwork.len() as u64 {
                    let i: usize = index as usize;
                    assert(m.artwork.deep_view()[i as int] == m.artwork@[i as int].deep_view());
                    Some(m.artwork[i].url.clone())
                } else {
                    None
                }
            },
            None => None,
        }
    }

    /// Copies the poster of the grid that is selected.
    pub fn copy_grid_poster(&mut self) -> (r: Vec<Effect>)
        ensures
            (final(self)@, r.deep_view()) == grid_copied(old(self)@),
    {
        match self.poster_url(self.panel.selected_poster) {
            Some(url) => {
                self.say("Copying poster…");
                just(Effect::Send(Request::CopyPosterToClipboard { url }))
            },
            None => nothing(),
        }
    }

    /// Cuts where the focus is.
    pub fn do_cut(&mut self, at: ClipContext) -> (r: Vec<Effect>)
        ensures
            (final(self)@, r.deep_view()) == (if at.text_focused {
                (old(self)@, seq![EffectView::Shortcut('x')])
            } else if at.current_poster {
                cut(old(self)@)
            } else {
                (old(self)@, Seq::empty())
            }),
    {
        if at.text_focused {
            just(Effect::Shortcut('x'))
        } else if at.current_poster {
            self.cut_poster()
        } else {
            nothing()
        }
    }

    /// Copies where the focus is.
    pub fn do_copy(&mut self, at: ClipContext) -> (r: Vec<Effect>)
        ensures
            (final(self)@, r.deep_view()) == (if at.text_focused {
                (old(self)@, seq![EffectView::Shortcut('c')])
            } else if at.current_poster {
                copied(old(self)@)
            } else if at.grid_poster {
                grid_copied(old(self)@)
            } else {
                (old(self)@, Seq::empty())
            }),
    {
        if at.text_focused {
            just(Effect::Shortcut('c'))
        } else if at.current_poster {
            self.copy_poster()
        } else if at.grid_poster {
            self.copy_grid_poster()
        } else {
            nothing()
        }
    }

    /// Pastes where the focus is.
    pub fn do_paste(&mut self, at: ClipContext) -> (r: Vec<Effect>)
        ensures
            (final(self)@, r.deep_view()) == (if at.text_focused {
                (old(self)@, seq![EffectView::Shortcut('v')])
            } else if at.current_poster {
                pasting(old(self)@)
            } else {
                (old(self)@, Seq::empty())
            }),
    {
        if at.text_focused {
            just(Effect::Shortcut('v'))
        } else if at.current_poster {
            self.paste_poster()
        } else {
            nothing()
        }
    }

    /// The current cover was clicked: it is selected, or no longer, and no poster of the grid is.
    pub fn poster_clicked(&mut self)
        ensures
            final(self)@ == (EditorView {
                panel: PanelView {
                    poster_selected: !old(self)@.panel.poster_selected,
                    selected_poster: -1,
                    ..old(self)@.panel
                },
                ..old(self)@
            }),
    {
        self.panel.poster_selected = !self.panel.poster_selected;
        self.panel.selected_poster = -1;
    }

    /// A field got the focus: neither the cover nor a poster is selected any more.
    pub fn clear_poster_selection(&mut self)
        ensures
            final(self)@ == (EditorView {
                panel: PanelView {
                    poster_selected: false,
                    selected_poster: if old(self)@.panel.selected_poster >= 0 {
                        -1
                    } else {
                        old(self)@.panel.selected_poster
                    },
                    ..old(self)@.panel
                },
                ..old(self)@
            }),
    {
        self.panel.poster_selected = false;
        if self.panel.selected_poster >= 0 {
            self.panel.selected_poster = -1;
        }
    }

    /// A poster of the grid was clicked: it is to be the cover.
    pub fn poster_choice_clicked(&mut self, index: i32) -> (r: Vec<Effect>)
        ensures
            (final(self)@, r.deep_view()) == poster_picked(old(self)@, index as int),
    {
        if index < 0 || self.locks.poster {
            return nothing();
        }
        match self.poster_url(index) {
            Some(url) => {
                self.panel.selected_poster = index;
                self.panel.poster_selected = false;
                self.say("Setting poster…");
                just(Effect::Send(Request::SetCoverFromUrl { url }))
            },
            None => nothing(),
        }
    }

    /// Shows the current cover enlarged, where there is one.
    pub fn open_current_cover_lightbox(&mut self)
        ensures
            final(self)@ == (match old(self)@.cover {
                Some(p) => EditorView {
                    gallery: GalleryView {
                        lightbox: Some(Lightbox::CurrentCover),
                        picture: Some(p),
                        loaded: true,
                        ..old(self)@.gallery
                    },
                    ..old(self)@
                },
                None => old(self)@,
            }),
    {
        if let Some(p) = &self.cover {
            let copy = copy_image(p);
            self.gallery.lightbox = Some(Lightbox::CurrentCover);
            self.gallery.picture = Some(copy);
            self.gallery.loaded = true;
        }
    }

    /// Shows a poster of the grid enlarged, and asks for it where that has not been done.
    pub fn open_tmdb_lightbox(&mut self, index: i32) -> (r: Vec<Effect>)
        ensures
            ({
                let e = old(self)@;
                let g = enlarged(e.gallery, index as int);
                let url = poster_address(e, index as int);
                let ask = !g.loaded && !asked_for(g.full_requested, index as int) && url is Some;
                (final(self)@, r.deep_view()) == (if index < 0 {
                    (e, Seq::empty())
                } else if ask {
                    (
                        EditorView {
                            gallery: GalleryView {
                                full_requested: g.full_requested.update(index as int, true),
                                ..g
                            },
                            ..e
                        },
                        seq![
                            EffectView::Send(
                                RequestView::FetchFullImage {
                                    index: index as usize,
                                    url: url.unwrap(),
                                },
                            ),
                        ],
                    )
                } else {
                    (EditorView { gallery: g, ..e }, Seq::empty())
                })
            }),
    {
        if index < 0 {
            return nothing();
        }
        let url = self.poster_url(index);
        match self.gallery.open(index as usize, url) {
            Some(request) => just(Effect::Send(request)),
            None => nothing(),
        }
    }

    /// Nothing is to be shown enlarged any more.
    pub fn lightbox_close(&mut self)
        ensures
            final(self)@ == (EditorView {
                gallery: GalleryView { lightbox: None, ..old(self)@.gallery },
                ..old(self)@
            }),
    {
        self.gallery.lightbox = None;
    }

    /// Rows of the grid came into sight.
    pub fn poster_rows_visible(&mut self, first_row: i32, last_row: i32, columns: i32) -> (r: Vec<
        Effect,
    >)
        ensures
            ({
                let e = old(self)@;
                let art = artwork_of(e);
                let seen = e.gallery.thumb_requested;
                &&& r.deep_view() == seq![
                    EffectView::SendAll(row_requests(art, seen, first_row, last_row, columns)),
                ]
                &&& final(self)@ == (EditorView {
                    gallery: GalleryView {
                        thumb_requested: rows_requested(
                            seen,
                            first_row,
                            last_row,
                            columns,
                            art.len(),
                        ),
                        ..e.gallery
                    },
                    ..e
                })
            }),
    {
        let requests = match &self.meta {
            Some(m) => self.gallery.request_visible_thumbs(
                &m.artwork,
                first_row,
                last_row,
                columns,
            ),
            None => {
                let none: Vec<Request> = Vec::new();
                assert(none.deep_view() =~= Seq::<RequestView>::empty());
                none
            },
        };
        just(Effect::SendAll(requests))
    }
}

// ---------------------------------------------------------------------------
// Searching and writing
// ---------------------------------------------------------------------------

/// The line about a match: its title, and its year where it is known.
pub open spec fn match_line(r: SearchResultView) -> (Seq<char>, Seq<char>) {
    (
        r.title,
        match r.year {
            Some(y) => signed_decimal(y as int),
            None => ""@,
        },
    )
}

/// Editor and effects after a search was begun.
pub open spec fn searching(e: EditorView, credential: bool) -> (EditorView, Seq<EffectView>) {
    let query = trimmed(e.panel.search_query);
    if query.len() == 0 {
        (said(e, "Enter a title to search."@), Seq::empty())
    } else if !credential {
        (
            EditorView { dialogs: DialogsView { no_credential: true, ..e.dialogs }, ..e },
            Seq::empty(),
        )
    } else {
        (
            said(e, "Searching for “"@ + query + "”…"@),
            seq![EffectView::Send(RequestView::Search { query })],
        )
    }
}

/// Editor and effects after a match was chosen. While details are on their way, nothing else is.
pub open spec fn match_chosen(e: EditorView, index: int) -> (EditorView, Seq<EffectView>) {
    if e.loading || !(0 <= index < e.results.len()) {
        (e, Seq::empty())
    } else {
        match e.file {
            None => (e, Seq::empty()),
            Some(file) => (
                EditorView {
                    loading: true,
                    panel: PanelView {
                        selected_match: index,
                        status: "Loading details…"@,
                        ..e.panel
                    },
                    ..e
                },
                seq![
                    EffectView::Send(
                        RequestView::FetchDetails { id: e.results[index].id, file },
                    ),
                ],
            ),
        }
    }
}

/// Editor and effects after the tags are to be written. While a save is under way, no other begins.
pub open spec fn saving(e: EditorView) -> (EditorView, Seq<EffectView>) {
    if e.writing {
        (e, Seq::empty())
    } else {
        match (e.file, e.meta) {
            (Some(file), Some(meta)) => (
                said(EditorView { writing: true, ..e }, "Writing…"@),
                seq![
                    EffectView::Send(
                        RequestView::WriteTags {
                            file,
                            meta: collected(meta, e.draft.fields),
                            artwork_url: None,
                            cover_override: e.draft.cover_bytes,
                            fast_start: e.fast_start,
                        },
                    ),
                ],
            ),
            _ => (said(e, "Nothing to write."@), Seq::empty()),
        }
    }
}

impl Editor {
    /// The lines about the matches.
    pub fn matches(&self) -> (r: Vec<(String, String)>)
        ensures
            r.deep_view() == self@.results.map_values(|r: SearchResultView| match_line(r)),
    {
        let ghost all = self@.results.map_values(|r: SearchResultView| match_line(r));
        let mut out: Vec<(String, String)> = Vec::new();
        let mut i: usize = 0;
        while i < self.results.len()
            invariant
                i <= self.results@.len(),
                all == self@.results.map_values(|r: SearchResultView| match_line(r)),
                out.deep_view() == all.take(i as int),
            decreases self.results@.len() - i,
        {
            let ghost before = out.deep_view();
            let r = &self.results[i];
            assert(self.results.deep_view()[i as int] == r.deep_view());
            let year = match r.year {
                Some(y) => show_signed(y as i64),
                None => "".to_string(),
            };
            out.push((r.title.clone(), year));
            assert(out.deep_view() =~= before.push(all[i as int]));
            assert(all.take(i + 1) =~= all.take(i as int).push(all[i as int]));
            i += 1;
        }
        assert(all.take(all.len() as int) =~= all);
        out
    }

    /// Searches for what the search box holds.
    pub fn start_search(&mut self, credential: bool) -> (r: Vec<Effect>)
        ensures
            (final(self)@, r.deep_view()) == searching(old(self)@, credential),
    {
        let query = trim(self.panel.search_query.as_str());
        if query.as_str().is_empty() {
            self.say("Enter a title to search.");
            return nothing();
        }
        if !credential {
            self.dialogs.no_credential = true;
            return nothing();
        }
        self.panel.status = "Searching for “".to_string().concat(query.as_str()).concat("”…");
        just(Effect::Send(Request::Search { query }))
    }

    /// Chooses a match.
    pub fn select_match(&mut self, index: i32) -> (r: Vec<Effect>)
        ensures
            (final(self)@, r.deep_view()) == match_chosen(old(self)@, index as int),
    {
        assert(self.results.deep_view().len() == self.results@.len());
        if index < 0 || self.loading || index as u64 >= self.results.len() as u64 {
            return nothing();
        }
        let i: usize = index as usize;
        assert(self.results.deep_view()[i as int] == self.results@[i as int].deep_view());
        let file = match &self.file {
            Some(f) => f.clone(),
            None => return nothing(),
        };
        let id = self.results[i].id.copy();
        self.loading = true;
        self.panel.selected_match = index;
        self.say("Loading details…");
        just(Effect::Send(Request::FetchDetails { id, file }))
    }

    /// Writes the tags.
    pub fn write_tags(&mut self) -> (r: Vec<Effect>)
        ensures
            (final(self)@, r.deep_view()) == saving(old(self)@),
    {
        if self.writing {
            return nothing();
        }
        let (file, meta) = match (&self.file, &self.meta) {
            (Some(f), Some(m)) => (f.clone(), self.draft.fields.collect_edited(m)),
            _ => {
                self.say("Nothing to write.");
                return nothing();
            },
        };
        let cover_override = copy_bytes(&self.draft.cover_bytes);
        let fast_start = self.fast_start;
        self.writing = true;
        self.say("Writing…");
        just(
            Effect::Send(
                Request::WriteTags { file, meta, artwork_url: None, cover_override, fast_start },
            ),
        )
    }

    /// Opens a file that the system asks to open, where it is a movie and there.
    pub fn open_path(&mut self, path: String, file_name: &str, exists: bool) -> (r: Vec<Effect>)
        ensures
            (final(self)@, r.deep_view()) == (if names_movie(file_name@) && exists {
                (
                    said(old(self)@, "Opening file…"@),
                    seq![EffectView::Send(RequestView::OpenFile { path: path@ })],
                )
            } else {
                (old(self)@, Seq::empty())
            }),
    {
        if is_movie_path(file_name) && exists {
            self.say("Opening file…");
            just(Effect::Send(Request::OpenFile { path }))
        } else {
            nothing()
        }
    }

    /// Lets the user pick a file.
    pub fn open_file(&self) -> (r: Vec<Effect>)
        ensures
            r.deep_view() == seq![EffectView::Send(RequestView::PickFile)],
    {
        just(Effect::Send(Request::PickFile))
    }
}

// ---------------------------------------------------------------------------
// Dialogs
// ---------------------------------------------------------------------------

/// The editor with the dialogs changed.
pub open spec fn with_dialogs(e: EditorView, dialogs: DialogsView) -> EditorView {
    EditorView { dialogs, ..e }
}

/// The license dialog when it is opened: with what is saved.
pub open spec fn license_dialog(s: SettingsView) -> LicenseDialogView {
    let key = formatted_key(s.license_key);
    LicenseDialogView {
        shown: true,
        email: s.license_email,
        key,
        valid: valid_key(LICENSE_SALT@, key, s.license_email),
        message: ""@,
    }
}

/// The license dialog after its key was edited: the key is put into groups, and looked at.
pub open spec fn key_edited(d: LicenseDialogView) -> LicenseDialogView {
    let key = formatted_key(d.key);
    LicenseDialogView { key, valid: valid_key(LICENSE_SALT@, key, d.email), ..d }
}

/// The dialogs when the settings are opened: with what is saved. The theme is remembered.
pub open spec fn settings_opened(d: DialogsView, s: SettingsView) -> DialogsView {
    DialogsView {
        theme_dark: dark(s),
        settings: SettingsDialogView {
            shown: true,
            token: s.tmdb_bearer_token,
            theme_index: theme_place(dark(s)),
            theme_before: dark(s),
        },
        ..d
    }
}

/// The dialogs when the settings are cancelled: the theme is what it was when they were opened.
pub open spec fn settings_cancelled(d: DialogsView) -> DialogsView {
    DialogsView {
        theme_dark: d.settings.theme_before,
        settings: SettingsDialogView {
            shown: false,
            theme_index: theme_place(d.settings.theme_before),
            ..d.settings
        },
        ..d
    }
}

impl Editor {
    /// Opens the license dialog, with what is saved.
    pub fn open_license_dialog(&mut self)
        ensures
            final(self)@ == with_dialogs(
                old(self)@,
                (DialogsView {
                    license: license_dialog(old(self)@.settings),
                    ..old(self)@.dialogs
                }),
            ),
    {
        let email = self.settings.license_email.clone();
        let key = format_key(self.settings.license_key.as_str());
        let valid = is_valid(key.as_str(), email.as_str());
        self.dialogs.license = LicenseDialog {
            shown: true,
            email,
            key,
            valid,
            message: "".to_string(),
        };
    }

    /// The key in the license dialog was edited.
    pub fn license_key_edited(&mut self)
        ensures
            final(self)@ == with_dialogs(
                old(self)@,
                (DialogsView {
                    license: key_edited(old(self)@.dialogs.license),
                    ..old(self)@.dialogs
                }),
            ),
    {
        let key = format_key(self.dialogs.license.key.as_str());
        self.dialogs.license.valid = is_valid(
            key.as_str(),
            self.dialogs.license.email.as_str(),
        );
        self.dialogs.license.key = key;
    }

    /// Takes up the license that was entered, and has it stored.
    pub fn license_save(&mut self) -> (r: Vec<Effect>)
        ensures
            final(self)@ == (EditorView {
                settings: SettingsView {
                    license_email: trimmed(old(self)@.dialogs.license.email),
                    license_key: normalized_key(old(self)@.dialogs.license.key),
                    ..old(self)@.settings
                },
                ..old(self)@
            }),
            r.deep_view() == seq![EffectView::SaveSettings],
    {
        self.settings.license_email = trim(self.dialogs.license.email.as_str());
        self.settings.license_key = normalize_key(self.dialogs.license.key.as_str());
        just(Effect::SaveSettings)
    }

    /// The license was stored, or could not be. A valid one is thanked for, and nobody who has one
    /// is asked for one.
    pub fn license_saved(&mut self, error: Option<String>)
        ensures
            final(self)@ == ({
                let e = old(self)@;
                let valid = licensed(e.settings);
                match error {
                    None => said(
                        with_dialogs(
                            e,
                            DialogsView {
                                about_licensed: valid,
                                splash: e.dialogs.splash && !valid,
                                license: LicenseDialogView { shown: false, ..e.dialogs.license },
                                ..e.dialogs
                            },
                        ),
                        "License saved. Thank you!"@,
                    ),
                    Some(why) => with_dialogs(
                        e,
                        DialogsView {
                            license: LicenseDialogView {
                                message: "Couldn't save settings: "@ + why@,
                                ..e.dialogs.license
                            },
                            ..e.dialogs
                        },
                    ),
                }
            }),
    {
        match error {
            None => {
                self.dialogs.license.shown = false;
                self.say("License saved. Thank you!");
                let valid = self.settings.is_licensed();
                self.dialogs.about_licensed = valid;
                if valid {
                    self.dialogs.splash = false;
                }
            },
            Some(why) => {
                self.dialogs.license.message = "Couldn't save settings: ".to_string().concat(
                    why.as_str(),
                );
            },
        }
    }

    /// Closes the license dialog.
    pub fn license_cancel(&mut self)
        ensures
            final(self)@ == with_dialogs(
                old(self)@,
                (DialogsView {
                    license: LicenseDialogView { shown: false, ..old(self)@.dialogs.license },
                    ..old(self)@.dialogs
                }),
            ),
    {
        self.dialogs.license.shown = false;
    }

    /// Opens the settings, with what is saved.
    pub fn open_settings_dialog(&mut self)
        ensures
            final(self)@ == with_dialogs(
                old(self)@,
                settings_opened(old(self)@.dialogs, old(self)@.settings),
            ),
    {
        let dark = self.settings.theme_is_dark();
        self.dialogs.theme_dark = dark;
        self.dialogs.settings = SettingsDialog {
            shown: true,
            token: self.settings.tmdb_bearer_token.clone(),
            theme_index: if dark {
                1
            } else {
                0
            },
            theme_before: dark,
        };
    }

    /// Shows another theme at once: 0 is light, any other dark.
    pub fn theme_changed(&mut self, index: i32)
        ensures
            final(self)@ == with_dialogs(
                old(self)@,
                (DialogsView { theme_dark: index != 0, ..old(self)@.dialogs }),
            ),
    {
        self.dialogs.theme_dark = index != 0;
    }

    /// Closes the settings, and brings back the theme that was there when they were opened.
    pub fn settings_cancel(&mut self)
        ensures
            final(self)@ == with_dialogs(old(self)@, settings_cancelled(old(self)@.dialogs)),
    {
        let before = self.dialogs.settings.theme_before;
        self.dialogs.theme_dark = before;
        self.dialogs.settings.theme_index = if before {
            1
        } else {
            0
        };
        self.dialogs.settings.shown = false;
    }

    /// Takes up the settings that were entered, and has them stored.
    pub fn settings_save(&mut self) -> (r: Vec<Effect>)
        ensures
            final(self)@ == (EditorView {
                settings: SettingsView {
                    tmdb_bearer_token: trimmed(old(self)@.dialogs.settings.token),
                    theme: if old(self)@.dialogs.settings.theme_index != 0 {
                        "Dark"@
                    } else {
                        "Light"@
                    },
                    ..old(self)@.settings
                },
                ..old(self)@
            }),
            r.deep_view() == seq![EffectView::SaveSettings],
    {
        self.settings.tmdb_bearer_token = trim(self.dialogs.settings.token.as_str());
        self.settings.theme = if self.dialogs.settings.theme_index != 0 {
            "Dark".to_string()
        } else {
            "Light".to_string()
        };
        just(Effect::SaveSettings)
    }

    /// The settings were stored, or could not be. Either way the token is used from now on; an
    /// empty one leaves it to the environment.
    pub fn settings_saved(&mut self, error: Option<String>) -> (r: Vec<Effect>)
        ensures
            final(self)@ == said(
                with_dialogs(
                    old(self)@,
                    (DialogsView {
                        settings: SettingsDialogView {
                            shown: false,
                            ..old(self)@.dialogs.settings
                        },
                        ..old(self)@.dialogs
                    }),
                ),
                match error {
                    None => "TMDB token saved."@,
                    Some(why) => "Failed to save settings: "@ + why@,
                },
            ),
            r.deep_view() == seq![
                EffectView::Send(
                    RequestView::SetBearerToken { token: old(self)@.settings.tmdb_bearer_token },
                ),
            ],
    {
        match error {
            None => {
                self.say("TMDB token saved.");
            },
            Some(why) => {
                self.panel.status = "Failed to save settings: ".to_string().concat(why.as_str());
            },
        }
        self.dialogs.settings.shown = false;
        just(
            Effect::Send(
                Request::SetBearerToken { token: self.settings.tmdb_bearer_token.clone() },
            ),
        )
    }

    /// Closes what says that there is no credential.
    pub fn no_cred_ok(&mut self)
        ensures
            final(self)@ == with_dialogs(
                old(self)@,
                (DialogsView { no_credential: false, ..old(self)@.dialogs }),
            ),
    {
        self.dialogs.no_credential = false;
    }

    /// Goes from there to the settings.
    pub fn no_cred_open_settings(&mut self)
        ensures
            final(self)@ == with_dialogs(
                old(self)@,
                settings_opened(
                    (DialogsView { no_credential: false, ..old(self)@.dialogs }),
                    old(self)@.settings,
                ),
            ),
    {
        self.no_cred_ok();
        self.open_settings_dialog();
    }

    /// Says what the program is.
    pub fn open_about(&mut self)
        ensures
            final(self)@ == with_dialogs(
                old(self)@,
                (DialogsView { about: true, ..old(self)@.dialogs }),
            ),
    {
        self.dialogs.about = true;
    }

    /// Closes what says what the program is.
    pub fn about_ok(&mut self)
        ensures
            final(self)@ == with_dialogs(
                old(self)@,
                (DialogsView { about: false, ..old(self)@.dialogs }),
            ),
    {
        self.dialogs.about = false;
    }

    /// Closes what asks for a license: the user did, or it has been there for long enough.
    pub fn splash_dismiss(&mut self)
        ensures
            final(self)@ == with_dialogs(
                old(self)@,
                (DialogsView { splash: false, ..old(self)@.dialogs }),
            ),
    {
        self.dialogs.splash = false;
    }

    /// Closes what says that a save is complete. A user who is to be asked for a license is asked
    /// now.
    pub fn complete_ok(&mut self)
        ensures
            final(self)@ == ({
                let e = old(self)@;
                EditorView {
                    panel: PanelView { complete: None, ..e.panel },
                    dialogs: DialogsView {
                        splash: e.dialogs.splash || e.dialogs.splash_pending,
                        splash_pending: false,
                        ..e.dialogs
                    },
                    ..e
                }
            }),
    {
        self.panel.complete = None;
        if self.dialogs.splash_pending {
            self.dialogs.splash_pending = false;
            self.dialogs.splash = true;
        }
    }
}

// ---------------------------------------------------------------------------
// Laws
// ---------------------------------------------------------------------------

/// Nobody with a valid license is asked for one: not at the start, not after a save, and not once
/// the license has been stored.
pub proof fn law_license_stops_asking(e: EditorView, s: SettingsView, name: Seq<char>)
    ensures
        licensed(s) ==> !started(s).dialogs.splash && started(s).dialogs.about_licensed,
        !licensed(s) ==> started(s).dialogs.splash,
        licensed(e.settings) ==> !write_done(e, name).dialogs.splash_pending,
{
}

/// Someone without a license is asked for one after each tenth save, and after no other.
pub proof fn law_splash_comes_at_intervals(e: EditorView, name: Seq<char>)
    requires
        !licensed(e.settings),
        e.settings.tag_count < u64::MAX,
    ensures
        write_done(e, name).settings.tag_count == e.settings.tag_count + 1,
        write_done(e, name).dialogs.splash_pending <==> (e.settings.tag_count + 1)
            % SPLASH_INTERVAL as int == 0,
{
}

/// A file that was loaded and that nobody has touched is written with the metadata it was loaded
/// with, where the fields can hold it, and with its own cover and layout.
pub proof fn law_untouched_file_is_written_as_it_was(e: EditorView, event: EventView)
    requires
        event matches EventView::FileLoaded { meta, .. } && crate::form::fits_fields(meta),
        !e.writing,
    ensures
        event matches EventView::FileLoaded { file, meta, cover_bytes, fast_start, .. } && saving(
            after_event(e, event),
        ).1 == seq![
            EffectView::Send(
                RequestView::WriteTags {
                    file,
                    meta,
                    artwork_url: None,
                    cover_override: cover_bytes,
                    fast_start,
                },
            ),
        ],
{
    if let EventView::FileLoaded { meta, .. } = event {
        crate::form::law_unedited_metadata_is_kept(meta);
    }
}

/// Choosing another match leaves a locked poster alone, whatever is done to get another: the cover
/// stays until it is unlocked.
pub proof fn law_locked_poster_is_kept(e: EditorView, index: int, meta: MetadataView)
    requires
        e.locks.poster,
    ensures
        cut(e).0.draft == e.draft,
        pasting(e).0.draft == e.draft,
        pasting(e).1.len() == 0,
        poster_picked(e, index) == (e, Seq::<EffectView>::empty()),
        after_event(e, EventView::DetailsDone { meta }).draft.cover_bytes == e.draft.cover_bytes,
{
}

/// One save at a time, one fetch of details at a time.
pub proof fn law_one_at_a_time(e: EditorView, index: int)
    ensures
        e.writing ==> saving(e) == (e, Seq::<EffectView>::empty()),
        saving(e).1.len() > 0 ==> saving(e).0.writing,
        e.loading ==> match_chosen(e, index) == (e, Seq::<EffectView>::empty()),
        match_chosen(e, index).1.len() > 0 ==> match_chosen(e, index).0.loading,
{
}

/// Whatever happens, every state that can be returned to can be restored exactly.
pub proof fn law_editor_history_stays_sound(e: EditorView, event: EventView, bytes: Seq<u8>)
    requires
        sound(e.history),
    ensures
        sound(after_event(e, event).history),
        sound(field_edited(e).history),
        sound(stepped_back(e).history),
        sound(stepped_forward(e).history),
        sound(covered(e, bytes).history),
        sound(cut(e).0.history),
{
    law_history_stays_sound(e.history, e.draft, covered(e, bytes).draft);
    law_history_stays_sound(e.history, e.draft, cut(e).0.draft);
    match event {
        EventView::FileLoaded { meta, cover_size, cover_bytes, .. } => {
            let draft = DraftView { fields: fields_of(meta), cover_bytes, cover_size };
            law_history_stays_sound(e.history, draft, draft);
        },
        EventView::CoverSet { .. } => {
            law_history_stays_sound(e.history, e.draft, after_event(e, event).draft);
        },
        EventView::DetailsDone { meta } => {
            let draft = DraftView {
                fields: fields_after(e.draft.fields, meta, Some(e.locks)),
                ..e.draft
            };
            crate::history::law_snapshot_round_trip(draft, snap(draft));
        },
        _ => {},
    }
}

/// Whether `new` is a step apart from `e` and from typing that led to `later`: a step back from
/// there leads to `new`, and a further one to `e`.
pub open spec fn apart(e: EditorView, new: EditorView, later: DraftView) -> bool {
    let (h1, d1) = undone(typed(new.history), later);
    &&& new.history.committed == snap(new.draft)
    &&& snap(new.draft) != snap(later) ==> snap(d1) == snap(new.draft) && snap(undone(h1, d1).1)
        == snap(e.draft)
}

/// A new cover is a step of its own, whether it was chosen among the posters, pasted or dropped,
/// and so is a cover that was cut: typing that comes after it is undone first, alone.
pub proof fn law_new_cover_outlives_typing(
    e: EditorView,
    event: EventView,
    bytes: Seq<u8>,
    later: DraftView,
)
    requires
        sound(e.history),
    ensures
        event is CoverSet ==> apart(e, after_event(e, event), later),
        apart(e, covered(e, bytes), later),
        e.draft.cover_bytes is Some && !e.locks.poster ==> apart(e, cut(e).0, later),
{
    if snap(covered(e, bytes).draft) != snap(later) {
        law_change_is_one_step(e.history, e.draft, covered(e, bytes).draft, later);
    }
    if snap(cut(e).0.draft) != snap(later) {
        law_change_is_one_step(e.history, e.draft, cut(e).0.draft, later);
    }
    if event is CoverSet && snap(after_event(e, event).draft) != snap(later) {
        law_change_is_one_step(e.history, e.draft, after_event(e, event).draft, later);
    }
}

/// The history of a new editor is one of which every state can be restored exactly.
pub proof fn law_new_history_is_sound(s: SettingsView)
    ensures
        sound(started(s).history),
{
    crate::history::law_snapshot_round_trip(started(s).draft, no_snapshot());
}

/// Settings that are cancelled leave no trace, whatever themes were tried out meanwhile: the theme
/// is the one that is saved, and so is the place in the list.
pub proof fn law_cancelled_settings_leave_theme(d: DialogsView, s: SettingsView, tried: bool)
    ensures
        ({
            let open = DialogsView { theme_dark: tried, ..settings_opened(d, s) };
            &&& settings_cancelled(open).theme_dark == dark(s)
            &&& settings_cancelled(open).settings.theme_index == theme_place(dark(s))
            &&& !settings_cancelled(open).settings.shown
        }),
{
}

/// What is open stays open: only a file that was loaded changes which file is open, where its media
/// stand and what its picture measures, and no event touches the locks or what dialogs hold of
/// settings. The settings change by a save alone, and by no more than its count.
pub proof fn law_only_loading_changes_the_file(e: EditorView, event: EventView)
    ensures
        ({
            let r = after_event(e, event);
            &&& !(event is FileLoaded) ==> r.file == e.file && r.fast_start == e.fast_start
                && r.video_dimensions == e.video_dimensions
            &&& r.locks == e.locks
            &&& !(event is WriteDone) ==> r.settings == e.settings
            &&& r.settings.license_key == e.settings.license_key
            &&& r.settings.license_email == e.settings.license_email
            &&& r.settings.tmdb_bearer_token == e.settings.tmdb_bearer_token
            &&& r.settings.theme == e.settings.theme
            &&& r.settings.font_size == e.settings.font_size
            &&& r.dialogs.license == e.dialogs.license && r.dialogs.settings == e.dialogs.settings
            &&& r.dialogs.theme_dark == e.dialogs.theme_dark
        }),
{
}

/// What the user typed stays: only a file, details and a cover that arrive change the draft, and a
/// cover changes no field.
pub proof fn law_only_three_events_change_the_draft(e: EditorView, event: EventView)
    ensures
        ({
            let r = after_event(e, event);
            &&& !(event is FileLoaded || event is DetailsDone || event is CoverSet) ==> r.draft
                == e.draft && r.history == e.history && r.meta == e.meta && r.cover == e.cover
            &&& event is CoverSet ==> r.draft.fields == e.draft.fields && r.meta == e.meta
            &&& event is DetailsDone ==> r.draft.cover_bytes == e.draft.cover_bytes
                && r.draft.cover_size == e.draft.cover_size && r.cover == e.cover
            &&& !(event is FileLoaded || event is SearchDone) ==> r.results == e.results
        }),
{
}

/// A file that was loaded is shown as it is: its fields, its cover and its posters take the place
/// of what was there, nothing can be undone, no match is left, and nothing is selected.
pub proof fn law_loaded_file_replaces_everything(
    e: EditorView,
    file: Seq<char>,
    meta: MetadataView,
    query: Seq<char>,
    cover: Option<PixelsView>,
    cover_size: Option<(u32, u32)>,
    cover_bytes: Option<Seq<u8>>,
    video_dimensions: Option<(u32, u32)>,
    fast_start: bool,
)
    ensures
        ({
            let r = after_event(
                e,
                EventView::FileLoaded {
                    file,
                    meta,
                    suggested_query: query,
                    cover,
                    cover_size,
                    cover_bytes,
                    video_dimensions,
                    fast_start,
                },
            );
            &&& r.file == Some(file)
            &&& r.meta == Some(meta)
            &&& r.draft.fields == fields_of(meta)
            &&& r.draft.cover_bytes == cover_bytes && r.draft.cover_size == cover_size
            &&& r.cover == cover
            &&& r.results.len() == 0
            &&& r.history.undo.len() == 0 && r.history.redo.len() == 0 && r.history.pending is None
            &&& r.panel.search_query == query
            &&& r.panel.selected_match == -1 && r.panel.selected_poster == -1
            &&& !r.panel.poster_selected
            &&& !r.loading
            &&& r.video_dimensions == video_dimensions && r.fast_start == fast_start
            &&& r.gallery.posters.len() == meta.artwork.len()
            &&& r.writing == e.writing
        }),
{
}

/// Details that arrive fill the fields that are not locked, end the waiting, and bring their own
/// posters.
pub proof fn law_details_fill_open_fields(e: EditorView, meta: MetadataView)
    ensures
        ({
            let r = after_event(e, EventView::DetailsDone { meta });
            &&& r.draft.fields == fields_after(e.draft.fields, meta, Some(e.locks))
            &&& r.meta == Some(meta)
            &&& !r.loading
            &&& r.gallery.posters.len() == meta.artwork.len()
            &&& r.panel.status == "Details loaded. Edit fields and pick a poster."@
        }),
{
}

/// Matches that arrive take the place of those before, are counted, and none of them is chosen yet.
pub proof fn law_new_matches_are_counted(e: EditorView, results: Seq<SearchResultView>)
    ensures
        ({
            let r = after_event(e, EventView::SearchDone { results });
            &&& r.results == results
            &&& r.panel.selected_match == -1
            &&& r.panel.status == decimal(results.len()) + " match(es)."@
            &&& r == (EditorView { results, panel: r.panel, ..e })
        }),
{
}

/// A small picture that arrives goes to the poster that it was fetched for and to no other; one for
/// a poster that is no longer there changes nothing.
pub proof fn law_thumb_goes_to_its_poster(
    e: EditorView,
    index: usize,
    image: PixelsView,
    i: int,
)
    requires
        0 <= i < e.gallery.posters.len(),
    ensures
        ({
            let r = after_event(e, EventView::ThumbDone { index, image });
            &&& r.gallery.posters.len() == e.gallery.posters.len()
            &&& i == index ==> r.gallery.posters[i].image == Some(image)
            &&& i != index ==> r.gallery.posters[i] == e.gallery.posters[i]
            &&& r.gallery.posters[i].size == e.gallery.posters[i].size
            &&& index >= e.gallery.posters.len() ==> r == e
            &&& r == (EditorView { gallery: r.gallery, ..e })
        }),
{
}

/// A large picture that arrives is kept for its poster, and is shown only where that poster is the
/// one that is shown enlarged.
pub proof fn law_full_picture_is_shown_where_it_is_waited_for(
    e: EditorView,
    index: usize,
    image: PixelsView,
    i: int,
)
    requires
        0 <= i < e.gallery.full_images.len(),
    ensures
        ({
            let r = after_event(e, EventView::FullImageDone { index, image });
            let waited = e.gallery.lightbox == Some(Lightbox::Tmdb(index));
            &&& waited ==> r.gallery.picture == Some(image) && r.gallery.loaded
            &&& !waited ==> r.gallery.picture == e.gallery.picture && r.gallery.loaded
                == e.gallery.loaded
            &&& i == index ==> r.gallery.full_images[i] == Some(image)
            &&& i != index ==> r.gallery.full_images[i] == e.gallery.full_images[i]
            &&& r.gallery.lightbox == e.gallery.lightbox && r.gallery.posters == e.gallery.posters
        }),
{
}

/// A save that is over says which file it wrote and whether the media moved, and counts. One that
/// failed says why, and does not count. Either way nothing is being written any more.
pub proof fn law_save_ends_with_a_word(e: EditorView, name: Seq<char>, message: Seq<char>)
    ensures
        ({
            let r = after_event(e, EventView::WriteDone { file_name: name });
            &&& !r.writing && !r.write_is_shift && !r.panel.progress.shown
            &&& r.panel.status == "Saved: "@ + name
            &&& e.write_is_shift ==> r.panel.complete == Some(
                "“"@ + name + "” was "@ + "rewritten (media shifted)"@ + "."@,
            )
            &&& !e.write_is_shift ==> r.panel.complete == Some(
                "“"@ + name + "” was "@ + "updated in place"@ + "."@,
            )
            &&& r.draft == e.draft && r.file == e.file
            &&& e.settings.tag_count < u64::MAX ==> r.settings.tag_count == e.settings.tag_count + 1
        }),
        ({
            let r = after_event(e, EventView::Failed { message });
            &&& !r.writing && !r.loading && !r.panel.progress.shown
            &&& r.panel.status == "Error: "@ + message
            &&& r.panel.complete == e.panel.complete
            &&& r.settings == e.settings
            &&& r.draft == e.draft && r.file == e.file && r.meta == e.meta
        }),
{
}

/// Someone without a license is asked for one after every tenth save.
pub proof fn law_license_is_asked_for_every_ten_saves(e: EditorView, name: Seq<char>)
    requires
        e.settings.tag_count < u64::MAX,
    ensures
        licensed(e.settings) ==> !write_done(e, name).dialogs.splash_pending,
        !licensed(e.settings) ==> write_done(e, name).dialogs.splash_pending == ((
        e.settings.tag_count + 1) % 10 == 0),
{
}

/// The progress of a save is shown as it is reported. The caption keeps the last amount that had a
/// total.
pub proof fn law_progress_is_shown_as_reported(
    e: EditorView,
    phase: WritePhase,
    done: u64,
    total: u64,
)
    ensures
        ({
            let r = after_event(e, EventView::WriteProgress { phase, done, total });
            &&& r.panel.progress.phase == phase_label(phase)
            &&& r.panel.progress.done == done && r.panel.progress.total == total
            &&& total > 0 ==> r.panel.progress.caption == Some((done, total))
            &&& total == 0 ==> r.panel.progress.caption == e.panel.progress.caption
            &&& r.panel.progress.shown == e.panel.progress.shown
        }),
        ({
            let r = after_event(e, EventView::WriteStarted);
            &&& r.write_is_shift
            &&& r.panel.progress.shown && r.panel.progress.phase == "Copying"@
            &&& r.panel.progress.done == 0 && r.panel.progress.total == 0
            &&& r.panel.progress.caption is None
        }),
{
}

/// Cutting takes the cover out of the draft and hands its bytes to the clipboard; copying leaves it
/// where it is. Without a cover neither hands anything over.
pub proof fn law_cutting_moves_the_cover(e: EditorView)
    ensures
        e.draft.cover_bytes is None ==> cut(e).1.len() == 0 && copied(e).1.len() == 0 && cut(
            e,
        ).0.draft == e.draft && copied(e).0.draft == e.draft,
        e.draft.cover_bytes matches Some(b) ==> {
            &&& copied(e) == (e, seq![EffectView::CopyImage(b)])
            &&& !e.locks.poster ==> {
                &&& cut(e).0.draft.cover_bytes is None && cut(e).0.draft.cover_size is None
                &&& cut(e).0.cover is None
                &&& cut(e).0.draft.fields == e.draft.fields
                &&& cut(e).1 == seq![EffectView::CopyImageQuietly(b)]
            }
            &&& e.locks.poster ==> cut(e).1.len() == 0 && cut(e).0.draft == e.draft
        },
        !e.locks.poster ==> pasting(e) == (e, seq![EffectView::ReadClipboard]),
{
}

/// A poster that is picked or copied is the one at its place, under its own address; a place
/// without a poster asks for nothing.
pub proof fn law_picked_poster_is_the_one_at_its_place(e: EditorView, m: MetadataView, index: int)
    requires
        e.meta == Some(m),
    ensures
        0 <= index < m.artwork.len() && !e.locks.poster ==> {
            &&& poster_picked(e, index).1 == seq![
                EffectView::Send(RequestView::SetCoverFromUrl { url: m.artwork[index].url }),
            ]
            &&& poster_picked(e, index).0.panel.selected_poster == index
            &&& !poster_picked(e, index).0.panel.poster_selected
            &&& poster_picked(e, index).0.draft == e.draft
        },
        !(0 <= index < m.artwork.len()) ==> poster_picked(e, index) == (
            e,
            Seq::<EffectView>::empty(),
        ),
        0 <= e.panel.selected_poster < m.artwork.len() ==> grid_copied(e).1 == seq![
            EffectView::Send(
                RequestView::CopyPosterToClipboard {
                    url: m.artwork[e.panel.selected_poster].url,
                },
            ),
        ],
        !(0 <= e.panel.selected_poster < m.artwork.len()) ==> grid_copied(e).1.len() == 0,
{
}

/// A search asks for the text without the white space around it. A blank text asks for nothing, and
/// without a credential the user is told so instead.
pub proof fn law_search_asks_for_the_trimmed_text(e: EditorView, credential: bool)
    ensures
        ({
            let text = e.panel.search_query;
            let (r, effects) = searching(e, credential);
            &&& !has_solid(text) ==> effects.len() == 0 && r.panel.status
                == "Enter a title to search."@ && r.dialogs == e.dialogs
            &&& has_solid(text) && !credential ==> effects.len() == 0 && r.dialogs.no_credential
            &&& has_solid(text) && credential ==> effects == seq![
                EffectView::Send(RequestView::Search { query: trimmed(text) }),
            ] && r.dialogs == e.dialogs
            &&& r.draft == e.draft && r.results == e.results
        }),
{
    law_trim_cuts_white_space_only(e.panel.search_query);
}

/// The match that is chosen is the one whose details are asked for, by its own id and for the file
/// that is open.
pub proof fn law_chosen_match_is_the_one_fetched(e: EditorView, index: int)
    ensures
        !e.loading && 0 <= index < e.results.len() && e.file is Some ==> {
            &&& match_chosen(e, index).1 == seq![
                EffectView::Send(
                    RequestView::FetchDetails { id: e.results[index].id, file: e.file.unwrap() },
                ),
            ]
            &&& match_chosen(e, index).0.panel.selected_match == index
            &&& match_chosen(e, index).0.loading
            &&& match_chosen(e, index).0.draft == e.draft
        },
        e.file is None || !(0 <= index < e.results.len()) ==> match_chosen(e, index) == (
            e,
            Seq::<EffectView>::empty(),
        ),
{
}

/// A save writes what the fields say to the file that is open, with the cover of the draft and the
/// order of the media that is chosen. Without a file there is nothing to write.
pub proof fn law_save_writes_what_is_shown(e: EditorView)
    ensures
        !e.writing && e.file is Some && e.meta is Some ==> {
            &&& saving(e).1 == seq![
                EffectView::Send(
                    RequestView::WriteTags {
                        file: e.file.unwrap(),
                        meta: collected(e.meta.unwrap(), e.draft.fields),
                        artwork_url: None,
                        cover_override: e.draft.cover_bytes,
                        fast_start: e.fast_start,
                    },
                ),
            ]
            &&& saving(e).0.writing
            &&& saving(e).0.draft == e.draft
        },
        !e.writing && (e.file is None || e.meta is None) ==> saving(e).1.len() == 0 && saving(
            e,
        ).0.panel.status == "Nothing to write."@,
{
}

/// What arrives is acted on once: a file and details ask for the first two rows of four posters, a
/// picture for the clipboard is put there, a save stores the settings, and nothing else does
/// anything outside.
pub proof fn law_events_have_few_effects(event: EventView)
    ensures
        event matches EventView::CopyToClipboard { bytes } ==> event_effects(event) == seq![
            EffectView::CopyImage(bytes),
        ],
        event is WriteDone ==> event_effects(event) == seq![EffectView::SaveSettings],
        event matches EventView::FileLoaded { meta, .. } ==> event_effects(event) == seq![
            EffectView::SendAll(
                row_requests(
                    meta.artwork,
                    Seq::new(meta.artwork.len(), |i: int| false),
                    0,
                    1,
                    4,
                ),
            ),
        ],
        event matches EventView::DetailsDone { meta } ==> event_effects(event) == seq![
            EffectView::SendAll(
                row_requests(
                    meta.artwork,
                    Seq::new(meta.artwork.len(), |i: int| false),
                    0,
                    1,
                    4,
                ),
            ),
        ],
        !(event is CopyToClipboard || event is WriteDone || event is FileLoaded
            || event is DetailsDone) ==> event_effects(event).len() == 0,
{
}

/// The short description is cut to 255 characters while it is typed; the other fields stay as they
/// are typed, and typing takes the selection off the cover.
pub proof fn law_typed_summary_is_cut(e: EditorView)
    ensures
        ({
            let r = field_edited(e);
            let typed = e.draft.fields.summary;
            &&& r.draft.fields.summary == typed.take(
                if typed.len() < 255 {
                    typed.len() as int
                } else {
                    255
                },
            )
            &&& r.draft.fields == (FieldsView {
                summary: r.draft.fields.summary,
                ..e.draft.fields
            })
            &&& r.draft.cover_bytes == e.draft.cover_bytes
            &&& !r.panel.poster_selected
        }),
{
    let typed = e.draft.fields.summary;
    assert(typed.take(typed.len() as int) =~= typed);
}

/// A match is shown by its title and its year, where it has one.
pub proof fn law_match_is_shown_by_title_and_year(r: SearchResultView)
    ensures
        match_line(r).0 == r.title,
        r.year matches Some(y) ==> match_line(r).1 == signed_decimal(y as int),
        r.year is None ==> match_line(r).1.len() == 0,
{
    reveal_strlit("");
}

/// A new cover is the one that was given, with its own size; the fields stay as they are.
pub proof fn law_new_cover_is_the_given_one(
    e: EditorView,
    image: PixelsView,
    orig_size: (u32, u32),
    bytes: Seq<u8>,
)
    ensures
        covered(e, bytes).draft.cover_bytes == Some(bytes),
        covered(e, bytes).draft.cover_size == picture_size(bytes),
        covered(e, bytes).draft.fields == e.draft.fields,
        scaled_picture(bytes, 1000) is Some ==> covered(e, bytes).cover == scaled_picture(
            bytes,
            1000,
        ),
        ({
            let r = after_event(e, EventView::CoverSet { image, orig_size, bytes });
            &&& r.draft.cover_bytes == Some(bytes)
            &&& r.draft.cover_size == Some(orig_size)
            &&& r.cover == Some(image)
            &&& r.panel.status == "Poster set as current."@
        }),
{
}

/// Undoing says so, and so does redoing, where there is something to undo or redo; the cover that
/// is shown is that of the draft.
pub proof fn law_stepping_shows_the_draft(e: EditorView)
    ensures
        e.history.pending is None && e.history.undo.len() > 0 ==> {
            &&& stepped_back(e).panel.status == "Undo."@
            &&& stepped_back(e).draft == undone(e.history, e.draft).1
            &&& stepped_back(e).draft.cover_bytes is None ==> stepped_back(e).cover is None
        },
        e.history.pending is None && e.history.undo.len() == 0 ==> stepped_back(e) == e,
        e.history.pending is None && e.history.redo.len() > 0 ==> {
            &&& stepped_forward(e).panel.status == "Redo."@
            &&& stepped_forward(e).draft == redone(e.history, e.draft).1
            &&& stepped_forward(e).draft.cover_bytes is None ==> stepped_forward(e).cover is None
        },
        e.history.pending is None && e.history.redo.len() == 0 ==> stepped_forward(e) == e,
{
    let over = HistoryView { pending: None, ..e.history };
    assert(e.history.pending is None ==> over == e.history);
}

/// The license dialog shows the stored license as it is entered, and a key is valid in it exactly
/// where it belongs to the address.
pub proof fn law_license_dialog_judges_the_key(s: SettingsView, d: LicenseDialogView)
    ensures
        license_dialog(s).shown && license_dialog(s).email == s.license_email,
        license_dialog(s).key == formatted_key(s.license_key),
        license_dialog(s).message.len() == 0,
        license_dialog(s).valid == valid_key(
            LICENSE_SALT@,
            formatted_key(s.license_key),
            s.license_email,
        ),
        key_edited(d).key == formatted_key(d.key),
        key_edited(d).valid == valid_key(LICENSE_SALT@, formatted_key(d.key), d.email),
        key_edited(d).email == d.email && key_edited(d).shown == d.shown,
{
    reveal_strlit("");
}

/// The settings dialog opens with the settings as they are stored.
pub proof fn law_settings_dialog_shows_what_is_stored(d: DialogsView, s: SettingsView)
    ensures
        ({
            let r = settings_opened(d, s);
            &&& r.settings.shown
            &&& r.settings.token == s.tmdb_bearer_token
            &&& r.settings.theme_index == (if ascii_lowered(s.theme) == ascii_lowered("Light"@) {
                0int
            } else {
                1int
            })
            &&& r.settings.theme_before == r.theme_dark
            &&& r.license == d.license && r.about == d.about && r.splash == d.splash
        }),
        settings_cancelled(d).settings.token == d.settings.token,
        settings_cancelled(d).license == d.license,
{
}

/// An editor that was just started has no file and nothing in it, nothing is locked, and its theme
/// is the one that is stored.
pub proof fn law_new_editor_is_empty(s: SettingsView)
    ensures
        ({
            let e = started(s);
            &&& e.file is None && e.meta is None && e.results.len() == 0
            &&& !e.loading && !e.writing && !e.write_is_shift && !e.fast_start
            &&& e.draft.fields == crate::form::blank_fields()
            &&& e.draft.cover_bytes is None && e.draft.cover_size is None && e.cover is None
            &&& e.gallery.posters.len() == 0 && e.gallery.lightbox is None
            &&& e.history.undo.len() == 0 && e.history.redo.len() == 0
            &&& e.panel.selected_match == -1 && e.panel.selected_poster == -1
            &&& e.panel.complete is None && !e.panel.progress.shown
            &&& !e.locks.title && !e.locks.year && !e.locks.poster && !e.locks.summary
            &&& e.settings == s
            &&& e.dialogs.theme_dark == (ascii_lowered(s.theme) != ascii_lowered("Light"@))
            &&& !e.dialogs.about && !e.dialogs.license.shown && !e.dialogs.settings.shown
        }),
{
}

} // verus!
