//! Undo and redo: snapshots of what the user can edit, and the stacks they are kept on.

use crate::form::{
    blank_fields, definition_at, definition_place, definition_to_index, index_to_definition,
    index_to_video_kind, kind_at, kind_place, law_menu_round_trip, video_kind_to_index, Fields,
    FieldsView,
};
use crate::model::{Definition, VideoKind};
use crate::rating::{
    index_to_rating, law_rating_index_round_trip, rating_at, rating_menu, rating_place,
    rating_to_index,
};
use crate::text::str_eq;
use crate::worker::bytes_of;
use vstd::prelude::*;

verus! {

// ---------------------------------------------------------------------------
// Drafts and snapshots
// ---------------------------------------------------------------------------

/// What the user can edit: the fields and the cover, as the file would hold it.
#[derive(Debug)]
pub struct Draft {
    pub fields: Fields,
    pub cover_bytes: Option<Vec<u8>>,
    pub cover_size: Option<(u32, u32)>,
}

/// What the user can edit, in mathematical terms.
pub struct DraftView {
    pub fields: FieldsView,
    pub cover_bytes: Option<Seq<u8>>,
    pub cover_size: Option<(u32, u32)>,
}

impl View for Draft {
    type V = DraftView;

    open spec fn view(&self) -> DraftView {
        DraftView {
            fields: self.fields@,
            cover_bytes: bytes_of(self.cover_bytes),
            cover_size: self.cover_size,
        }
    }
}

/// A state of the draft to which the user can return.
#[derive(Debug)]
pub struct Snapshot {
    pub title: String,
    pub year: String,
    pub video_kind: Option<VideoKind>,
    pub definition: Option<Definition>,
    pub rating: String,
    pub summary: String,
    pub overview: String,
    pub genres: String,
    pub cast: String,
    pub directors: String,
    pub producers: String,
    pub writers: String,
    pub studio: String,
    pub cover_bytes: Option<Vec<u8>>,
    pub cover_size: Option<(u32, u32)>,
}

/// A state of the draft, in mathematical terms.
pub struct SnapshotView {
    pub title: Seq<char>,
    pub year: Seq<char>,
    pub video_kind: Option<VideoKind>,
    pub definition: Option<Definition>,
    pub rating: Seq<char>,
    pub summary: Seq<char>,
    pub overview: Seq<char>,
    pub genres: Seq<char>,
    pub cast: Seq<char>,
    pub directors: Seq<char>,
    pub producers: Seq<char>,
    pub writers: Seq<char>,
    pub studio: Seq<char>,
    pub cover_bytes: Option<Seq<u8>>,
    pub cover_size: Option<(u32, u32)>,
}

impl DeepView for Snapshot {
    type V = SnapshotView;

    open spec fn deep_view(&self) -> SnapshotView {
        SnapshotView {
            title: self.title@,
            year: self.year@,
            video_kind: self.video_kind,
            definition: self.definition,
            rating: self.rating@,
            summary: self.summary@,
            overview: self.overview@,
            genres: self.genres@,
            cast: self.cast@,
            directors: self.directors@,
            producers: self.producers@,
            writers: self.writers@,
            studio: self.studio@,
            cover_bytes: bytes_of(self.cover_bytes),
            cover_size: self.cover_size,
        }
    }
}

/// The snapshot of a draft.
pub open spec fn snap(d: DraftView) -> SnapshotView {
    SnapshotView {
        title: d.fields.title,
        year: d.fields.year,
        video_kind: kind_at(d.fields.video_kind_index),
        definition: definition_at(d.fields.definition_index),
        rating: rating_at(d.fields.rating_index),
        summary: d.fields.summary,
        overview: d.fields.overview,
        genres: d.fields.genres,
        cast: d.fields.cast,
        directors: d.fields.directors,
        producers: d.fields.producers,
        writers: d.fields.writers,
        studio: d.fields.studio,
        cover_bytes: d.cover_bytes,
        cover_size: d.cover_size,
    }
}

/// The draft that a snapshot restores.
pub open spec fn restored(s: SnapshotView) -> DraftView {
    DraftView {
        fields: FieldsView {
            title: s.title,
            year: s.year,
            video_kind_index: kind_place(s.video_kind),
            definition_index: definition_place(s.definition),
            rating_index: rating_place(s.rating),
            summary: s.summary,
            overview: s.overview,
            genres: s.genres,
            cast: s.cast,
            directors: s.directors,
            producers: s.producers,
            writers: s.writers,
            studio: s.studio,
        },
        cover_bytes: s.cover_bytes,
        cover_size: s.cover_size,
    }
}

/// A copy of optional bytes.
pub fn copy_bytes(b: &Option<Vec<u8>>) -> (r: Option<Vec<u8>>)
    ensures
        bytes_of(r) == bytes_of(*b),
{
    match b {
        Some(v) => {
            let mut out: Vec<u8> = Vec::new();
            out.extend_from_slice(v.as_slice());
            assert(out@ =~= v@);
            Some(out)
        },
        None => None,
    }
}

/// Whether two lists of bytes are equal.
fn same_bytes(a: &Vec<u8>, b: &Vec<u8>) -> (r: bool)
    ensures
        r == (a@ == b@),
{
    if a.len() != b.len() {
        return false;
    }
    let mut i: usize = 0;
    while i < a.len()
        invariant
            i <= a@.len(),
            a@.len() == b@.len(),
            forall|k: int| 0 <= k < i ==> a@[k] == b@[k],
        decreases a@.len() - i,
    {
        if a[i] != b[i] {
            assert(a@[i as int] != b@[i as int]);
            return false;
        }
        i += 1;
    }
    assert(a@ =~= b@);
    true
}

/// Whether two covers are equal.
fn same_cover(a: &Option<Vec<u8>>, b: &Option<Vec<u8>>) -> (r: bool)
    ensures
        r == (bytes_of(*a) == bytes_of(*b)),
{
    match (a, b) {
        (Some(x), Some(y)) => same_bytes(x, y),
        (None, None) => true,
        _ => false,
    }
}

/// Whether two kinds of video are equal.
fn same_kind(a: Option<VideoKind>, b: Option<VideoKind>) -> (r: bool)
    ensures
        r == (a == b),
{
    match (a, b) {
        (Some(x), Some(y)) => x == y,
        (None, None) => true,
        _ => false,
    }
}

/// Whether two definitions are equal.
fn same_definition(a: Option<Definition>, b: Option<Definition>) -> (r: bool)
    ensures
        r == (a == b),
{
    match (a, b) {
        (Some(x), Some(y)) => x == y,
        (None, None) => true,
        _ => false,
    }
}

/// Whether two sizes are equal.
fn same_size(a: Option<(u32, u32)>, b: Option<(u32, u32)>) -> (r: bool)
    ensures
        r == (a == b),
{
    match (a, b) {
        (Some((w, h)), Some((x, y))) => w == x && h == y,
        (None, None) => true,
        _ => false,
    }
}

/// The snapshot of a draft that holds nothing.
pub open spec fn no_snapshot() -> SnapshotView {
    snap(DraftView { fields: blank_fields(), cover_bytes: None, cover_size: None })
}

impl Snapshot {
    /// The snapshot of a draft that holds nothing.
    pub fn empty() -> (r: Snapshot)
        ensures
            r.deep_view() == no_snapshot(),
    {
        let d = Draft { fields: Fields::blank(), cover_bytes: None, cover_size: None };
        d.snapshot()
    }

    /// A copy.
    pub fn copy(&self) -> (r: Snapshot)
        ensures
            r.deep_view() == self.deep_view(),
    {
        Snapshot {
            title: self.title.clone(),
            year: self.year.clone(),
            video_kind: self.video_kind,
            definition: self.definition,
            rating: self.rating.clone(),
            summary: self.summary.clone(),
            overview: self.overview.clone(),
            genres: self.genres.clone(),
            cast: self.cast.clone(),
            directors: self.directors.clone(),
            producers: self.producers.clone(),
            writers: self.writers.clone(),
            studio: self.studio.clone(),
            cover_bytes: copy_bytes(&self.cover_bytes),
            cover_size: self.cover_size,
        }
    }

    /// Whether two snapshots are equal.
    pub fn same(&self, other: &Snapshot) -> (r: bool)
        ensures
            r == (self.deep_view() == other.deep_view()),
    {
        str_eq(self.title.as_str(), other.title.as_str()) && str_eq(
            self.year.as_str(),
            other.year.as_str(),
        ) && same_kind(self.video_kind, other.video_kind) && same_definition(
            self.definition,
            other.definition,
        ) && str_eq(self.rating.as_str(), other.rating.as_str()) && str_eq(
            self.summary.as_str(),
            other.summary.as_str(),
        ) && str_eq(self.overview.as_str(), other.overview.as_str()) && str_eq(
            self.genres.as_str(),
            other.genres.as_str(),
        ) && str_eq(self.cast.as_str(), other.cast.as_str()) && str_eq(
            self.directors.as_str(),
            other.directors.as_str(),
        ) && str_eq(self.producers.as_str(), other.producers.as_str()) && str_eq(
            self.writers.as_str(),
            other.writers.as_str(),
        ) && str_eq(self.studio.as_str(), other.studio.as_str()) && same_cover(
            &self.cover_bytes,
            &other.cover_bytes,
        ) && same_size(self.cover_size, other.cover_size)
    }
}

impl Draft {
    /// The snapshot of the draft.
    pub fn snapshot(&self) -> (r: Snapshot)
        ensures
            r.deep_view() == snap(self@),
    {
        Snapshot {
            title: self.fields.title.clone(),
            year: self.fields.year.clone(),
            video_kind: index_to_video_kind(self.fields.video_kind_index),
            definition: index_to_definition(self.fields.definition_index),
            rating: index_to_rating(self.fields.rating_index),
            summary: self.fields.summary.clone(),
            overview: self.fields.overview.clone(),
            genres: self.fields.genres.clone(),
            cast: self.fields.cast.clone(),
            directors: self.fields.directors.clone(),
            producers: self.fields.producers.clone(),
            writers: self.fields.writers.clone(),
            studio: self.fields.studio.clone(),
            cover_bytes: copy_bytes(&self.cover_bytes),
            cover_size: self.cover_size,
        }
    }

    /// Brings the draft back to a snapshot.
    pub fn apply_snapshot(&mut self, s: Snapshot)
        ensures
            final(self)@ == restored(s.deep_view()),
    {
        let rating_index: i32 = rating_to_index(s.rating.as_str());
        self.fields = Fields {
            title: s.title,
            year: s.year,
            video_kind_index: video_kind_to_index(s.video_kind),
            definition_index: definition_to_index(s.definition),
            rating_index,
            summary: s.summary,
            overview: s.overview,
            genres: s.genres,
            cast: s.cast,
            directors: s.directors,
            producers: s.producers,
            writers: s.writers,
            studio: s.studio,
        };
        self.cover_bytes = s.cover_bytes;
        self.cover_size = s.cover_size;
    }
}

/// Whether a snapshot is one that can be taken: its rating is one of the menu, or none.
pub open spec fn proper(s: SnapshotView) -> bool {
    rating_at(rating_place(s.rating)) == s.rating
}

/// Every snapshot that is taken can be restored exactly.
pub proof fn law_snapshot_round_trip(d: DraftView, s: SnapshotView)
    ensures
        proper(snap(d)),
        proper(s) ==> snap(restored(s)) == s,
{
    law_menu_round_trip(s.video_kind, s.definition, 0);
    let i = d.fields.rating_index;
    law_rating_index_round_trip(i, Seq::empty());
    if !(1 <= i < rating_menu().len()) {
        let none = Seq::<char>::empty();
        assert(rating_at(i) == none);
        assert(crate::text::trimmed(none) == none);
        assert(rating_place(none) == 0);
        assert(rating_at(0) == none);
    }
}

// ---------------------------------------------------------------------------
// The stacks
// ---------------------------------------------------------------------------

/// The states that can be returned to.
#[derive(Debug)]
pub struct History {
    /// The states to go back to, the last one first.
    pub undo: Vec<Snapshot>,
    /// The states to go forward to again, the last one first.
    pub redo: Vec<Snapshot>,
    /// The state in which a run of keystrokes began.
    pub pending: Option<Snapshot>,
    /// The last state that was settled.
    pub committed: Snapshot,
}

/// The states that can be returned to, in mathematical terms.
pub struct HistoryView {
    pub undo: Seq<SnapshotView>,
    pub redo: Seq<SnapshotView>,
    pub pending: Option<SnapshotView>,
    pub committed: SnapshotView,
}

impl View for History {
    type V = HistoryView;

    open spec fn view(&self) -> HistoryView {
        HistoryView {
            undo: self.undo.deep_view(),
            redo: self.redo.deep_view(),
            pending: self.pending.deep_view(),
            committed: self.committed.deep_view(),
        }
    }
}

/// Whether every state can be restored exactly.
pub open spec fn sound(h: HistoryView) -> bool {
    &&& forall|i: int| 0 <= i < h.undo.len() ==> proper(#[trigger] h.undo[i])
    &&& forall|i: int| 0 <= i < h.redo.len() ==> proper(#[trigger] h.redo[i])
    &&& h.pending matches Some(s) ==> proper(s)
    &&& proper(h.committed)
}

/// A new state to go back to; there is nothing to go forward to any more.
pub open spec fn pushed(h: HistoryView, before: SnapshotView, now: SnapshotView) -> HistoryView {
    HistoryView {
        undo: h.undo.push(before),
        redo: Seq::empty(),
        pending: h.pending,
        committed: now,
    }
}

/// A run of keystrokes is over: the state in which it began is one to go back to, where the draft
/// has changed since.
pub open spec fn settled(h: HistoryView, d: DraftView) -> HistoryView {
    let over = HistoryView { pending: None, ..h };
    match h.pending {
        Some(before) => if before != snap(d) {
            pushed(over, before, snap(d))
        } else {
            over
        },
        None => over,
    }
}

/// The history when a keystroke came: the first of a run remembers the last settled state.
pub open spec fn typed(h: HistoryView) -> HistoryView {
    match h.pending {
        Some(_) => h,
        None => HistoryView { pending: Some(h.committed), ..h },
    }
}

/// The history when a choice was made that is settled at once.
pub open spec fn chosen(h: HistoryView, d: DraftView) -> HistoryView {
    let now = settled(h, d);
    if now.committed != snap(d) {
        pushed(now, now.committed, snap(d))
    } else {
        now
    }
}

/// The history when the draft is changed as a whole: the state before is one to go back to, and
/// the state after is settled.
pub open spec fn replaced(h: HistoryView, before: DraftView, after: DraftView) -> HistoryView {
    pushed(settled(h, before), snap(before), snap(after))
}

/// Draft and history after a step back.
pub open spec fn undone(h: HistoryView, d: DraftView) -> (HistoryView, DraftView) {
    let now = settled(h, d);
    if now.undo.len() == 0 {
        (now, d)
    } else {
        let back = restored(now.undo.last());
        (
            HistoryView {
                undo: now.undo.drop_last(),
                redo: now.redo.push(snap(d)),
                pending: now.pending,
                committed: snap(back),
            },
            back,
        )
    }
}

/// Draft and history after a step forward.
pub open spec fn redone(h: HistoryView, d: DraftView) -> (HistoryView, DraftView) {
    let now = settled(h, d);
    if now.redo.len() == 0 {
        (now, d)
    } else {
        let ahead = restored(now.redo.last());
        (
            HistoryView {
                undo: now.undo.push(snap(d)),
                redo: now.redo.drop_last(),
                pending: now.pending,
                committed: snap(ahead),
            },
            ahead,
        )
    }
}

/// The history of a draft that nothing was done to.
pub open spec fn fresh(d: DraftView) -> HistoryView {
    HistoryView { undo: Seq::empty(), redo: Seq::empty(), pending: None, committed: snap(d) }
}

impl History {
    /// The history before there is anything to edit.
    pub fn empty() -> (r: History)
        ensures
            r@ == (HistoryView {
                undo: Seq::empty(),
                redo: Seq::empty(),
                pending: None,
                committed: no_snapshot(),
            }),
    {
        let r = History {
            undo: Vec::new(),
            redo: Vec::new(),
            pending: None,
            committed: Snapshot::empty(),
        };
        assert(r.undo.deep_view() =~= Seq::<SnapshotView>::empty());
        assert(r.redo.deep_view() =~= Seq::<SnapshotView>::empty());
        r
    }

    /// Forgets every state.
    pub fn clear(&mut self)
        ensures
            final(self)@ == (HistoryView {
                undo: Seq::empty(),
                redo: Seq::empty(),
                pending: None,
                committed: old(self)@.committed,
            }),
    {
        self.undo = Vec::new();
        self.redo = Vec::new();
        self.pending = None;
        assert(self.undo.deep_view() =~= Seq::<SnapshotView>::empty());
        assert(self.redo.deep_view() =~= Seq::<SnapshotView>::empty());
    }

    /// Whether there is a state to go back to.
    pub fn can_undo(&self) -> (r: bool)
        ensures
            r == (self@.undo.len() > 0 || self@.pending is Some),
    {
        self.undo.len() > 0 || self.pending.is_some()
    }

    /// Whether there is a state to go forward to.
    pub fn can_redo(&self) -> (r: bool)
        ensures
            r == (self@.redo.len() > 0),
    {
        self.redo.len() > 0
    }

    /// Takes the present state of the draft for the last settled one.
    pub fn refresh_committed(&mut self, draft: &Draft)
        ensures
            final(self)@ == (HistoryView { committed: snap(draft@), ..old(self)@ }),
    {
        self.committed = draft.snapshot();
    }

    /// Puts a state on the stack to go back to.
    fn push(&mut self, before: Snapshot, now: Snapshot)
        ensures
            final(self)@ == pushed(old(self)@, before.deep_view(), now.deep_view()),
    {
        let ghost undo = self.undo.deep_view();
        let ghost new = before.deep_view();
        self.undo.push(before);
        assert(self.undo.deep_view() =~= undo.push(new));
        self.redo = Vec::new();
        assert(self.redo.deep_view() =~= Seq::<SnapshotView>::empty());
        self.committed = now;
    }

    /// Ends a run of keystrokes.
    pub fn commit_text_edit(&mut self, draft: &Draft)
        ensures
            final(self)@ == settled(old(self)@, draft@),
    {
        let pending = self.pending.take();
        if let Some(before) = pending {
            let now = draft.snapshot();
            if !before.same(&now) {
                self.push(before, now);
            }
        }
    }

    /// Remembers the last settled state when a run of keystrokes begins.
    pub fn note_typing(&mut self)
        ensures
            final(self)@ == typed(old(self)@),
    {
        if self.pending.is_none() {
            self.pending = Some(self.committed.copy());
        }
    }

    /// Settles a choice at once, where it has changed anything.
    pub fn discrete_change(&mut self, draft: &Draft)
        ensures
            final(self)@ == chosen(old(self)@, draft@),
    {
        self.commit_text_edit(draft);
        let now = draft.snapshot();
        if !self.committed.same(&now) {
            let before = self.committed.copy();
            self.push(before, now);
        }
    }

    /// Makes the present state of the draft one to go back to. Once the draft has been changed, its
    /// new state has to be settled.
    pub fn push_undo(&mut self, draft: &Draft)
        ensures
            final(self)@ == replaced(old(self)@, draft@, draft@),
    {
        self.commit_text_edit(draft);
        self.push(draft.snapshot(), draft.snapshot());
    }

    /// Goes a step back, where there is one. Gives whether there was.
    pub fn undo(&mut self, draft: &mut Draft) -> (r: bool)
        ensures
            (final(self)@, final(draft)@) == undone(old(self)@, old(draft)@),
            r == (settled(old(self)@, old(draft)@).undo.len() > 0),
    {
        self.commit_text_edit(draft);
        let ghost now = self@;
        match self.undo.pop() {
            Some(prev) => {
                assert(self.undo.deep_view() =~= now.undo.drop_last());
                assert(prev.deep_view() == now.undo.last());
                self.redo.push(draft.snapshot());
                assert(self.redo.deep_view() =~= now.redo.push(snap(draft@)));
                draft.apply_snapshot(prev);
                self.committed = draft.snapshot();
                true
            },
            None => false,
        }
    }

    /// Goes a step forward, where there is one. Gives whether there was.
    pub fn redo(&mut self, draft: &mut Draft) -> (r: bool)
        ensures
            (final(self)@, final(draft)@) == redone(old(self)@, old(draft)@),
            r == (settled(old(self)@, old(draft)@).redo.len() > 0),
    {
        self.commit_text_edit(draft);
        let ghost now = self@;
        match self.redo.pop() {
            Some(next) => {
                assert(self.redo.deep_view() =~= now.redo.drop_last());
                assert(next.deep_view() == now.redo.last());
                self.undo.push(draft.snapshot());
                assert(self.undo.deep_view() =~= now.undo.push(snap(draft@)));
                draft.apply_snapshot(next);
                self.committed = draft.snapshot();
                true
            },
            None => false,
        }
    }
}

// ---------------------------------------------------------------------------
// Laws
// ---------------------------------------------------------------------------

/// Whatever is done, every state that is kept can be restored exactly.
pub proof fn law_history_stays_sound(h: HistoryView, d: DraftView, after: DraftView)
    requires
        sound(h),
    ensures
        sound(settled(h, d)),
        sound(typed(h)),
        sound(chosen(h, d)),
        sound(replaced(h, d, after)),
        sound(undone(h, d).0),
        sound(redone(h, d).0),
        sound(fresh(d)),
{
    law_snapshot_round_trip(d, h.committed);
    law_snapshot_round_trip(after, h.committed);
    let now = settled(h, d);
    assert(sound(now));
    if now.undo.len() > 0 {
        let last = now.undo.last();
        assert(proper(now.undo[now.undo.len() - 1]));
        law_snapshot_round_trip(restored(last), last);
    }
    if now.redo.len() > 0 {
        let last = now.redo.last();
        assert(proper(now.redo[now.redo.len() - 1]));
        law_snapshot_round_trip(restored(last), last);
    }
}

/// A step back brings the draft to the state on top of the stack, and a step forward after it
/// brings back the state that was left, with both stacks as they were.
pub proof fn law_redo_takes_undo_back(h: HistoryView, d: DraftView)
    requires
        sound(h),
        h.pending is None,
        h.undo.len() > 0,
    ensures
        ({
            let (h1, d1) = undone(h, d);
            let (h2, d2) = redone(h1, d1);
            &&& snap(d1) == h.undo.last()
            &&& snap(d2) == snap(d)
            &&& h2.undo == h.undo
            &&& h2.redo == h.redo
        }),
{
    let (h1, d1) = undone(h, d);
    let last = h.undo.last();
    assert(proper(h.undo[h.undo.len() - 1]));
    law_snapshot_round_trip(d, last);
    law_snapshot_round_trip(d, snap(d));
    assert(h1.redo.drop_last() =~= h.redo);
    assert(h1.undo.push(snap(d1)) =~= h.undo);
}

/// A step forward followed by a step back brings back the state that was left, with both stacks as
/// they were.
pub proof fn law_undo_takes_redo_back(h: HistoryView, d: DraftView)
    requires
        sound(h),
        h.pending is None,
        h.redo.len() > 0,
    ensures
        ({
            let (h1, d1) = redone(h, d);
            let (h2, d2) = undone(h1, d1);
            &&& snap(d1) == h.redo.last()
            &&& snap(d2) == snap(d)
            &&& h2.undo == h.undo
            &&& h2.redo == h.redo
        }),
{
    let (h1, d1) = redone(h, d);
    let last = h.redo.last();
    assert(proper(h.redo[h.redo.len() - 1]));
    law_snapshot_round_trip(d, last);
    law_snapshot_round_trip(d, snap(d));
    assert(h1.undo.drop_last() =~= h.undo);
    assert(h1.redo.push(snap(d1)) =~= h.redo);
}

/// A choice that changed the draft can be undone: a step back brings it to the last settled state.
pub proof fn law_choice_can_be_undone(h: HistoryView, d: DraftView)
    requires
        sound(h),
        h.pending is None,
        h.committed != snap(d),
    ensures
        snap(undone(chosen(h, d), d).1) == h.committed,
{
    law_snapshot_round_trip(d, h.committed);
    let after = chosen(h, d);
    assert(after.undo.last() == h.committed);
}

/// A run of keystrokes is one step: a step back brings the draft to the state in which it began.
pub proof fn law_typing_is_one_step(h: HistoryView, d: DraftView)
    requires
        sound(h),
        h.pending is None,
        h.committed != snap(d),
    ensures
        typed(typed(h)) == typed(h),
        settled(typed(h), d).undo.len() == h.undo.len() + 1,
        snap(undone(typed(h), d).1) == h.committed,
{
    law_snapshot_round_trip(d, h.committed);
    let after = settled(typed(h), d);
    assert(after.undo.last() == h.committed);
}

/// A change of the draft as a whole is a step of its own: typing that comes after it is undone
/// first, alone, and a further step back brings the draft to the state before the change.
pub proof fn law_change_is_one_step(
    h: HistoryView,
    before: DraftView,
    after: DraftView,
    later: DraftView,
)
    requires
        sound(h),
        snap(after) != snap(later),
    ensures
        ({
            let (h1, d1) = undone(typed(replaced(h, before, after)), later);
            &&& snap(d1) == snap(after)
            &&& snap(undone(h1, d1).1) == snap(before)
        }),
{
    law_history_stays_sound(h, before, after);
    law_snapshot_round_trip(before, snap(before));
    law_snapshot_round_trip(after, snap(after));
    let h0 = replaced(h, before, after);
    assert(h0.pending is None);
    assert(settled(typed(h0), later).undo.last() == snap(after));
    assert(settled(typed(h0), later).undo.drop_last() =~= h0.undo);
    let (h1, d1) = undone(typed(h0), later);
    assert(h1.undo == h0.undo);
    assert(h1.undo.last() == snap(before));
}

/// A snapshot holds each part of the draft in its own place, so that a draft within its menus comes
/// back as it was.
pub proof fn law_draft_comes_back_as_it_was(d: DraftView)
    requires
        0 <= d.fields.video_kind_index <= 5,
        0 <= d.fields.definition_index <= 4,
        0 <= d.fields.rating_index <= 13,
    ensures
        restored(snap(d)) == d,
        snap(d).title == d.fields.title && snap(d).year == d.fields.year,
        snap(d).summary == d.fields.summary && snap(d).overview == d.fields.overview,
        snap(d).genres == d.fields.genres && snap(d).studio == d.fields.studio,
        snap(d).cast == d.fields.cast && snap(d).directors == d.fields.directors,
        snap(d).producers == d.fields.producers && snap(d).writers == d.fields.writers,
        snap(d).cover_bytes == d.cover_bytes && snap(d).cover_size == d.cover_size,
{
    law_menu_round_trip(None, None, d.fields.video_kind_index);
    law_menu_round_trip(None, None, d.fields.definition_index);
    law_rating_index_round_trip(d.fields.rating_index, rating_at(d.fields.rating_index));
    crate::rating::law_menu_lists_movies_before_television(0);
    if d.fields.rating_index == 0 {
        assert(rating_at(0).len() == 0);
        crate::text::law_trim_cuts_white_space_only(rating_at(0));
    }
}

/// A change ends what could be redone, and what is unchanged adds no step. A draft that was just
/// opened has nothing to undo or redo.
pub proof fn law_change_ends_what_could_be_redone(h: HistoryView, before: DraftView, d: DraftView)
    ensures
        replaced(h, before, d).redo.len() == 0,
        replaced(h, before, d).undo.last() == snap(before),
        replaced(h, before, d).committed == snap(d),
        replaced(h, before, d).pending is None,
        h.pending is None && h.committed != snap(d) ==> chosen(h, d).redo.len() == 0,
        h.pending is None && h.committed == snap(d) ==> chosen(h, d) == h,
        h.pending is None ==> settled(h, d) == h,
        settled(h, d).pending is None,
        settled(typed(h), d).pending is None,
        typed(h).undo == h.undo && typed(h).redo == h.redo && typed(h).committed == h.committed,
        fresh(d).undo.len() == 0 && fresh(d).redo.len() == 0 && fresh(d).pending is None,
        fresh(d).committed == snap(d),
        undone(fresh(d), d).1 == d && redone(fresh(d), d).1 == d,
{
}

} // verus!
