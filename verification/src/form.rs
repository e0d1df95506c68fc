//! The editable fields: filling them with metadata, reading metadata from them, and taking
//! snapshots of them.

use crate::dates::{date_in, format_date, iso_text, parse_date, valid_date};
use crate::model::{
    definitions, named, names_of, people_names, video_kinds, Definition, MediaMetadata,
    MetadataView, Person, PersonView, VideoKind,
};
use crate::rating::{
    index_to_rating, law_rating_index_round_trip, lemma_known_is_not_blank, rating_at, rating_named,
    rating_place, rating_to_index,
};
use crate::tag::{shorten, shortened};
use crate::text::{
    csv, decimal, digit, has_solid, is_white, join, joined, law_csv_round_trip,
    law_trim_cuts_white_space_only, law_trim_is_idempotent, show, split_csv, tidy_words, trim,
    trimmed, two_digits,
};
use vstd::prelude::*;

verus! {

// ---------------------------------------------------------------------------
// Menus
// ---------------------------------------------------------------------------

/// The kind of video at an index of its menu; none at index 0 and where there is no entry.
pub open spec fn kind_at(i: int) -> Option<VideoKind> {
    if 1 <= i <= video_kinds().len() {
        Some(video_kinds()[i - 1])
    } else {
        None
    }
}

/// The index of a kind of video in its menu.
pub open spec fn kind_place(k: Option<VideoKind>) -> int {
    match k {
        None => 0,
        Some(VideoKind::Movie) => 1,
        Some(VideoKind::TvShow) => 2,
        Some(VideoKind::MusicVideo) => 3,
        Some(VideoKind::HomeVideo) => 4,
        Some(VideoKind::Booklet) => 5,
    }
}

/// The definition at an index of its menu; none at index 0 and where there is no entry.
pub open spec fn definition_at(i: int) -> Option<Definition> {
    if 1 <= i <= definitions().len() {
        Some(definitions()[i - 1])
    } else {
        None
    }
}

/// The index of a definition in its menu.
pub open spec fn definition_place(d: Option<Definition>) -> int {
    match d {
        None => 0,
        Some(Definition::Sd) => 1,
        Some(Definition::Hd720) => 2,
        Some(Definition::Hd1080) => 3,
        Some(Definition::Uhd4k) => 4,
    }
}

/// The kind of video at an index of its menu.
pub fn index_to_video_kind(i: i32) -> (r: Option<VideoKind>)
    ensures
        r == kind_at(i as int),
{
    let all = VideoKind::all();
    if i <= 0 || i as usize > all.len() {
        None
    } else {
        Some(all[i as usize - 1])
    }
}

/// The index of a kind of video in its menu.
pub fn video_kind_to_index(k: Option<VideoKind>) -> (r: i32)
    ensures
        r == kind_place(k),
{
    match k {
        None => 0,
        Some(VideoKind::Movie) => 1,
        Some(VideoKind::TvShow) => 2,
        Some(VideoKind::MusicVideo) => 3,
        Some(VideoKind::HomeVideo) => 4,
        Some(VideoKind::Booklet) => 5,
    }
}

/// The definition at an index of its menu.
pub fn index_to_definition(i: i32) -> (r: Option<Definition>)
    ensures
        r == definition_at(i as int),
{
    let all = Definition::all();
    if i <= 0 || i as usize > all.len() {
        None
    } else {
        Some(all[i as usize - 1])
    }
}

/// The index of a definition in its menu.
pub fn definition_to_index(d: Option<Definition>) -> (r: i32)
    ensures
        r == definition_place(d),
{
    match d {
        None => 0,
        Some(Definition::Sd) => 1,
        Some(Definition::Hd720) => 2,
        Some(Definition::Hd1080) => 3,
        Some(Definition::Uhd4k) => 4,
    }
}

/// The menus and their indices are inverse to each other.
pub proof fn law_menu_round_trip(k: Option<VideoKind>, d: Option<Definition>, i: int)
    ensures
        kind_at(kind_place(k)) == k,
        definition_at(definition_place(d)) == d,
        0 <= i <= video_kinds().len() ==> kind_place(kind_at(i)) == i,
        0 <= i <= definitions().len() ==> definition_place(definition_at(i)) == i,
        k is Some ==> kind_place(k) >= 1,
        d is Some ==> definition_place(d) >= 1,
{
}

// ---------------------------------------------------------------------------
// Captions
// ---------------------------------------------------------------------------

/// A size in words, where both sides are known.
pub open spec fn size_text(size: Option<(u32, u32)>) -> Option<Seq<char>> {
    match size {
        Some((w, h)) => if w > 0 && h > 0 {
            Some(decimal(w as nat) + " x "@ + decimal(h as nat))
        } else {
            None
        },
        None => None,
    }
}

/// A size in words, where both sides are known.
fn show_size(size: Option<(u32, u32)>) -> (r: Option<String>)
    ensures
        r.deep_view() == size_text(size),
{
    match size {
        Some((w, h)) => if w > 0 && h > 0 {
            Some(show(w as u64).concat(" x ").concat(show(h as u64).as_str()))
        } else {
            None
        },
        None => None,
    }
}

/// The caption of a video: its size, or nothing.
pub open spec fn dims_text(size: Option<(u32, u32)>) -> Seq<char> {
    match size_text(size) {
        Some(s) => s,
        None => ""@,
    }
}

/// The caption of a picture: its size, or dashes.
pub open spec fn caption_text(size: Option<(u32, u32)>) -> Seq<char> {
    match size_text(size) {
        Some(s) => s,
        None => "— x —"@,
    }
}

/// The caption of a video: its size, or nothing.
pub fn dims_caption(size: Option<(u32, u32)>) -> (r: String)
    ensures
        r@ == dims_text(size),
{
    match show_size(size) {
        Some(s) => s,
        None => "".to_string(),
    }
}

/// The caption of a picture: its size, or dashes.
pub fn size_caption(size: Option<(u32, u32)>) -> (r: String)
    ensures
        r@ == caption_text(size),
{
    match show_size(size) {
        Some(s) => s,
        None => "— x —".to_string(),
    }
}

// ---------------------------------------------------------------------------
// Fields
// ---------------------------------------------------------------------------

/// What the fields of the window hold: text, and indices of menus.
#[derive(Debug)]
pub struct Fields {
    pub title: String,
    pub year: String,
    pub video_kind_index: i32,
    pub definition_index: i32,
    pub rating_index: i32,
    pub summary: String,
    pub overview: String,
    pub genres: String,
    pub cast: String,
    pub directors: String,
    pub producers: String,
    pub writers: String,
    pub studio: String,
}

/// What the fields hold, in mathematical terms.
pub struct FieldsView {
    pub title: Seq<char>,
    pub year: Seq<char>,
    pub video_kind_index: int,
    pub definition_index: int,
    pub rating_index: int,
    pub summary: Seq<char>,
    pub overview: Seq<char>,
    pub genres: Seq<char>,
    pub cast: Seq<char>,
    pub directors: Seq<char>,
    pub producers: Seq<char>,
    pub writers: Seq<char>,
    pub studio: Seq<char>,
}

impl View for Fields {
    type V = FieldsView;

    open spec fn view(&self) -> FieldsView {
        FieldsView {
            title: self.title@,
            year: self.year@,
            video_kind_index: self.video_kind_index as int,
            definition_index: self.definition_index as int,
            rating_index: self.rating_index as int,
            summary: self.summary@,
            overview: self.overview@,
            genres: self.genres@,
            cast: self.cast@,
            directors: self.directors@,
            producers: self.producers@,
            writers: self.writers@,
            studio: self.studio@,
        }
    }
}

/// Which fields keep what they hold when another match is chosen, and whether the poster does.
#[derive(Clone, Copy, Debug, PartialEq, Eq, Structural)]
pub struct Locks {
    pub title: bool,
    pub year: bool,
    pub video_kind: bool,
    pub rating: bool,
    pub summary: bool,
    pub overview: bool,
    pub genres: bool,
    pub cast: bool,
    pub directors: bool,
    pub producers: bool,
    pub writers: bool,
    pub studio: bool,
    pub poster: bool,
}

/// An optional text, as it is shown.
pub open spec fn or_blank(s: Option<Seq<char>>) -> Seq<char> {
    match s {
        Some(t) => t,
        None => ""@,
    }
}

/// The fields that show metadata.
pub open spec fn fields_of(m: MetadataView) -> FieldsView {
    FieldsView {
        title: m.title,
        year: match m.release_date {
            Some(d) => iso_text(d),
            None => ""@,
        },
        video_kind_index: kind_place(m.video_kind),
        definition_index: definition_place(m.definition),
        rating_index: rating_place(or_blank(m.content_rating)),
        summary: or_blank(m.summary),
        overview: or_blank(m.overview),
        genres: joined(m.genres, ", "@),
        cast: joined(names_of(m.cast), ", "@),
        directors: joined(names_of(m.directors), ", "@),
        producers: joined(names_of(m.producers), ", "@),
        writers: joined(names_of(m.writers), ", "@),
        studio: or_blank(m.studio),
    }
}

/// The fields after another match was chosen: those that are locked hold what they held, and so
/// does the definition, which is the file's own.
pub open spec fn relocked(old: FieldsView, new: FieldsView, locks: Locks) -> FieldsView {
    FieldsView {
        title: if locks.title {
            old.title
        } else {
            new.title
        },
        year: if locks.year {
            old.year
        } else {
            new.year
        },
        video_kind_index: if locks.video_kind {
            old.video_kind_index
        } else {
            new.video_kind_index
        },
        definition_index: old.definition_index,
        rating_index: if locks.rating {
            old.rating_index
        } else {
            new.rating_index
        },
        summary: if locks.summary {
            old.summary
        } else {
            new.summary
        },
        overview: if locks.overview {
            old.overview
        } else {
            new.overview
        },
        genres: if locks.genres {
            old.genres
        } else {
            new.genres
        },
        cast: if locks.cast {
            old.cast
        } else {
            new.cast
        },
        directors: if locks.directors {
            old.directors
        } else {
            new.directors
        },
        producers: if locks.producers {
            old.producers
        } else {
            new.producers
        },
        writers: if locks.writers {
            old.writers
        } else {
            new.writers
        },
        studio: if locks.studio {
            old.studio
        } else {
            new.studio
        },
    }
}

/// The fields after metadata was loaded: all of it, or what the locks let through.
pub open spec fn fields_after(old: FieldsView, m: MetadataView, locks: Option<Locks>) -> FieldsView {
    match locks {
        None => fields_of(m),
        Some(l) => relocked(old, fields_of(m), l),
    }
}

/// An optional text, as it is shown.
fn show_optional(s: &Option<String>) -> (r: String)
    ensures
        r@ == or_blank(s.deep_view()),
{
    match s {
        Some(t) => t.clone(),
        None => "".to_string(),
    }
}

/// The names of people with commas between.
pub fn join_people(people: &Vec<Person>) -> (r: String)
    ensures
        r@ == joined(names_of(people.deep_view()), ", "@),
{
    join(&people_names(people), ", ")
}

/// People of whom only the names are known.
pub open spec fn people_named(names: Seq<Seq<char>>) -> Seq<PersonView> {
    names.map_values(|n: Seq<char>| named(n))
}

/// The people in a list with commas between.
fn split_people(s: &str) -> (r: Vec<Person>)
    ensures
        r.deep_view() == people_named(csv(s@)),
{
    let names = split_csv(s);
    let ghost all = people_named(names.deep_view());
    let mut out: Vec<Person> = Vec::new();
    let mut i: usize = 0;
    while i < names.len()
        invariant
            i <= names@.len(),
            all == people_named(names.deep_view()),
            out.deep_view() == all.take(i as int),
        decreases names@.len() - i,
    {
        let ghost before = out.deep_view();
        assert(names.deep_view()[i as int] == names@[i as int]@);
        out.push(Person::new(names[i].as_str()));
        assert(out.deep_view() =~= before.push(all[i as int]));
        assert(all.take(i + 1) =~= all.take(i as int).push(all[i as int]));
        i += 1;
    }
    assert(all.take(all.len() as int) =~= all);
    out
}

/// A text, unless it is blank.
pub open spec fn unless_blank(s: Seq<char>) -> Option<Seq<char>> {
    if trimmed(s).len() == 0 {
        None
    } else {
        Some(s)
    }
}

/// A text, unless it is blank.
fn keep_unless_blank(s: &str) -> (r: Option<String>)
    ensures
        r.deep_view() == unless_blank(s@),
{
    let rest = trim(s);
    if rest.as_str().is_empty() {
        None
    } else {
        Some(s.to_string())
    }
}

/// The metadata with what the fields hold. What no field shows is kept.
pub open spec fn collected(base: MetadataView, f: FieldsView) -> MetadataView {
    MetadataView {
        title: f.title,
        release_date: date_in(trimmed(f.year)),
        summary: match unless_blank(f.summary) {
            Some(s) => Some(shortened(s)),
            None => None,
        },
        overview: unless_blank(f.overview),
        genres: csv(f.genres),
        cast: people_named(csv(f.cast)),
        directors: people_named(csv(f.directors)),
        producers: people_named(csv(f.producers)),
        writers: people_named(csv(f.writers)),
        content_rating: unless_blank(rating_at(f.rating_index)),
        studio: match unless_blank(f.studio) {
            Some(s) => Some(trimmed(s)),
            None => None,
        },
        video_kind: kind_at(f.video_kind_index),
        definition: definition_at(f.definition_index),
        ..base
    }
}

impl Fields {
    /// Fields that hold nothing.
    pub fn blank() -> (r: Fields)
        ensures
            r@ == blank_fields(),
    {
        let r = Fields {
            title: "".to_string(),
            year: "".to_string(),
            video_kind_index: 0,
            definition_index: 0,
            rating_index: 0,
            summary: "".to_string(),
            overview: "".to_string(),
            genres: "".to_string(),
            cast: "".to_string(),
            directors: "".to_string(),
            producers: "".to_string(),
            writers: "".to_string(),
            studio: "".to_string(),
        };
        r
    }

    /// Fills the fields with metadata: all of them, or those that are not locked. The definition
    /// is the file's own and stays where there are locks to heed.
    pub fn load_meta(&mut self, meta: &MediaMetadata, locks: Option<Locks>)
        requires
            meta.release_date matches Some(d) ==> valid_date(d),
        ensures
            final(self)@ == fields_after(old(self)@, meta.deep_view(), locks),
    {
        let (heed, l) = match locks {
            Some(l) => (true, l),
            None => (
                false,
                Locks {
                    title: false,
                    year: false,
                    video_kind: false,
                    rating: false,
                    summary: false,
                    overview: false,
                    genres: false,
                    cast: false,
                    directors: false,
                    producers: false,
                    writers: false,
                    studio: false,
                    poster: false,
                },
            ),
        };
        if !l.title {
            self.title = meta.title.clone();
        }
        if !l.video_kind {
            self.video_kind_index = video_kind_to_index(meta.video_kind);
        }
        if !heed {
            self.definition_index = definition_to_index(meta.definition);
        }
        if !l.year {
            self.year = match meta.release_date {
                Some(d) => format_date(d),
                None => "".to_string(),
            };
        }
        if !l.rating {
            let rating = show_optional(&meta.content_rating);
            self.rating_index = rating_to_index(rating.as_str());
        }
        if !l.summary {
            self.summary = show_optional(&meta.summary);
        }
        if !l.overview {
            self.overview = show_optional(&meta.overview);
        }
        if !l.genres {
            self.genres = join(&meta.genres, ", ");
        }
        if !l.cast {
            self.cast = join_people(&meta.cast);
        }
        if !l.directors {
            self.directors = join_people(&meta.directors);
        }
        if !l.producers {
            self.producers = join_people(&meta.producers);
        }
        if !l.writers {
            self.writers = join_people(&meta.writers);
        }
        if !l.studio {
            self.studio = show_optional(&meta.studio);
        }
    }

    /// The metadata with what the fields hold. What no field shows is kept.
    pub fn collect_edited(&self, base: &MediaMetadata) -> (r: MediaMetadata)
        ensures
            r.deep_view() == collected(base.deep_view(), self@),
            r.release_date matches Some(d) ==> valid_date(d),
    {
        let mut m = base.copy();
        m.title = self.title.clone();
        m.video_kind = index_to_video_kind(self.video_kind_index);
        m.definition = index_to_definition(self.definition_index);
        m.release_date = parse_date(trim(self.year.as_str()).as_str());
        let rating = index_to_rating(self.rating_index);
        m.content_rating = keep_unless_blank(rating.as_str());
        m.summary = match keep_unless_blank(self.summary.as_str()) {
            Some(s) => Some(shorten(s.as_str())),
            None => None,
        };
        m.overview = keep_unless_blank(self.overview.as_str());
        m.genres = split_csv(self.genres.as_str());
        m.cast = split_people(self.cast.as_str());
        m.directors = split_people(self.directors.as_str());
        m.producers = split_people(self.producers.as_str());
        m.writers = split_people(self.writers.as_str());
        m.studio = match keep_unless_blank(self.studio.as_str()) {
            Some(s) => Some(trim(s.as_str())),
            None => None,
        };
        m
    }

    /// Cuts the short description off at its limit.
    pub fn clip_summary(&mut self)
        ensures
            final(self)@ == (FieldsView { summary: shortened(old(self)@.summary), ..old(self)@ }),
    {
        self.summary = shorten(self.summary.as_str());
    }
}

/// Fields that hold nothing.
pub open spec fn blank_fields() -> FieldsView {
    FieldsView {
        title: ""@,
        year: ""@,
        video_kind_index: 0,
        definition_index: 0,
        rating_index: 0,
        summary: ""@,
        overview: ""@,
        genres: ""@,
        cast: ""@,
        directors: ""@,
        producers: ""@,
        writers: ""@,
        studio: ""@,
    }
}

// ---------------------------------------------------------------------------
// Laws
// ---------------------------------------------------------------------------

/// A locked field holds what it held when another match is chosen, whatever the match says.
pub proof fn law_locked_fields_are_kept(old: FieldsView, m: MetadataView, locks: Locks)
    ensures
        ({
            let f = fields_after(old, m, Some(locks));
            &&& locks.title ==> f.title == old.title
            &&& locks.year ==> f.year == old.year
            &&& locks.video_kind ==> f.video_kind_index == old.video_kind_index
            &&& locks.rating ==> f.rating_index == old.rating_index
            &&& locks.summary ==> f.summary == old.summary
            &&& locks.overview ==> f.overview == old.overview
            &&& locks.genres ==> f.genres == old.genres
            &&& locks.cast ==> f.cast == old.cast
            &&& locks.directors ==> f.directors == old.directors
            &&& locks.producers ==> f.producers == old.producers
            &&& locks.writers ==> f.writers == old.writers
            &&& locks.studio ==> f.studio == old.studio
            &&& f.definition_index == old.definition_index
        }),
{
}

/// Whether a list can be written in one line: no entry holds a comma, is blank, or has white space
/// around it.
pub open spec fn fits_one_line(list: Seq<Seq<char>>) -> bool {
    forall|i: int|
        0 <= i < list.len() ==> !(#[trigger] list[i]).contains(',') && list[i].len() > 0 && trimmed(
            list[i],
        ) == list[i]
}

/// Whether the fields can hold people: only their names are known, and these fit one line.
pub open spec fn fit_field(people: Seq<PersonView>) -> bool {
    &&& fits_one_line(names_of(people))
    &&& forall|i: int| 0 <= i < people.len() ==> (#[trigger] people[i]).role is None
}

/// Whether the fields can hold metadata as it is.
pub open spec fn fits_fields(m: MetadataView) -> bool {
    &&& m.release_date matches Some(d) ==> valid_date(d)
    &&& m.content_rating matches Some(r) ==> rating_named(r) is Some
    &&& m.summary matches Some(s) ==> trimmed(s).len() > 0 && s.len() <= crate::tag::SUMMARY_LIMIT
    &&& m.overview matches Some(s) ==> trimmed(s).len() > 0
    &&& m.studio matches Some(s) ==> s.len() > 0 && trimmed(s) == s
    &&& fits_one_line(m.genres)
    &&& fit_field(m.cast)
    &&& fit_field(m.directors)
    &&& fit_field(m.producers)
    &&& fit_field(m.writers)
}

proof fn lemma_tidy_list(list: Seq<Seq<char>>)
    requires
        fits_one_line(list),
    ensures
        tidy_words(list) == list,
    decreases list.len(),
{
    if list.len() > 0 {
        let init = list.drop_last();
        assert(fits_one_line(init)) by {
            assert forall|i: int| 0 <= i < init.len() implies !(#[trigger] init[i]).contains(',')
                && init[i].len() > 0 && trimmed(init[i]) == init[i] by {
                assert(init[i] == list[i]);
            }
        }
        lemma_tidy_list(init);
        assert(list[list.len() - 1] == list.last());
        assert(init.push(list.last()) =~= list);
    } else {
        assert(tidy_words(list) =~= list);
    }
}

proof fn lemma_line_reads_back(list: Seq<Seq<char>>)
    requires
        fits_one_line(list),
    ensures
        csv(joined(list, ", "@)) == list,
{
    lemma_tidy_list(list);
    law_csv_round_trip(list);
}

proof fn lemma_people_read_back(people: Seq<PersonView>)
    requires
        fit_field(people),
    ensures
        people_named(csv(joined(names_of(people), ", "@))) == people,
{
    lemma_line_reads_back(names_of(people));
    assert(people_named(names_of(people)) =~= people) by {
        assert forall|i: int| 0 <= i < people.len() implies #[trigger] people_named(
            names_of(people),
        )[i] == people[i] by {
            assert(people[i].role is None);
        }
    }
}

proof fn lemma_date_is_trimmed(d: crate::model::Date)
    requires
        valid_date(d),
    ensures
        trimmed(iso_text(d)) == iso_text(d),
{
    let s = iso_text(d);
    let tail = two_digits(d.day as nat);
    assert(tail.last() == digit(d.day as nat % 10));
    assert(s.last() == tail.last());
    assert(!is_white(s.last()));
    assert(!is_white(s[0])) by {
        if 0 <= d.year < 10000 {
            assert(s[0] == digit(d.year as nat / 1000));
        }
    }
}

/// Metadata that the fields can hold is read from them as it was loaded: writing a file whose
/// fields nobody touched changes nothing that they show.
pub proof fn law_unedited_metadata_is_kept(m: MetadataView)
    requires
        fits_fields(m),
    ensures
        collected(m, fields_of(m)) == m,
{
    reveal_strlit("");
    let f = fields_of(m);
    law_menu_round_trip(m.video_kind, m.definition, 0);
    match m.release_date {
        Some(d) => {
            lemma_date_is_trimmed(d);
            crate::dates::law_date_round_trip(d);
        },
        None => {
            assert(trimmed(""@) =~= ""@);
        },
    }
    match m.content_rating {
        Some(r) => {
            law_rating_index_round_trip(0, r);
            lemma_known_is_not_blank(r);
        },
        None => {
            assert(trimmed(""@).len() == 0);
            assert(rating_at(0) =~= ""@);
        },
    }
    if let Some(s) = m.studio {
        law_trim_is_idempotent(s);
    }
    lemma_line_reads_back(m.genres);
    lemma_people_read_back(m.cast);
    lemma_people_read_back(m.directors);
    lemma_people_read_back(m.producers);
    lemma_people_read_back(m.writers);
}

/// A field that is not locked takes what the new metadata says for it: texts as they are, empty
/// where there is none; the date as it is written; lists with a comma and a space between.
pub proof fn law_open_fields_take_what_is_new(old: FieldsView, m: MetadataView, locks: Locks)
    ensures
        ({
            let f = fields_after(old, m, Some(locks));
            &&& !locks.title ==> f.title == m.title
            &&& !locks.year && m.release_date is Some ==> f.year == iso_text(
                m.release_date.unwrap(),
            )
            &&& !locks.year && m.release_date is None ==> f.year.len() == 0
            &&& !locks.video_kind ==> f.video_kind_index == kind_place(m.video_kind)
            &&& !locks.rating && m.content_rating is Some ==> f.rating_index == rating_place(
                m.content_rating.unwrap(),
            )
            &&& !locks.summary && m.summary is Some ==> f.summary == m.summary.unwrap()
            &&& !locks.summary && m.summary is None ==> f.summary.len() == 0
            &&& !locks.overview && m.overview is Some ==> f.overview == m.overview.unwrap()
            &&& !locks.overview && m.overview is None ==> f.overview.len() == 0
            &&& !locks.genres ==> f.genres == joined(m.genres, ", "@)
            &&& !locks.cast ==> f.cast == joined(names_of(m.cast), ", "@)
            &&& !locks.directors ==> f.directors == joined(names_of(m.directors), ", "@)
            &&& !locks.producers ==> f.producers == joined(names_of(m.producers), ", "@)
            &&& !locks.writers ==> f.writers == joined(names_of(m.writers), ", "@)
            &&& !locks.studio && m.studio is Some ==> f.studio == m.studio.unwrap()
            &&& !locks.studio && m.studio is None ==> f.studio.len() == 0
        }),
{
    reveal_strlit("");
}

/// Without locks every field takes what the metadata says, the definition too: the result is the
/// same whatever the fields held before.
pub proof fn law_fields_without_locks_are_all_new(old: FieldsView, other: FieldsView, m: MetadataView)
    ensures
        fields_after(old, m, None) == fields_after(other, m, None),
        fields_after(old, m, None).definition_index == definition_place(m.definition),
        fields_after(old, m, None).title == m.title,
        forall|locks: Locks|
            !locks.title && !locks.year && !locks.video_kind && !locks.rating && !locks.summary
                && !locks.overview && !locks.genres && !locks.cast && !locks.directors
                && !locks.producers && !locks.writers && !locks.studio && old.definition_index
                == definition_place(m.definition) ==> #[trigger] fields_after(old, m, Some(locks))
                == fields_after(old, m, None),
{
}

/// The places in the menus are those of the entries, behind an entry for none.
pub proof fn law_menus_begin_with_none(i: int)
    ensures
        kind_at(0) is None,
        kind_at(1) == Some(VideoKind::Movie),
        kind_at(2) == Some(VideoKind::TvShow),
        kind_at(3) == Some(VideoKind::MusicVideo),
        kind_at(4) == Some(VideoKind::HomeVideo),
        kind_at(5) == Some(VideoKind::Booklet),
        i < 0 || i > 5 ==> kind_at(i) is None,
        definition_at(0) is None,
        definition_at(1) == Some(Definition::Sd),
        definition_at(2) == Some(Definition::Hd720),
        definition_at(3) == Some(Definition::Hd1080),
        definition_at(4) == Some(Definition::Uhd4k),
        i < 0 || i > 4 ==> definition_at(i) is None,
{
}

/// What is collected from the fields stands where it belongs, and what has no field is kept. A text
/// that is blank counts as none; the short description is cut to its first 255 characters; the
/// studio loses the white space around it.
pub proof fn law_fields_are_collected_where_they_belong(base: MetadataView, f: FieldsView)
    ensures
        ({
            let m = collected(base, f);
            &&& m.title == f.title
            &&& m.release_date == date_in(trimmed(f.year))
            &&& has_solid(f.summary) ==> m.summary is Some && m.summary.unwrap()
                == f.summary.take(
                if f.summary.len() < 255 {
                    f.summary.len() as int
                } else {
                    255
                },
            )
            &&& !has_solid(f.summary) ==> m.summary is None
            &&& has_solid(f.overview) ==> m.overview == Some(f.overview)
            &&& !has_solid(f.overview) ==> m.overview is None
            &&& has_solid(f.studio) ==> m.studio == Some(trimmed(f.studio))
            &&& !has_solid(f.studio) ==> m.studio is None
            &&& m.genres == csv(f.genres)
            &&& names_of(m.cast) == csv(f.cast)
            &&& names_of(m.directors) == csv(f.directors)
            &&& names_of(m.producers) == csv(f.producers)
            &&& names_of(m.writers) == csv(f.writers)
            &&& m.video_kind == kind_at(f.video_kind_index)
            &&& m.definition == definition_at(f.definition_index)
            &&& m.artwork == base.artwork
            &&& m.kind == base.kind
        }),
{
    let m = collected(base, f);
    law_trim_cuts_white_space_only(f.summary);
    law_trim_cuts_white_space_only(f.overview);
    law_trim_cuts_white_space_only(f.studio);
    assert(f.summary.take(f.summary.len() as int) =~= f.summary);
    assert(names_of(m.cast) =~= csv(f.cast));
    assert(names_of(m.directors) =~= csv(f.directors));
    assert(names_of(m.producers) =~= csv(f.producers));
    assert(names_of(m.writers) =~= csv(f.writers));
}

/// Dimensions are written as the width, an x between spaces, and the height, where both are known
/// and not zero; else the field is empty and the caption shows dashes.
pub proof fn law_dimensions_are_width_and_height(w: u32, h: u32)
    ensures
        w > 0 && h > 0 ==> dims_text(Some((w, h))) == decimal(w as nat) + " x "@ + decimal(h as nat)
            && caption_text(Some((w, h))) == dims_text(Some((w, h))),
        w == 0 || h == 0 ==> dims_text(Some((w, h))).len() == 0 && caption_text(Some((w, h)))
            == "— x —"@,
        dims_text(None).len() == 0,
        caption_text(None) == "— x —"@,
{
    reveal_strlit("");
}

/// Blank fields hold nothing, and what is collected from them is nothing.
pub proof fn law_blank_fields_say_nothing(base: MetadataView)
    ensures
        ({
            let m = collected(base, blank_fields());
            &&& m.title.len() == 0
            &&& m.summary is None
            &&& m.overview is None
            &&& m.studio is None
            &&& m.video_kind is None
            &&& m.definition is None
            &&& m.content_rating is None
        }),
{
    reveal_strlit("");
    law_trim_cuts_white_space_only(""@);
    law_trim_cuts_white_space_only(rating_at(0));
}

} // verus!
