//! How what is known about a title is kept in the atoms of an MP4 file.

use crate::artwork::{EncodedArtwork, EncodedView};
use crate::atoms;
use crate::atoms::{
    atoms, first_bytes, first_picture, genre_of, media_code, media_type_of, no_atoms,
    picture_value, text_of, values_of, AtomData, AtomId, AtomKey, AtomValue, MediaType, ARTWORK,
    DEFINITION, DESCRIPTION, GENRE, LONG_DESCRIPTION, MEDIA_TYPE, PUBLISHER, STANDARD_GENRE, TITLE,
    TV_EPISODE, TV_EPISODE_ID, TV_NETWORK, TV_SEASON, TV_SHOW, YEAR,
};
use crate::dates::{
    date_in, format_date, iso_text, law_date_round_trip, parse_date, release_date,
    release_date_of, valid_date,
};
use crate::model::{
    definition_for, definition_of, hdvd_of, stik_of, video_kind_of, Definition, KindView, MediaKind,
    MediaKindMeta, MediaMetadata, MetadataView, VideoKind,
};
use crate::mp4rewrite::{
    be32, boxes_of, first_of, headers_fit, law_moov_first_gives_fast_start,
    law_moov_last_ends_fast_start, movie_first, plan_first, plan_last, rewritten, BoxAt, PlanAt,
    FTYP, MOOV,
};
use crate::plist::{
    all_survive, build_itunmovi_plist, law_people_read_back, lemma_read_people_are_tidy,
    lemma_read_string_is_trimmed, lemma_tidy_twice, nobody, parse_itunmovi_people, people_after,
    people_list, string_after, survives, tidy,
};
use crate::rating::{
    decode_itunextc, decoded, encode_itunextc, encoded, law_rating_round_trip, rating_named,
};
use crate::text::{
    all_digits, chars_of, csv, decimal, digit, digits_value, join, joined, law_csv_round_trip,
    law_trim_is_idempotent, lemma_decimal_value, lemma_tidy_words_twice, pieces, show, show_two,
    split_csv, string_range, tidy_words, trimmed, two_digits,
};
use mp4ameta::Tag;
use vstd::prelude::*;

verus! {

/// The domain of iTunes' own atoms.
pub const ITUNES: &'static str = "com.apple.iTunes";

/// The atom with the content rating.
pub const RATING_ATOM: &'static str = "iTunEXTC";

/// The atom with the people.
pub const PEOPLE_ATOM: &'static str = "iTunMOVI";

/// The most characters of a short description.
pub const SUMMARY_LIMIT: usize = 255;

/// The four bytes of a number, the highest first.
pub open spec fn be_bytes(v: u32) -> Seq<u8> {
    seq![
        (v / 0x100_0000) as u8,
        (v / 0x1_0000 % 0x100) as u8,
        (v / 0x100 % 0x100) as u8,
        (v % 0x100) as u8,
    ]
}

/// The four bytes of a number, the highest first.
fn number_bytes(v: u32) -> (r: Vec<u8>)
    ensures
        r@ == be_bytes(v),
{
    let mut out: Vec<u8> = Vec::new();
    out.push((v / 0x100_0000) as u8);
    out.push((v / 0x1_0000 % 0x100) as u8);
    out.push((v / 0x100 % 0x100) as u8);
    out.push((v % 0x100) as u8);
    assert(out@ =~= be_bytes(v));
    out
}

/// The kind of media for a `stik` number.
pub open spec fn media_type_for(stik: u8) -> MediaType {
    if stik == 1 {
        MediaType::Normal
    } else if stik == 2 {
        MediaType::AudioBook
    } else if stik == 6 {
        MediaType::MusicVideo
    } else if stik == 9 {
        MediaType::ShortFilm
    } else if stik == 10 {
        MediaType::TvShow
    } else if stik == 11 {
        MediaType::Booklet
    } else {
        MediaType::Movie
    }
}

/// The kind of media for a `stik` number; that of home videos for one without a name.
pub fn media_type_for_stik(stik: u8) -> (r: MediaType)
    ensures
        r == media_type_for(stik),
{
    match stik {
        1 => MediaType::Normal,
        2 => MediaType::AudioBook,
        6 => MediaType::MusicVideo,
        9 => MediaType::ShortFilm,
        10 => MediaType::TvShow,
        11 => MediaType::Booklet,
        _ => MediaType::Movie,
    }
}

/// An iTunes atom by its name.
pub open spec fn itunes(name: Seq<char>) -> AtomKey {
    AtomKey::Freeform(ITUNES@, name)
}

/// The number of an episode within its season, as text.
pub open spec fn episode_code(season: u32, episode: u32) -> Seq<char> {
    decimal(season as nat) + "x"@ + two_digits(episode as nat)
}

/// At most the first 255 characters.
pub open spec fn shortened(s: Seq<char>) -> Seq<char> {
    if s.len() <= SUMMARY_LIMIT {
        s
    } else {
        s.take(SUMMARY_LIMIT as int)
    }
}

/// At most the first 255 characters.
pub fn shorten(s: &str) -> (r: String)
    ensures
        r@ == shortened(s@),
{
    let v = chars_of(s);
    let n: usize = if v.len() <= SUMMARY_LIMIT {
        v.len()
    } else {
        SUMMARY_LIMIT
    };
    let text = string_range(&v, 0, n);
    assert(text@ =~= shortened(s@));
    text
}

/// The kind of media that a title is filed under: the user's choice, else movie or television.
pub open spec fn filed_under(m: MetadataView) -> MediaType {
    match m.video_kind {
        Some(k) => media_type_for(stik_of(k)),
        None => match m.kind {
            KindView::Movie => MediaType::ShortFilm,
            KindView::Episode(_) => MediaType::TvShow,
        },
    }
}

/// The value of an optional text.
pub open spec fn text_value(s: Option<Seq<char>>) -> Option<AtomValue> {
    match s {
        Some(t) => Some(AtomValue::Utf8(t)),
        None => None,
    }
}

/// What an episode's tag holds under a code.
pub open spec fn episode_value(m: MetadataView, code: u32) -> Option<AtomValue> {
    match m.kind {
        KindView::Movie => None,
        KindView::Episode(e) => if code == TV_SHOW {
            Some(AtomValue::Utf8(e.show_name))
        } else if code == TV_NETWORK {
            text_value(e.network)
        } else if code == TV_SEASON {
            Some(AtomValue::BeSigned(be_bytes(e.season)))
        } else if code == TV_EPISODE {
            Some(AtomValue::BeSigned(be_bytes(e.episode)))
        } else if code == TV_EPISODE_ID {
            Some(AtomValue::Utf8(episode_code(e.season, e.episode)))
        } else {
            None
        },
    }
}

/// What a title's tag holds under a code.
pub open spec fn code_value(
    m: MetadataView,
    cover: Option<EncodedView>,
    code: u32,
) -> Option<AtomValue> {
    if code == TITLE {
        Some(AtomValue::Utf8(m.title))
    } else if code == YEAR {
        match m.release_date {
            Some(d) => Some(AtomValue::Utf8(iso_text(d))),
            None => None,
        }
    } else if code == DESCRIPTION {
        match m.summary {
            Some(s) => Some(AtomValue::Utf8(shortened(s))),
            None => None,
        }
    } else if code == LONG_DESCRIPTION {
        text_value(m.overview)
    } else if code == GENRE {
        if m.genres.len() == 0 {
            None
        } else {
            Some(AtomValue::Utf8(joined(m.genres, ", "@)))
        }
    } else if code == PUBLISHER {
        text_value(m.studio)
    } else if code == MEDIA_TYPE {
        Some(AtomValue::Reserved(seq![media_code(filed_under(m))]))
    } else if code == DEFINITION {
        match m.definition {
            Some(d) => Some(AtomValue::BeSigned(be_bytes(hdvd_of(d) as u32))),
            None => None,
        }
    } else if code == ARTWORK {
        match cover {
            Some(c) => Some(picture_value(c.format, c.bytes)),
            None => None,
        }
    } else {
        episode_value(m, code)
    }
}

/// What a title's tag holds under a name.
pub open spec fn tag_value(
    m: MetadataView,
    cover: Option<EncodedView>,
    key: AtomKey,
) -> Option<AtomValue> {
    match key {
        AtomKey::Code(code) => code_value(m, cover, code),
        AtomKey::Freeform(mean, name) => if mean != ITUNES@ {
            None
        } else if name == RATING_ATOM@ {
            match m.content_rating {
                Some(r) => text_value(encoded(r)),
                None => None,
            }
        } else if name == PEOPLE_ATOM@ {
            if nobody(m) {
                None
            } else {
                Some(AtomValue::Utf8(people_list(m)))
            }
        } else {
            None
        },
    }
}

/// The atoms of a title's tag: under each name one value, or no atom.
pub open spec fn tag_of(m: MetadataView, cover: Option<EncodedView>) -> Map<
    AtomKey,
    Seq<AtomValue>,
> {
    Map::new(
        |key: AtomKey| tag_value(m, cover, key) is Some,
        |key: AtomKey| seq![tag_value(m, cover, key).unwrap()],
    )
}

/// Sets a text under a code.
fn set_fourcc_utf8(tag: &mut Tag, code: u32, value: &str)
    ensures
        atoms(*final(tag)) == atoms(*old(tag)).insert(
            AtomKey::Code(code),
            seq![AtomValue::Utf8(value@)],
        ),
{
    atoms::set_data(tag, AtomId::Code(code), AtomData::Utf8(value.to_string()));
}

/// Sets a number under a code.
fn set_fourcc_be_signed(tag: &mut Tag, code: u32, value: u32)
    ensures
        atoms(*final(tag)) == atoms(*old(tag)).insert(
            AtomKey::Code(code),
            seq![AtomValue::BeSigned(be_bytes(value))],
        ),
{
    atoms::set_data(tag, AtomId::Code(code), AtomData::BeSigned(number_bytes(value)));
}

/// Sets the long description.
fn set_long_description(tag: &mut Tag, text: &str)
    ensures
        atoms(*final(tag)) == atoms(*old(tag)).insert(
            AtomKey::Code(LONG_DESCRIPTION),
            seq![AtomValue::Utf8(text@)],
        ),
{
    set_fourcc_utf8(tag, LONG_DESCRIPTION, text);
}

/// Sets a text under an iTunes name.
fn set_itunes(tag: &mut Tag, name: &str, value: String)
    ensures
        atoms(*final(tag)) == atoms(*old(tag)).insert(
            itunes(name@),
            seq![AtomValue::Utf8(value@)],
        ),
{
    let id = AtomId::Freeform { mean: ITUNES.to_string(), name: name.to_string() };
    atoms::set_data(tag, id, AtomData::Utf8(value));
}

/// `m` with a value under a name, if there is one.
pub open spec fn with_value(
    m: Map<AtomKey, Seq<AtomValue>>,
    key: AtomKey,
    value: Option<AtomValue>,
) -> Map<AtomKey, Seq<AtomValue>> {
    match value {
        Some(v) => m.insert(key, seq![v]),
        None => m,
    }
}

/// The descriptive atoms, added to `a`.
pub open spec fn with_texts(
    a: Map<AtomKey, Seq<AtomValue>>,
    m: MetadataView,
) -> Map<AtomKey, Seq<AtomValue>> {
    let a1 = with_value(a, AtomKey::Code(TITLE), code_value(m, None, TITLE));
    let a2 = with_value(a1, AtomKey::Code(YEAR), code_value(m, None, YEAR));
    let a3 = with_value(a2, AtomKey::Code(DESCRIPTION), code_value(m, None, DESCRIPTION));
    let a4 = with_value(a3, AtomKey::Code(LONG_DESCRIPTION), code_value(m, None, LONG_DESCRIPTION));
    let a5 = with_value(a4, itunes(RATING_ATOM@), tag_value(m, None, itunes(RATING_ATOM@)));
    let a6 = with_value(a5, AtomKey::Code(GENRE), code_value(m, None, GENRE));
    with_value(a6, AtomKey::Code(PUBLISHER), code_value(m, None, PUBLISHER))
}

/// The atoms of an episode, added to `a`.
pub open spec fn with_episode(
    a: Map<AtomKey, Seq<AtomValue>>,
    m: MetadataView,
) -> Map<AtomKey, Seq<AtomValue>> {
    let a1 = with_value(a, AtomKey::Code(TV_SHOW), episode_value(m, TV_SHOW));
    let a2 = with_value(a1, AtomKey::Code(TV_NETWORK), episode_value(m, TV_NETWORK));
    let a3 = with_value(a2, AtomKey::Code(TV_SEASON), episode_value(m, TV_SEASON));
    let a4 = with_value(a3, AtomKey::Code(TV_EPISODE), episode_value(m, TV_EPISODE));
    with_value(a4, AtomKey::Code(TV_EPISODE_ID), episode_value(m, TV_EPISODE_ID))
}

/// Sets the descriptive atoms of a tag that has none yet.
fn set_texts(tag: &mut Tag, meta: &MediaMetadata)
    requires
        meta.deep_view().release_date matches Some(d) ==> valid_date(d),
        atoms(*old(tag)) == no_atoms(),
    ensures
        atoms(*final(tag)) == with_texts(atoms(*old(tag)), meta.deep_view()),
{
    let ghost m = meta.deep_view();
    atoms::set_title(tag, meta.title.clone());
    if let Some(date) = meta.release_date {
        atoms::set_year(tag, format_date(date));
    }
    if let Some(summary) = &meta.summary {
        atoms::set_description(tag, shorten(summary.as_str()));
    }
    if let Some(overview) = &meta.overview {
        set_long_description(tag, overview.as_str());
    }
    if let Some(rating) = &meta.content_rating {
        if let Some(text) = encode_itunextc(rating.as_str()) {
            set_itunes(tag, RATING_ATOM, text);
        }
    }
    let ghost a5 = atoms(*tag);
    assert(!a5.contains_key(AtomKey::Code(STANDARD_GENRE)));
    assert(meta.genres.deep_view().len() == meta.genres@.len());
    if meta.genres.len() > 0 {
        let text = join(&meta.genres, ", ");
        atoms::set_genre(tag, text);
        proof {
            let a6 = with_value(a5, AtomKey::Code(GENRE), code_value(m, None, GENRE));
            assert(a6.remove(AtomKey::Code(STANDARD_GENRE)) =~= a6);
        }
    }
    if let Some(studio) = &meta.studio {
        set_fourcc_utf8(tag, PUBLISHER, studio.as_str());
    }
}

/// Sets the atoms of an episode; none for a movie.
fn set_episode(tag: &mut Tag, meta: &MediaMetadata)
    ensures
        atoms(*final(tag)) == with_episode(atoms(*old(tag)), meta.deep_view()),
{
    if let MediaKindMeta::Episode(ep) = &meta.kind {
        set_fourcc_utf8(tag, TV_SHOW, ep.show_name.as_str());
        if let Some(net) = &ep.network {
            set_fourcc_utf8(tag, TV_NETWORK, net.as_str());
        }
        set_fourcc_be_signed(tag, TV_SEASON, ep.season);
        set_fourcc_be_signed(tag, TV_EPISODE, ep.episode);
        let season = show(ep.season as u64);
        let episode = show_two(ep.episode as u64);
        let code = season.concat("x").concat(episode.as_str());
        set_fourcc_utf8(tag, TV_EPISODE_ID, code.as_str());
    }
}

/// The tag of a title, with the cover that was chosen for it.
pub fn build_tag(meta: &MediaMetadata, artwork: Option<&EncodedArtwork>) -> (tag: Tag)
    requires
        meta.deep_view().release_date matches Some(d) ==> valid_date(d),
    ensures
        atoms(tag) == tag_of(
            meta.deep_view(),
            match artwork {
                Some(a) => Some(a@),
                None => None,
            },
        ),
{
    let ghost m = meta.deep_view();
    let ghost cover: Option<EncodedView> = match artwork {
        Some(a) => Some(a@),
        None => None,
    };
    let mut tag = atoms::empty_tag();
    set_texts(&mut tag, meta);
    let ghost b0 = atoms(tag);
    let kind: MediaType = match meta.video_kind {
        Some(k) => media_type_for_stik(k.stik()),
        None => match meta.kind.kind() {
            MediaKind::Movie => MediaType::ShortFilm,
            MediaKind::TvShow => MediaType::TvShow,
        },
    };
    atoms::set_media_type(&mut tag, kind);
    if let Some(def) = meta.definition {
        set_fourcc_be_signed(&mut tag, DEFINITION, def.hdvd() as u32);
    }
    if let Some(xml) = build_itunmovi_plist(meta) {
        set_itunes(&mut tag, PEOPLE_ATOM, xml);
    }
    let ghost b3 = atoms(tag);
    proof {
        let b1 = with_value(b0, AtomKey::Code(MEDIA_TYPE), code_value(m, cover, MEDIA_TYPE));
        let b2 = with_value(b1, AtomKey::Code(DEFINITION), code_value(m, cover, DEFINITION));
        assert(b3 == with_value(b2, itunes(PEOPLE_ATOM@), tag_value(m, cover, itunes(PEOPLE_ATOM@))))
            by {
            lemma_names_differ();
        }
    }
    set_episode(&mut tag, meta);
    if let Some(art) = artwork {
        let mut copy: Vec<u8> = Vec::new();
        copy.extend_from_slice(art.bytes.as_slice());
        assert(copy@ =~= art.bytes@);
        atoms::set_artwork(&mut tag, art.format, copy);
    }
    proof {
        lemma_tag_of(m, cover);
    }
    tag
}

/// The names of the iTunes atoms.
proof fn lemma_names_differ()
    ensures
        RATING_ATOM@ != PEOPLE_ATOM@,
{
    reveal_strlit("iTunEXTC");
    reveal_strlit("iTunMOVI");
    assert(RATING_ATOM@[4] != PEOPLE_ATOM@[4]);
}

/// Adding the atoms one after the other gives the tag.
proof fn lemma_tag_of(m: MetadataView, cover: Option<EncodedView>)
    ensures
        ({
            let b0 = with_texts(no_atoms(), m);
            let b1 = with_value(b0, AtomKey::Code(MEDIA_TYPE), code_value(m, cover, MEDIA_TYPE));
            let b2 = with_value(b1, AtomKey::Code(DEFINITION), code_value(m, cover, DEFINITION));
            let b3 = with_value(
                b2,
                itunes(PEOPLE_ATOM@),
                tag_value(m, cover, itunes(PEOPLE_ATOM@)),
            );
            let b4 = with_episode(b3, m);
            with_value(b4, AtomKey::Code(ARTWORK), code_value(m, cover, ARTWORK)) == tag_of(
                m,
                cover,
            )
        }),
{
    lemma_names_differ();
    let b0 = with_texts(no_atoms(), m);
    let b1 = with_value(b0, AtomKey::Code(MEDIA_TYPE), code_value(m, cover, MEDIA_TYPE));
    let b2 = with_value(b1, AtomKey::Code(DEFINITION), code_value(m, cover, DEFINITION));
    let b3 = with_value(b2, itunes(PEOPLE_ATOM@), tag_value(m, cover, itunes(PEOPLE_ATOM@)));
    let b4 = with_episode(b3, m);
    let b5 = with_value(b4, AtomKey::Code(ARTWORK), code_value(m, cover, ARTWORK));
    let t = tag_of(m, cover);
    assert forall|key: AtomKey| b5.contains_key(key) == t.contains_key(key) && (t.contains_key(key)
        ==> b5[key] == t[key]) by {
        match key {
            AtomKey::Code(c) => {},
            AtomKey::Freeform(mean, name) => {},
        }
    }
    assert(b5 =~= t);
}

// ---------------------------------------------------------------------------
// Reading
// ---------------------------------------------------------------------------

/// The first value, if it is plain text.
pub open spec fn plain_text(values: Seq<AtomValue>) -> Option<Seq<char>> {
    if values.len() > 0 {
        match values[0] {
            AtomValue::Utf8(s) => Some(s),
            _ => None,
        }
    } else {
        None
    }
}

/// The genre in a tag: the text, where there is no number from a list; else what mp4ameta gives.
pub open spec fn genre_in(a: Map<AtomKey, Seq<AtomValue>>) -> Option<Seq<char>> {
    let standard = values_of(a, AtomKey::Code(STANDARD_GENRE));
    if standard.len() > 0 {
        genre_of(standard, values_of(a, AtomKey::Code(GENRE)))
    } else {
        text_of(a, GENRE)
    }
}

/// The definition that a tag names in the last byte of its number.
pub open spec fn named_definition(a: Map<AtomKey, Seq<AtomValue>>) -> Option<Definition> {
    let values = values_of(a, AtomKey::Code(DEFINITION));
    if values.len() > 0 {
        match values[0] {
            AtomValue::BeSigned(b) => if b.len() > 0 {
                definition_of(b.last())
            } else {
                None
            },
            _ => None,
        }
    } else {
        None
    }
}

/// The definition of a file: the one that its tag names, else the one of its video track.
pub open spec fn definition_in(
    a: Map<AtomKey, Seq<AtomValue>>,
    size: Option<(u32, u32)>,
) -> Option<Definition> {
    match named_definition(a) {
        Some(d) => Some(d),
        None => match size {
            Some((w, h)) => Some(definition_for(w, h)),
            None => None,
        },
    }
}

/// What is known about a title from the atoms of its tag and the size of its video track.
pub open spec fn metadata_in(
    a: Map<AtomKey, Seq<AtomValue>>,
    size: Option<(u32, u32)>,
) -> MetadataView {
    let xml = plain_text(values_of(a, itunes(PEOPLE_ATOM@)));
    let people = |key: Seq<char>| match xml {
        Some(x) => people_after(x, key),
        None => Seq::empty(),
    };
    MetadataView {
        title: match text_of(a, TITLE) {
            Some(t) => t,
            None => Seq::empty(),
        },
        release_date: match text_of(a, YEAR) {
            Some(y) => release_date_of(date_in(y), y),
            None => None,
        },
        summary: text_of(a, DESCRIPTION),
        overview: plain_text(values_of(a, AtomKey::Code(LONG_DESCRIPTION))),
        genres: match genre_in(a) {
            Some(g) => csv(g),
            None => Seq::empty(),
        },
        cast: people("cast"@),
        directors: people("directors"@),
        producers: people("producers"@),
        writers: people("screenwriters"@),
        content_rating: match plain_text(values_of(a, itunes(RATING_ATOM@))) {
            Some(r) => decoded(r),
            None => None,
        },
        studio: match xml {
            Some(x) => string_after(x, "studio"@),
            None => None,
        },
        video_kind: match media_type_of(a) {
            Some(n) => video_kind_of(n),
            None => None,
        },
        definition: definition_in(a, size),
        artwork: Seq::empty(),
        kind: KindView::Movie,
    }
}

/// The picture on the cover, in a tag with these atoms.
pub open spec fn cover_in(a: Map<AtomKey, Seq<AtomValue>>) -> Option<Seq<u8>> {
    first_picture(values_of(a, AtomKey::Code(ARTWORK)))
}

/// The first value under a name, if it is plain text.
fn first_plain_text(tag: &Tag, id: AtomId) -> (r: Option<String>)
    ensures
        r.deep_view() == plain_text(values_of(atoms(*tag), id@)),
{
    match atoms::first_data(tag, &id) {
        Some(AtomData::Utf8(s)) => Some(s),
        _ => None,
    }
}

/// The definition that a tag names.
fn read_definition(tag: &Tag) -> (r: Option<Definition>)
    ensures
        r == named_definition(atoms(*tag)),
{
    match atoms::first_data(tag, &AtomId::Code(DEFINITION)) {
        Some(AtomData::BeSigned(b)) => if b.len() > 0 {
            Definition::from_hdvd(b[b.len() - 1])
        } else {
            None
        },
        _ => None,
    }
}

/// The date that a tag gives.
fn read_release_date(tag: &Tag) -> (r: Option<crate::model::Date>)
    ensures
        r == (match text_of(atoms(*tag), YEAR) {
            Some(y) => release_date_of(date_in(y), y),
            None => None,
        }),
        r matches Some(d) ==> valid_date(d),
{
    match atoms::year(tag) {
        Some(y) => release_date(parse_date(y.as_str()), y.as_str()),
        None => None,
    }
}

/// What is known about a title from its tag, and the picture on its cover. Whatever the tag does
/// not hold is left empty. `size` is the size of the video track, from which the definition is
/// taken where the tag names none.
pub fn read_from_tag(tag: &Tag, size: Option<(u32, u32)>) -> (r: (MediaMetadata, Option<Vec<u8>>))
    ensures
        r.0.deep_view() == metadata_in(atoms(*tag), size),
        r.1.deep_view() == cover_in(atoms(*tag)),
        r.0.release_date matches Some(d) ==> valid_date(d),
{
    let ghost a = atoms(*tag);
    let mut meta = MediaMetadata::default();
    if let Some(t) = atoms::title(tag) {
        meta.title = t;
    }
    meta.release_date = read_release_date(tag);
    meta.summary = atoms::description(tag);
    meta.overview = first_plain_text(tag, AtomId::Code(LONG_DESCRIPTION));
    let rating_id = AtomId::Freeform { mean: ITUNES.to_string(), name: RATING_ATOM.to_string() };
    if let Some(raw) = first_plain_text(tag, rating_id) {
        meta.content_rating = decode_itunextc(raw.as_str());
    }
    if let Some(n) = atoms::media_type(tag) {
        meta.video_kind = VideoKind::from_stik(n);
    }
    meta.definition = read_definition(tag);
    if meta.definition.is_none() {
        if let Some((w, h)) = size {
            meta.definition = Some(Definition::from_dimensions(w, h));
        }
    }
    if let Some(genre) = atoms::genre(tag) {
        meta.genres = split_csv(genre.as_str());
    }
    let people_id = AtomId::Freeform { mean: ITUNES.to_string(), name: PEOPLE_ATOM.to_string() };
    if let Some(xml) = first_plain_text(tag, people_id) {
        let people = parse_itunmovi_people(xml.as_str());
        meta.cast = people.cast;
        meta.directors = people.directors;
        meta.producers = people.producers;
        meta.writers = people.writers;
        meta.studio = people.studio;
    }
    let cover = atoms::artwork(tag);
    proof {
        let v = meta.deep_view();
        let w = metadata_in(a, size);
        assert(v.title =~= w.title);
        assert(v.genres =~= w.genres);
        assert(v.cast =~= w.cast);
        assert(v.directors =~= w.directors);
        assert(v.producers =~= w.producers);
        assert(v.writers =~= w.writers);
        assert(v.artwork =~= w.artwork);
    }
    (meta, cover)
}

/// What reading gives back of a title that was written with `m`, for a video track of this size.
pub open spec fn read_back(m: MetadataView, size: Option<(u32, u32)>) -> MetadataView {
    MetadataView {
        title: m.title,
        release_date: m.release_date,
        summary: match m.summary {
            Some(s) => Some(shortened(s)),
            None => None,
        },
        overview: m.overview,
        genres: tidy_words(m.genres),
        cast: tidy(m.cast),
        directors: tidy(m.directors),
        producers: tidy(m.producers),
        writers: tidy(m.writers),
        content_rating: match m.content_rating {
            Some(r) => if rating_named(trimmed(r)) is Some {
                Some(trimmed(r))
            } else {
                None
            },
            None => None,
        },
        studio: match m.studio {
            Some(name) => if trimmed(name).len() == 0 {
                None
            } else {
                Some(trimmed(name))
            },
            None => None,
        },
        video_kind: Some(
            match m.video_kind {
                Some(k) => k,
                None => match m.kind {
                    KindView::Movie => VideoKind::Movie,
                    KindView::Episode(_) => VideoKind::TvShow,
                },
            },
        ),
        definition: match m.definition {
            Some(d) => Some(d),
            None => match size {
                Some((w, h)) => Some(definition_for(w, h)),
                None => None,
            },
        },
        artwork: Seq::empty(),
        kind: KindView::Movie,
    }
}

/// Whether a title can be read back: names and the studio survive escaping, no genre holds a
/// comma, and the date exists.
pub open spec fn reads_back(m: MetadataView) -> bool {
    &&& m.release_date matches Some(d) ==> valid_date(d)
    &&& forall|i: int| 0 <= i < m.genres.len() ==> !(#[trigger] m.genres[i]).contains(',')
    &&& all_survive(m.cast) && all_survive(m.directors) && all_survive(m.producers)
    &&& all_survive(m.writers)
    &&& m.studio matches Some(name) ==> survives(name)
}

/// A title's tag gives back what it was built from: every field, with descriptions cut to their
/// limit, names and genres trimmed, roles dropped, a rating that is not known left out, and the
/// kind of video filled in; and the cover byte for byte. (A genre with a comma in it comes back as
/// two, and a name with an entity in it comes back changed.)
pub proof fn law_tag_reads_back(
    m: MetadataView,
    cover: Option<EncodedView>,
    size: Option<(u32, u32)>,
)
    requires
        reads_back(m),
    ensures
        metadata_in(tag_of(m, cover), size) == read_back(m, size),
        cover_in(tag_of(m, cover)) == (match cover {
            Some(c) => Some(c.bytes),
            None => None,
        }),
{
    let a = tag_of(m, cover);
    let w = metadata_in(a, size);
    let b = read_back(m, size);
    lemma_names_differ();
    if let Some(d) = m.release_date {
        law_date_round_trip(d);
    }
    if let Some(r) = m.content_rating {
        law_rating_round_trip(r);
    }
    law_csv_round_trip(m.genres);
    law_people_read_back(m);
    lemma_media_type_reads_back(m, cover);
    if let Some(d) = m.definition {
        assert(values_of(a, AtomKey::Code(DEFINITION))[0] == AtomValue::BeSigned(
            be_bytes(hdvd_of(d) as u32),
        ));
        assert(be_bytes(hdvd_of(d) as u32).last() == hdvd_of(d));
    }
    if nobody(m) {
        lemma_tidy_none(m);
    }
    assert(w.title == b.title);
    assert(w.release_date == b.release_date);
    assert(w.summary == b.summary);
    assert(w.overview == b.overview);
    if m.genres.len() == 0 {
        assert(tidy_words(m.genres) =~= Seq::<Seq<char>>::empty());
    }
    assert(w.genres =~= b.genres);
    assert(w.cast =~= b.cast);
    assert(w.directors =~= b.directors);
    assert(w.producers =~= b.producers);
    assert(w.writers =~= b.writers);
    assert(w.content_rating == b.content_rating);
    assert(w.studio == b.studio);
    assert(w.definition == b.definition);
    if let Some(c) = cover {
        let v = values_of(a, AtomKey::Code(ARTWORK));
        assert(v[0] == picture_value(c.format, c.bytes));
    }
}

proof fn lemma_media_type_reads_back(m: MetadataView, cover: Option<EncodedView>)
    ensures
        ({
            let n = media_type_of(tag_of(m, cover));
            n is Some && video_kind_of(n.unwrap()) == read_back(m, None).video_kind
        }),
{
    let v = values_of(tag_of(m, cover), AtomKey::Code(MEDIA_TYPE));
    let code = media_code(filed_under(m));
    assert(v[0] == AtomValue::Reserved(seq![code]));
    assert(first_bytes(v) == Some(seq![code]));
    assert(seq![code][0] == code);
}

proof fn lemma_tidy_none(m: MetadataView)
    requires
        nobody(m),
    ensures
        tidy(m.cast).len() == 0,
        tidy(m.directors).len() == 0,
        tidy(m.producers).len() == 0,
        tidy(m.writers).len() == 0,
{
}

/// Writing what was read back and reading it again changes nothing more.
pub proof fn law_reading_is_stable(m: MetadataView, size: Option<(u32, u32)>)
    ensures
        read_back(read_back(m, size), size) == read_back(m, size),
{
    let b = read_back(m, size);
    let c = read_back(b, size);
    lemma_tidy_words_twice(m.genres);
    lemma_tidy_twice(m.cast);
    lemma_tidy_twice(m.directors);
    lemma_tidy_twice(m.producers);
    lemma_tidy_twice(m.writers);
    if let Some(r) = m.content_rating {
        law_trim_is_idempotent(r);
    }
    if let Some(name) = m.studio {
        law_trim_is_idempotent(name);
    }
    assert(c.summary == b.summary);
}

// ---------------------------------------------------------------------------
// Changing a tag that is there
// ---------------------------------------------------------------------------

/// The codes of the atoms that a title's tag may hold, and of the one that gives way to the genre
/// in words.
pub open spec fn managed_codes() -> Seq<u32> {
    seq![
        TITLE,
        YEAR,
        DESCRIPTION,
        LONG_DESCRIPTION,
        GENRE,
        STANDARD_GENRE,
        PUBLISHER,
        MEDIA_TYPE,
        DEFINITION,
        ARTWORK,
        TV_SHOW,
        TV_NETWORK,
        TV_SEASON,
        TV_EPISODE,
        TV_EPISODE_ID,
    ]
}

/// Whether an atom is one of those that are written with a title. All others are left alone.
pub open spec fn managed(key: AtomKey) -> bool {
    match key {
        AtomKey::Code(code) => managed_codes().contains(code),
        AtomKey::Freeform(mean, name) => mean == ITUNES@ && (name == RATING_ATOM@ || name
            == PEOPLE_ATOM@),
    }
}

/// The atoms that are written with a title.
pub open spec fn managed_keys() -> Set<AtomKey> {
    Set::new(|key: AtomKey| managed(key))
}

/// `old` with the values of `new` under some names; nothing is left under those of them that have
/// no value in `new`.
pub open spec fn overlaid(
    old: Map<AtomKey, Seq<AtomValue>>,
    new: Map<AtomKey, Seq<AtomValue>>,
    keys: Set<AtomKey>,
) -> Map<AtomKey, Seq<AtomValue>> {
    Map::new(
        |key: AtomKey|
            if keys.contains(key) {
                values_of(new, key).len() > 0
            } else {
                old.contains_key(key)
            },
        |key: AtomKey|
            if keys.contains(key) {
                new[key]
            } else {
                old[key]
            },
    )
}

/// Takes over what another tag holds under a name.
fn take_over(
    dst: &mut Tag,
    src: &Tag,
    id: &AtomId,
    Ghost(old_atoms): Ghost<Map<AtomKey, Seq<AtomValue>>>,
    Ghost(keys): Ghost<Set<AtomKey>>,
)
    requires
        atoms(*old(dst)) == overlaid(old_atoms, atoms(*src), keys),
    ensures
        atoms(*final(dst)) == overlaid(old_atoms, atoms(*src), keys.insert(id@)),
{
    atoms::remove_data(dst, id);
    if atoms::first_data(src, id).is_some() {
        atoms::copy_data(dst, src, id);
    }
    assert(atoms(*dst) =~= overlaid(old_atoms, atoms(*src), keys.insert(id@)));
}

/// Overlays a newly built tag on the one that was read: every atom that is managed comes from the
/// new one, and every other stays as it is.
pub fn merge(dst: &mut Tag, src: Tag)
    ensures
        atoms(*final(dst)) == overlaid(atoms(*old(dst)), atoms(src), managed_keys()),
{
    let codes: Vec<u32> = vec![
        TITLE,
        YEAR,
        DESCRIPTION,
        LONG_DESCRIPTION,
        GENRE,
        STANDARD_GENRE,
        PUBLISHER,
        MEDIA_TYPE,
        DEFINITION,
        ARTWORK,
        TV_SHOW,
        TV_NETWORK,
        TV_SEASON,
        TV_EPISODE,
        TV_EPISODE_ID,
    ];
    assert(codes@ =~= managed_codes());
    let ghost before = atoms(*dst);
    let ghost mut keys: Set<AtomKey> = Set::empty();
    assert(atoms(*dst) =~= overlaid(before, atoms(src), keys));
    let mut i: usize = 0;
    while i < codes.len()
        invariant
            i <= codes@.len(),
            atoms(*dst) == overlaid(before, atoms(src), keys),
            forall|key: AtomKey| #[trigger]
                keys.contains(key) <==> (key matches AtomKey::Code(c) && codes@.take(
                    i as int,
                ).contains(c)),
        decreases codes@.len() - i,
    {
        let id = AtomId::Code(codes[i]);
        take_over(dst, &src, &id, Ghost(before), Ghost(keys));
        proof {
            let front = codes@.take(i as int);
            let longer = codes@.take(i + 1);
            assert(longer =~= front.push(codes@[i as int]));
            assert forall|key: AtomKey| #[trigger] keys.insert(id@).contains(key) <==> (key
                matches AtomKey::Code(c) && longer.contains(c)) by {
                if let AtomKey::Code(c) = key {
                    if front.contains(c) {
                        let k = choose|k: int| 0 <= k < front.len() && front[k] == c;
                        assert(longer[k] == c);
                    }
                    if longer.contains(c) && c != codes@[i as int] {
                        let k = choose|k: int| 0 <= k < longer.len() && longer[k] == c;
                        assert(front[k] == c);
                    }
                    assert(longer[i as int] == codes@[i as int]);
                }
            }
            keys = keys.insert(id@);
        }
        i += 1;
    }
    assert(codes@.take(i as int) =~= codes@);
    let rating = AtomId::Freeform { mean: ITUNES.to_string(), name: RATING_ATOM.to_string() };
    take_over(dst, &src, &rating, Ghost(before), Ghost(keys));
    let people = AtomId::Freeform { mean: ITUNES.to_string(), name: PEOPLE_ATOM.to_string() };
    take_over(dst, &src, &people, Ghost(before), Ghost(keys.insert(rating@)));
    assert(keys.insert(rating@).insert(people@) =~= managed_keys());
}

/// The atoms of a tag in which only the rating was set.
pub open spec fn with_rating(a: Map<AtomKey, Seq<AtomValue>>, rating: Seq<char>) -> Map<
    AtomKey,
    Seq<AtomValue>,
> {
    a.insert(itunes(RATING_ATOM@), seq![AtomValue::Utf8(encoded(rating).unwrap())])
}

/// Sets the rating in a tag, and leaves every other atom alone. Nothing is set where the rating is
/// not known; gives whether it is.
pub fn set_only_rating(tag: &mut Tag, rating: &str) -> (r: bool)
    ensures
        r <==> rating_named(trimmed(rating@)) is Some,
        r ==> atoms(*final(tag)) == with_rating(atoms(*old(tag)), rating@),
        !r ==> atoms(*final(tag)) == atoms(*old(tag)),
{
    match encode_itunextc(rating) {
        Some(text) => {
            set_itunes(tag, RATING_ATOM, text);
            true
        },
        None => false,
    }
}

/// What is read from a tag is read from the atoms that are managed.
proof fn lemma_reads_managed(
    a: Map<AtomKey, Seq<AtomValue>>,
    b: Map<AtomKey, Seq<AtomValue>>,
    size: Option<(u32, u32)>,
)
    requires
        forall|key: AtomKey| #[trigger] managed(key) ==> values_of(a, key) == values_of(b, key),
    ensures
        metadata_in(a, size) == metadata_in(b, size),
        cover_in(a) == cover_in(b),
{
    let codes = managed_codes();
    assert forall|i: int| 0 <= i < codes.len() implies values_of(a, AtomKey::Code(#[trigger] codes[i]))
        == values_of(b, AtomKey::Code(codes[i])) by {
        assert(managed(AtomKey::Code(codes[i])));
    }
    assert(codes[0] == TITLE && codes[1] == YEAR && codes[2] == DESCRIPTION && codes[3]
        == LONG_DESCRIPTION && codes[4] == GENRE && codes[5] == STANDARD_GENRE && codes[7]
        == MEDIA_TYPE && codes[8] == DEFINITION && codes[9] == ARTWORK);
    assert(managed(itunes(RATING_ATOM@)));
    assert(managed(itunes(PEOPLE_ATOM@)));
    let v = metadata_in(a, size);
    let w = metadata_in(b, size);
    assert(v.cast == w.cast && v.directors == w.directors && v.producers == w.producers);
    assert(v.writers == w.writers && v.genres == w.genres);
}

/// A title that is written into a file is read back from it, whatever the file held before: the
/// metadata as from a tag of its own, and the cover byte for byte.
pub proof fn law_saved_tag_reads_back(
    before: Map<AtomKey, Seq<AtomValue>>,
    m: MetadataView,
    cover: Option<EncodedView>,
    size: Option<(u32, u32)>,
)
    requires
        reads_back(m),
    ensures
        ({
            let after = overlaid(before, tag_of(m, cover), managed_keys());
            &&& metadata_in(after, size) == read_back(m, size)
            &&& cover_in(after) == (match cover {
                Some(c) => Some(c.bytes),
                None => None,
            })
        }),
{
    let new = tag_of(m, cover);
    let after = overlaid(before, new, managed_keys());
    assert forall|key: AtomKey| #[trigger] managed(key) implies values_of(after, key) == values_of(
        new,
        key,
    ) by {
        assert(managed_keys().contains(key));
    }
    lemma_reads_managed(after, new, size);
    law_tag_reads_back(m, cover, size);
}

/// Saving what was read from a file, with the cover that it has, changes nothing that is read from
/// it. (A summary that is too long is cut, a file without a kind of video is given one, a rating
/// that is not known is left out, and a name with an entity in it comes back changed.)
pub proof fn law_saving_what_was_read_changes_nothing(
    a: Map<AtomKey, Seq<AtomValue>>,
    size: Option<(u32, u32)>,
    cover: Option<EncodedView>,
)
    requires
        reads_back(metadata_in(a, size)),
        metadata_in(a, size).summary matches Some(s) ==> s.len() <= SUMMARY_LIMIT,
        metadata_in(a, size).video_kind is Some,
        metadata_in(a, size).content_rating matches Some(r) ==> rating_named(r) is Some,
        cover_in(a) == (match cover {
            Some(c) => Some(c.bytes),
            None => None,
        }),
    ensures
        ({
            let after = overlaid(a, tag_of(metadata_in(a, size), cover), managed_keys());
            metadata_in(after, size) == metadata_in(a, size) && cover_in(after) == cover_in(a)
        }),
{
    let m = metadata_in(a, size);
    law_saved_tag_reads_back(a, m, cover, size);
    if let Some(xml) = plain_text(values_of(a, itunes(PEOPLE_ATOM@))) {
        lemma_read_people_are_tidy(xml, "cast"@);
        lemma_read_people_are_tidy(xml, "directors"@);
        lemma_read_people_are_tidy(xml, "producers"@);
        lemma_read_people_are_tidy(xml, "screenwriters"@);
        lemma_read_string_is_trimmed(xml, "studio"@);
    }
    if let Some(g) = genre_in(a) {
        lemma_tidy_words_twice(pieces(g, ','));
    }
    if let Some(raw) = plain_text(values_of(a, itunes(RATING_ATOM@))) {
        law_trim_is_idempotent(raw);
        law_trim_is_idempotent(pieces(trimmed(raw), '|')[1]);
    }
}

/// Setting the rating of a file changes the rating and nothing else, whatever tag the file has:
/// every other atom stays as it is, those of an episode and those that are not managed among them,
/// and so do the other fields that are read, and the cover.
pub proof fn law_rating_is_all_that_changes(
    a: Map<AtomKey, Seq<AtomValue>>,
    size: Option<(u32, u32)>,
    rating: Seq<char>,
)
    requires
        rating_named(trimmed(rating)) is Some,
    ensures
        forall|key: AtomKey|
            key != itunes(RATING_ATOM@) ==> with_rating(a, rating).contains_key(key)
                == a.contains_key(key) && #[trigger] with_rating(a, rating)[key] == a[key],
        metadata_in(with_rating(a, rating), size) == (MetadataView {
            content_rating: Some(trimmed(rating)),
            ..metadata_in(a, size)
        }),
        cover_in(with_rating(a, rating)) == cover_in(a),
{
    let b = with_rating(a, rating);
    law_rating_round_trip(rating);
    lemma_names_differ();
    assert(values_of(b, itunes(PEOPLE_ATOM@)) == values_of(a, itunes(PEOPLE_ATOM@)));
    assert(values_of(b, itunes(RATING_ATOM@))[0] == AtomValue::Utf8(encoded(rating).unwrap()));
    assert forall|c: u32| #[trigger] values_of(b, AtomKey::Code(c)) == values_of(
        a,
        AtomKey::Code(c),
    ) by {}
    let v = metadata_in(b, size);
    let w = metadata_in(a, size);
    assert(v.cast == w.cast && v.directors == w.directors && v.producers == w.producers);
    assert(v.writers == w.writers && v.genres == w.genres && v.studio == w.studio);
}

// ---------------------------------------------------------------------------
// Laws of the atoms, by their names
// ---------------------------------------------------------------------------

/// The name of an atom, by its four letters.
pub open spec fn lettered(a: char, b: char, c: char, d: char) -> AtomKey {
    AtomKey::Code(
        (a as int * 0x100_0000 + b as int * 0x1_0000 + c as int * 0x100 + d as int) as u32,
    )
}

/// The text that an atom of a tag holds, where it holds one text and nothing else.
pub open spec fn lone_text(t: Map<AtomKey, Seq<AtomValue>>, key: AtomKey) -> Option<Seq<char>> {
    if t.contains_key(key) && t[key].len() == 1 {
        match t[key][0] {
            AtomValue::Utf8(s) => Some(s),
            _ => None,
        }
    } else {
        None
    }
}

/// The number that an atom of a tag holds, where it holds four bytes, the highest first, and
/// nothing else.
pub open spec fn lone_number(t: Map<AtomKey, Seq<AtomValue>>, key: AtomKey) -> Option<nat> {
    if t.contains_key(key) && t[key].len() == 1 {
        match t[key][0] {
            AtomValue::BeSigned(b) => if b.len() == 4 {
                Some(be32(b, 0))
            } else {
                None
            },
            _ => None,
        }
    } else {
        None
    }
}

proof fn lemma_letters()
    ensures
        lettered('©', 'n', 'a', 'm') == AtomKey::Code(TITLE),
        lettered('©', 'd', 'a', 'y') == AtomKey::Code(YEAR),
        lettered('d', 'e', 's', 'c') == AtomKey::Code(DESCRIPTION),
        lettered('l', 'd', 'e', 's') == AtomKey::Code(LONG_DESCRIPTION),
        lettered('©', 'g', 'e', 'n') == AtomKey::Code(GENRE),
        lettered('g', 'n', 'r', 'e') == AtomKey::Code(STANDARD_GENRE),
        lettered('©', 'p', 'u', 'b') == AtomKey::Code(PUBLISHER),
        lettered('s', 't', 'i', 'k') == AtomKey::Code(MEDIA_TYPE),
        lettered('h', 'd', 'v', 'd') == AtomKey::Code(DEFINITION),
        lettered('c', 'o', 'v', 'r') == AtomKey::Code(ARTWORK),
        lettered('t', 'v', 's', 'h') == AtomKey::Code(TV_SHOW),
        lettered('t', 'v', 'n', 'n') == AtomKey::Code(TV_NETWORK),
        lettered('t', 'v', 's', 'n') == AtomKey::Code(TV_SEASON),
        lettered('t', 'v', 'e', 's') == AtomKey::Code(TV_EPISODE),
        lettered('t', 'v', 'e', 'n') == AtomKey::Code(TV_EPISODE_ID),
{
}

proof fn lemma_number_reads_back(v: u32)
    ensures
        be_bytes(v).len() == 4,
        be32(be_bytes(v), 0) == v,
{
}

/// A title's tag holds the title as `©nam`, the date as `©day` in year, month and day, at most 255
/// characters of the summary as `desc`, the overview as `ldes`, the genres as `©gen` with commas
/// between, and the studio as `©pub`; what is not known has no atom.
pub proof fn law_texts_stand_under_their_names(m: MetadataView, cover: Option<EncodedView>)
    ensures
        ({
            let t = tag_of(m, cover);
            &&& lone_text(t, lettered('©', 'n', 'a', 'm')) == Some(m.title)
            &&& m.release_date matches Some(d) ==> lone_text(t, lettered('©', 'd', 'a', 'y'))
                == Some(iso_text(d))
            &&& m.release_date is None ==> !t.contains_key(lettered('©', 'd', 'a', 'y'))
            &&& m.summary matches Some(s) ==> (lone_text(t, lettered('d', 'e', 's', 'c'))
                matches Some(cut) && cut.len() <= 255 && cut.len() <= s.len() && cut == s.take(
                cut.len() as int,
            ) && (s.len() <= 255 ==> cut == s) && (s.len() > 255 ==> cut.len() == 255))
            &&& m.summary is None ==> !t.contains_key(lettered('d', 'e', 's', 'c'))
            &&& lone_text(t, lettered('l', 'd', 'e', 's')) == m.overview
            &&& m.overview is None ==> !t.contains_key(lettered('l', 'd', 'e', 's'))
            &&& m.genres.len() > 0 ==> lone_text(t, lettered('©', 'g', 'e', 'n')) == Some(
                joined(m.genres, seq![',', ' ']),
            )
            &&& m.genres.len() == 0 ==> !t.contains_key(lettered('©', 'g', 'e', 'n'))
            &&& lone_text(t, lettered('©', 'p', 'u', 'b')) == m.studio
            &&& m.studio is None ==> !t.contains_key(lettered('©', 'p', 'u', 'b'))
            &&& !t.contains_key(lettered('g', 'n', 'r', 'e'))
        }),
{
    lemma_letters();
    reveal_strlit(", ");
    assert(", "@ =~= seq![',', ' ']);
    if let Some(s) = m.summary {
        assert(s.take(s.len() as int) =~= s);
    }
}

/// A title's tag names the kind of video in one byte as `stik`: 0 for a home video, 6 for a music
/// video, 9 for a movie, 10 for television, 11 for a booklet; the user's choice where there is one,
/// else by whether the title is an episode. It names the definition as `hdvd`: 0 for SD, 1 for
/// 720p, 2 for 1080p, 3 for 4K. The cover stands as `covr`, marked with its format.
pub proof fn law_kind_and_cover_stand_under_their_names(
    m: MetadataView,
    cover: Option<EncodedView>,
    n: u8,
)
    requires
        n == (match m.video_kind {
            Some(VideoKind::HomeVideo) => 0u8,
            Some(VideoKind::MusicVideo) => 6,
            Some(VideoKind::Movie) => 9,
            Some(VideoKind::TvShow) => 10,
            Some(VideoKind::Booklet) => 11,
            None => if m.kind is Episode {
                10
            } else {
                9
            },
        }),
    ensures
        ({
            let t = tag_of(m, cover);
            let stik = lettered('s', 't', 'i', 'k');
            let covr = lettered('c', 'o', 'v', 'r');
            &&& t.contains_key(stik) && t[stik] == seq![AtomValue::Reserved(seq![n])]
            &&& lone_number(t, lettered('h', 'd', 'v', 'd')) == (match m.definition {
                Some(Definition::Sd) => Some(0nat),
                Some(Definition::Hd720) => Some(1),
                Some(Definition::Hd1080) => Some(2),
                Some(Definition::Uhd4k) => Some(3),
                None => None,
            })
            &&& m.definition is None ==> !t.contains_key(lettered('h', 'd', 'v', 'd'))
            &&& cover is None ==> !t.contains_key(covr)
            &&& cover matches Some(c) ==> t.contains_key(covr) && t[covr] == seq![
                match c.format {
                    crate::artwork::ArtworkFormat::Jpeg => AtomValue::Jpeg(c.bytes),
                    crate::artwork::ArtworkFormat::Png => AtomValue::Png(c.bytes),
                },
            ]
        }),
{
    lemma_letters();
    if let Some(d) = m.definition {
        lemma_number_reads_back(hdvd_of(d) as u32);
    }
}

/// Whether a text is a number, an `x`, and a number of at least two digits.
pub open spec fn pairs(text: Seq<char>, before: nat, behind: nat) -> bool {
    exists|i: int|
        0 < i < text.len() && #[trigger] text[i] == 'x' && all_digits(text.take(i)) && digits_value(
            text.take(i),
        ) == before && all_digits(text.skip(i + 1)) && text.skip(i + 1).len() >= 2 && digits_value(
            text.skip(i + 1),
        ) == behind
}

/// An episode's tag holds the show as `tvsh`, the network as `tvnn`, the season as `tvsn` and the
/// episode as `tves`; and as `tven` the season in front of an `x`, and the episode behind it in two
/// digits at least. A movie's tag holds none of these.
pub proof fn law_episode_stands_under_its_names(m: MetadataView, cover: Option<EncodedView>)
    ensures
        ({
            let t = tag_of(m, cover);
            match m.kind {
                KindView::Episode(e) => {
                    &&& lone_text(t, lettered('t', 'v', 's', 'h')) == Some(e.show_name)
                    &&& lone_text(t, lettered('t', 'v', 'n', 'n')) == e.network
                    &&& e.network is None ==> !t.contains_key(lettered('t', 'v', 'n', 'n'))
                    &&& lone_number(t, lettered('t', 'v', 's', 'n')) == Some(e.season as nat)
                    &&& lone_number(t, lettered('t', 'v', 'e', 's')) == Some(e.episode as nat)
                    &&& lone_text(t, lettered('t', 'v', 'e', 'n')) matches Some(text) && pairs(
                        text,
                        e.season as nat,
                        e.episode as nat,
                    )
                },
                KindView::Movie => !t.contains_key(lettered('t', 'v', 's', 'h'))
                    && !t.contains_key(lettered('t', 'v', 'n', 'n')) && !t.contains_key(
                    lettered('t', 'v', 's', 'n'),
                ) && !t.contains_key(lettered('t', 'v', 'e', 's')) && !t.contains_key(
                    lettered('t', 'v', 'e', 'n'),
                ),
            }
        }),
{
    lemma_letters();
    if let KindView::Episode(e) = m.kind {
        lemma_number_reads_back(e.season);
        lemma_number_reads_back(e.episode);
        let text = episode_code(e.season, e.episode);
        let front = decimal(e.season as nat);
        let back = two_digits(e.episode as nat);
        lemma_decimal_value(e.season as nat);
        lemma_decimal_value(e.episode as nat);
        reveal_strlit("x");
        let i = front.len() as int;
        assert(text[i] == 'x');
        assert(text.take(i) =~= front);
        assert(text.skip(i + 1) =~= back);
        assert(all_digits(back) && digits_value(back) == e.episode && back.len() >= 2) by {
            if e.episode < 10 {
                reveal_with_fuel(digits_value, 3);
                assert(back.drop_last() =~= seq!['0']);
                assert(seq!['0'].drop_last() =~= Seq::<char>::empty());
                assert(back.last() == digit(e.episode as nat));
            } else {
                assert(decimal(e.episode as nat).len() >= 2) by {
                    reveal_with_fuel(decimal, 2);
                }
            }
        }
    }
}

/// The rating stands as `iTunEXTC` and the people as `iTunMOVI`, both under iTunes' own domain; a
/// rating that is not known has no atom, and neither have people that are not known.
pub proof fn law_rating_and_people_stand_under_their_names(
    m: MetadataView,
    cover: Option<EncodedView>,
)
    ensures
        ({
            let t = tag_of(m, cover);
            let rating = AtomKey::Freeform("com.apple.iTunes"@, "iTunEXTC"@);
            let people = AtomKey::Freeform("com.apple.iTunes"@, "iTunMOVI"@);
            let written = match m.content_rating {
                Some(r) => encoded(r),
                None => None,
            };
            let anyone = m.cast.len() > 0 || m.directors.len() > 0 || m.producers.len() > 0
                || m.writers.len() > 0 || m.studio is Some;
            &&& t.contains_key(rating) <==> written is Some
            &&& lone_text(t, rating) == written
            &&& t.contains_key(people) <==> anyone
            &&& anyone ==> lone_text(t, people) == Some(people_list(m))
            &&& forall|key: AtomKey| #[trigger]
                t.contains_key(key) && key is Freeform ==> key == rating || key == people
        }),
{
    lemma_names_differ();
}

/// A title in which everything is known.
spec fn full_title() -> MetadataView {
    MetadataView {
        title: Seq::empty(),
        release_date: Some(crate::model::Date { year: 2000, month: 1, day: 1 }),
        summary: Some(Seq::empty()),
        overview: Some(Seq::empty()),
        genres: seq![Seq::empty()],
        cast: Seq::empty(),
        directors: Seq::empty(),
        producers: Seq::empty(),
        writers: Seq::empty(),
        content_rating: Some("G"@),
        studio: Some(Seq::empty()),
        video_kind: None,
        definition: Some(Definition::Sd),
        artwork: Seq::empty(),
        kind: KindView::Episode(
            crate::model::EpisodeView {
                show_name: Seq::empty(),
                season: 1,
                episode: 1,
                episode_title: None,
                network: Some(Seq::empty()),
                episode_id: None,
            },
        ),
    }
}

/// Whether a title can be written that has an atom of this name.
pub open spec fn writable(key: AtomKey) -> bool {
    exists|m: MetadataView, cover: Option<EncodedView>| #[trigger]
        tag_of(m, cover).contains_key(key)
}

/// Writing a title into a file that has a tag replaces exactly the atoms that titles are written
/// in: each of them is as in the title's own tag, or gone where that has none, and so is the genre
/// as a number from a list. Every other atom stays as it is.
pub proof fn law_merging_replaces_what_titles_hold(
    before: Map<AtomKey, Seq<AtomValue>>,
    m: MetadataView,
    cover: Option<EncodedView>,
    key: AtomKey,
)
    ensures
        ({
            let after = overlaid(before, tag_of(m, cover), managed_keys());
            if writable(key) || key == lettered('g', 'n', 'r', 'e') {
                &&& after.contains_key(key) == tag_of(m, cover).contains_key(key)
                &&& values_of(after, key) == values_of(tag_of(m, cover), key)
            } else {
                &&& after.contains_key(key) == before.contains_key(key)
                &&& values_of(after, key) == values_of(before, key)
            }
        }),
{
    lemma_letters();
    lemma_names_differ();
    let new = tag_of(m, cover);
    let full = full_title();
    let picture = Some(
        EncodedView { format: crate::artwork::ArtworkFormat::Png, bytes: Seq::empty() },
    );
    assert(managed_keys().contains(key) == managed(key));
    if managed(key) && key != AtomKey::Code(STANDARD_GENRE) {
        crate::rating::law_grades_are_written_by_system(0);
        assert(encoded(crate::rating::movie_grades()[0]) is Some);
        assert(crate::rating::movie_grades()[0] == "G"@);
        if let AtomKey::Code(code) = key {
            let i = choose|i: int| 0 <= i < managed_codes().len() && managed_codes()[i] == code;
            assert(tag_value(full, picture, key) is Some);
        }
        assert(tag_of(full, picture).contains_key(key));
        assert(writable(key));
    }
    if writable(key) {
        let (m2, c2) = choose|m2: MetadataView, c2: Option<EncodedView>| #[trigger]
            tag_of(m2, c2).contains_key(key);
        assert(tag_value(m2, c2, key) is Some);
        if let AtomKey::Code(code) = key {
            let codes = managed_codes();
            assert(codes[0] == TITLE && codes[1] == YEAR && codes[2] == DESCRIPTION && codes[3]
                == LONG_DESCRIPTION && codes[4] == GENRE && codes[6] == PUBLISHER && codes[7]
                == MEDIA_TYPE && codes[8] == DEFINITION && codes[9] == ARTWORK && codes[10]
                == TV_SHOW && codes[11] == TV_NETWORK && codes[12] == TV_SEASON && codes[13]
                == TV_EPISODE && codes[14] == TV_EPISODE_ID);
            assert(codes.contains(code));
        }
    }
    if key == AtomKey::Code(STANDARD_GENRE) {
        assert(managed_codes()[5] == STANDARD_GENRE);
    }
    assert(new.contains_key(key) ==> values_of(new, key).len() == 1);
}

/// The definition that a tag names is taken whatever the size of the video; only where it names
/// none is it worked out from the size, and then from nothing else.
pub proof fn law_named_definition_wins(
    a: Map<AtomKey, Seq<AtomValue>>,
    b: Map<AtomKey, Seq<AtomValue>>,
    n: u8,
    size: Option<(u32, u32)>,
)
    requires
        a.contains_key(lettered('h', 'd', 'v', 'd')),
        a[lettered('h', 'd', 'v', 'd')].len() > 0,
        a[lettered('h', 'd', 'v', 'd')][0] matches AtomValue::BeSigned(v) && v.len() > 0 && v.last()
            == n,
        n <= 3,
        !b.contains_key(lettered('h', 'd', 'v', 'd')),
    ensures
        metadata_in(a, size).definition == metadata_in(a, None).definition,
        metadata_in(a, size).definition == Some(
            if n == 0 {
                Definition::Sd
            } else if n == 1 {
                Definition::Hd720
            } else if n == 2 {
                Definition::Hd1080
            } else {
                Definition::Uhd4k
            },
        ),
        metadata_in(b, size).definition is Some <==> size is Some,
        size matches Some((w, h)) ==> metadata_in(b, size).definition == Some(definition_for(w, h)),
{
    lemma_letters();
}

/// What a tag says is read from the atom of that name: the first text of `©nam` and `desc`, the
/// text of `ldes`, the kind in `stik`, and the picture in `covr`.
pub proof fn law_texts_are_read_from_their_names(
    a: Map<AtomKey, Seq<AtomValue>>,
    size: Option<(u32, u32)>,
    text: Seq<char>,
    n: u8,
    picture: Seq<u8>,
)
    ensures
        ({
            let r = metadata_in(a, size);
            &&& lone_text(a, lettered('©', 'n', 'a', 'm')) == Some(text) ==> r.title == text
            &&& !a.contains_key(lettered('©', 'n', 'a', 'm')) ==> r.title.len() == 0
            &&& lone_text(a, lettered('d', 'e', 's', 'c')) == Some(text) ==> r.summary == Some(text)
            &&& !a.contains_key(lettered('d', 'e', 's', 'c')) ==> r.summary is None
            &&& lone_text(a, lettered('l', 'd', 'e', 's')) == Some(text) ==> r.overview == Some(
                text,
            )
            &&& !a.contains_key(lettered('l', 'd', 'e', 's')) ==> r.overview is None
            &&& a.contains_key(lettered('s', 't', 'i', 'k')) && a[lettered('s', 't', 'i', 'k')]
                == seq![AtomValue::Reserved(seq![n])] ==> r.video_kind == (if n == 0 {
                Some(VideoKind::HomeVideo)
            } else if n == 6 {
                Some(VideoKind::MusicVideo)
            } else if n == 9 {
                Some(VideoKind::Movie)
            } else if n == 10 {
                Some(VideoKind::TvShow)
            } else if n == 11 {
                Some(VideoKind::Booklet)
            } else {
                None
            })
            &&& a.contains_key(lettered('c', 'o', 'v', 'r')) && (a[lettered('c', 'o', 'v', 'r')]
                == seq![AtomValue::Jpeg(picture)] || a[lettered('c', 'o', 'v', 'r')]
                == seq![AtomValue::Png(picture)]) ==> cover_in(a) == Some(picture)
            &&& !a.contains_key(lettered('c', 'o', 'v', 'r')) ==> cover_in(a) is None
        }),
{
    lemma_letters();
    let stik = values_of(a, lettered('s', 't', 'i', 'k'));
    if stik == seq![AtomValue::Reserved(seq![n])] {
        assert(stik[0] == AtomValue::Reserved(seq![n]));
        assert(first_bytes(stik) == Some(seq![n]));
        assert(seq![n][0] == n);
    }
    let covr = values_of(a, lettered('c', 'o', 'v', 'r'));
    if covr == seq![AtomValue::Jpeg(picture)] {
        assert(covr[0] == AtomValue::Jpeg(picture));
    }
    if covr == seq![AtomValue::Png(picture)] {
        assert(covr[0] == AtomValue::Png(picture));
    }
}

// ---------------------------------------------------------------------------
// Saving
// ---------------------------------------------------------------------------

/// Which pass of a save is at work.
#[derive(Clone, Copy, Debug, PartialEq, Eq, Structural)]
pub enum WritePhase {
    /// The file is copied aside.
    Copying,
    /// The copy is brought into the wanted layout.
    Optimizing,
}

/// The name of a pass.
pub open spec fn phase_label(p: WritePhase) -> Seq<char> {
    match p {
        WritePhase::Copying => "Copying"@,
        WritePhase::Optimizing => "Optimizing layout"@,
    }
}

impl WritePhase {
    /// The name of the pass, for a status line.
    pub fn label(self) -> (r: &'static str)
        ensures
            r@ == phase_label(self),
    {
        match self {
            WritePhase::Copying => "Copying",
            WritePhase::Optimizing => "Optimizing layout",
        }
    }
}

/// One step of saving a tag.
#[derive(Clone, Copy, Debug, PartialEq, Eq, Structural)]
pub enum SaveStep {
    /// Write the tag into the file itself.
    TagInPlace,
    /// Copy the file to the first temporary file.
    Copy,
    /// Write the tag into the first temporary file.
    TagCopy,
    /// Rewrite the first temporary file into the second with `moov` first.
    MoovFirst,
    /// Rewrite the first temporary file into the second with `moov` last.
    MoovLast,
    /// Move the second temporary file over the first.
    TakeRewritten,
    /// Move the first temporary file over the file.
    Replace,
    /// Remove both temporary files, and report the error.
    CleanUp,
    /// Report the error; there is nothing to clean up.
    Failed,
    /// All is done.
    Done,
}

/// How a step of saving ended.
#[derive(Clone, Copy, Debug, PartialEq, Eq, Structural)]
pub enum StepOutcome {
    /// It succeeded.
    Worked,
    /// It succeeded, and there was nothing to rewrite.
    Unchanged,
    /// It failed.
    Broke,
}

/// The first step of saving a file that is or is not laid out for streaming, if the layout is
/// wanted or not wanted: in place where the layout is right already.
pub open spec fn first_step(currently_fast: bool, fast_start: bool) -> SaveStep {
    if fast_start == currently_fast {
        SaveStep::TagInPlace
    } else {
        SaveStep::Copy
    }
}

/// The step that follows.
pub open spec fn step_after(step: SaveStep, fast_start: bool, outcome: StepOutcome) -> SaveStep {
    match step {
        SaveStep::TagInPlace => if outcome == StepOutcome::Broke {
            SaveStep::Failed
        } else {
            SaveStep::Done
        },
        SaveStep::CleanUp => SaveStep::Failed,
        SaveStep::Failed => SaveStep::Failed,
        SaveStep::Done => SaveStep::Done,
        _ => if outcome == StepOutcome::Broke {
            SaveStep::CleanUp
        } else if step == SaveStep::Copy {
            SaveStep::TagCopy
        } else if step == SaveStep::TagCopy {
            if fast_start {
                SaveStep::MoovFirst
            } else {
                SaveStep::MoovLast
            }
        } else if step == SaveStep::MoovFirst || step == SaveStep::MoovLast {
            if outcome == StepOutcome::Unchanged {
                SaveStep::Replace
            } else {
                SaveStep::TakeRewritten
            }
        } else if step == SaveStep::TakeRewritten {
            SaveStep::Replace
        } else {
            SaveStep::Done
        },
    }
}

/// The first step of saving a file.
pub fn begin_save(currently_fast: bool, fast_start: bool) -> (r: SaveStep)
    ensures
        r == first_step(currently_fast, fast_start),
{
    if fast_start == currently_fast {
        SaveStep::TagInPlace
    } else {
        SaveStep::Copy
    }
}

/// The step of saving that follows.
pub fn next_save_step(step: SaveStep, fast_start: bool, outcome: StepOutcome) -> (r: SaveStep)
    ensures
        r == step_after(step, fast_start, outcome),
{
    let failed = match outcome {
        StepOutcome::Broke => true,
        _ => false,
    };
    match step {
        SaveStep::TagInPlace => if failed {
            SaveStep::Failed
        } else {
            SaveStep::Done
        },
        SaveStep::CleanUp => SaveStep::Failed,
        SaveStep::Failed => SaveStep::Failed,
        SaveStep::Done => SaveStep::Done,
        SaveStep::Copy => if failed {
            SaveStep::CleanUp
        } else {
            SaveStep::TagCopy
        },
        SaveStep::TagCopy => if failed {
            SaveStep::CleanUp
        } else if fast_start {
            SaveStep::MoovFirst
        } else {
            SaveStep::MoovLast
        },
        SaveStep::MoovFirst | SaveStep::MoovLast => match outcome {
            StepOutcome::Broke => SaveStep::CleanUp,
            StepOutcome::Unchanged => SaveStep::Replace,
            StepOutcome::Worked => SaveStep::TakeRewritten,
        },
        SaveStep::TakeRewritten => if failed {
            SaveStep::CleanUp
        } else {
            SaveStep::Replace
        },
        SaveStep::Replace => if failed {
            SaveStep::CleanUp
        } else {
            SaveStep::Done
        },
    }
}

/// Whether a step writes to the file itself rather than to a temporary one.
pub open spec fn touches_file(step: SaveStep) -> bool {
    step == SaveStep::TagInPlace || step == SaveStep::Replace
}

/// The steps of a save whose outcomes these are, as long as they go on.
pub open spec fn steps_of(first: SaveStep, fast_start: bool, outcomes: Seq<StepOutcome>) -> SaveStep
    decreases outcomes.len(),
{
    if outcomes.len() == 0 {
        first
    } else {
        step_after(
            steps_of(first, fast_start, outcomes.drop_last()),
            fast_start,
            outcomes.last(),
        )
    }
}

/// A save that changes the layout touches the file in its last step only: whenever the step is to
/// replace the file, every step before it succeeded, and success is reported right after. A save
/// ends after at most six steps, whatever fails.
pub proof fn law_file_is_replaced_last(
    currently_fast: bool,
    fast_start: bool,
    outcomes: Seq<StepOutcome>,
)
    requires
        currently_fast != fast_start,
    ensures
        ({
            let step = steps_of(first_step(currently_fast, fast_start), fast_start, outcomes);
            &&& touches_file(step) ==> forall|i: int|
                0 <= i < outcomes.len() ==> #[trigger] outcomes[i] != StepOutcome::Broke
            &&& touches_file(step) ==> step_after(step, fast_start, StepOutcome::Worked)
                == SaveStep::Done
            &&& step == SaveStep::Done ==> outcomes.len() >= 4
            &&& outcomes.len() >= 6 ==> step == SaveStep::Done || step == SaveStep::Failed
        }),
    decreases outcomes.len(),
{
    let first = first_step(currently_fast, fast_start);
    lemma_save_progress(first, fast_start, outcomes);
}

/// Where a save stands after some outcomes.
proof fn lemma_save_progress(first: SaveStep, fast_start: bool, outcomes: Seq<StepOutcome>)
    requires
        first == SaveStep::Copy,
    ensures
        ({
            let step = steps_of(first, fast_start, outcomes);
            let n = outcomes.len();
            &&& step != SaveStep::CleanUp && step != SaveStep::Failed && step != SaveStep::Done
                ==> forall|i: int|
                0 <= i < outcomes.len() ==> #[trigger] outcomes[i] != StepOutcome::Broke
            &&& step != SaveStep::TagInPlace
            &&& step == SaveStep::Copy ==> n == 0
            &&& step == SaveStep::TagCopy ==> n == 1
            &&& step == SaveStep::MoovFirst || step == SaveStep::MoovLast ==> n == 2
            &&& step == SaveStep::TakeRewritten ==> n == 3
            &&& step == SaveStep::Replace ==> n == 3 || n == 4
            &&& step == SaveStep::Done ==> n >= 4
            &&& step == SaveStep::CleanUp ==> n <= 5
        }),
    decreases outcomes.len(),
{
    if outcomes.len() > 0 {
        let init = outcomes.drop_last();
        lemma_save_progress(first, fast_start, init);
        let step = steps_of(first, fast_start, outcomes);
        if step != SaveStep::CleanUp && step != SaveStep::Failed && step != SaveStep::Done {
            assert forall|i: int| 0 <= i < outcomes.len() implies #[trigger] outcomes[i]
                != StepOutcome::Broke by {
                if i < outcomes.len() - 1 {
                    assert(init[i] == outcomes[i]);
                }
            }
        }
    }
}

/// A file that is laid out as it is wanted is written in place: no copy is made, and the media does
/// not move.
pub proof fn law_right_layout_is_saved_in_place(fast_start: bool, outcomes: Seq<StepOutcome>)
    requires
        outcomes.len() > 0,
    ensures
        first_step(fast_start, fast_start) == SaveStep::TagInPlace,
        ({
            let step = steps_of(SaveStep::TagInPlace, fast_start, outcomes);
            step == SaveStep::Done || step == SaveStep::Failed
        }),
    decreases outcomes.len(),
{
    let init = outcomes.drop_last();
    if init.len() > 0 {
        law_right_layout_is_saved_in_place(fast_start, init);
    } else {
        assert(steps_of(SaveStep::TagInPlace, fast_start, init) == SaveStep::TagInPlace);
    }
}

/// A file that was rewritten for streaming is written in place the next time it is to be laid out
/// so. (Where `moov` or `ftyp` says that it reaches to the end of the file, it would swallow what
/// is put behind it.)
pub proof fn law_streaming_layout_is_made_once(data: Seq<u8>, bs: Seq<BoxAt>, plan: PlanAt)
    requires
        boxes_of(data) == Some(bs),
        plan_first(bs) == Some(plan),
        headers_fit(data, bs),
        be32(data, plan.moov.start) != 0,
        first_of(bs, FTYP as nat) matches Some(i) ==> be32(data, bs[i].start) != 0,
    ensures
        boxes_of(rewritten(data, plan)) matches Some(out) && first_step(movie_first(out), true)
            == SaveStep::TagInPlace,
{
    law_moov_first_gives_fast_start(data, bs, plan);
}

/// A file whose only `moov` was moved to the end is written in place the next time it is to be laid
/// out so.
pub proof fn law_plain_layout_is_made_once(data: Seq<u8>, bs: Seq<BoxAt>, plan: PlanAt)
    requires
        boxes_of(data) == Some(bs),
        plan_last(bs) == Some(plan),
        headers_fit(data, bs),
        forall|i: int, j: int|
            0 <= i < bs.len() && 0 <= j < bs.len() && (#[trigger] bs[i]).code == MOOV && (
            #[trigger] bs[j]).code == MOOV ==> i == j,
    ensures
        boxes_of(rewritten(data, plan)) matches Some(out) && first_step(movie_first(out), false)
            == SaveStep::TagInPlace,
{
    law_moov_last_ends_fast_start(data, bs, plan);
}

/// The name of the first temporary file beside a file of this name.
pub open spec fn temp_name(file_name: Option<Seq<char>>) -> Seq<char> {
    "."@ + (match file_name {
        Some(n) => n,
        None => "tagtiger"@,
    }) + ".tagtiger.tmp"@
}

/// The names of the two temporary files beside a file of this name.
pub fn temp_names(file_name: Option<&str>) -> (r: (String, String))
    ensures
        r.0@ == temp_name(
            match file_name {
                Some(n) => Some(n@),
                None => None,
            },
        ),
        r.1@ == r.0@ + "2"@,
{
    let name = match file_name {
        Some(n) => n,
        None => "tagtiger",
    };
    let first = ".".to_string().concat(name).concat(".tagtiger.tmp");
    let second = ".".to_string().concat(name).concat(".tagtiger.tmp").concat("2");
    (first, second)
}

/// The date, the genres and the rating are read from their atoms too: the text of the date as a
/// date or, failing that, as a year; the text of the genres split at its commas, unless a standard
/// genre stands beside it; the rating from between the bars.
pub proof fn law_date_genres_and_rating_are_read(
    a: Map<AtomKey, Seq<AtomValue>>,
    size: Option<(u32, u32)>,
    text: Seq<char>,
)
    ensures
        ({
            let r = metadata_in(a, size);
            let rating = AtomKey::Freeform("com.apple.iTunes"@, "iTunEXTC"@);
            let people = AtomKey::Freeform("com.apple.iTunes"@, "iTunMOVI"@);
            &&& lone_text(a, lettered('©', 'd', 'a', 'y')) == Some(text) ==> r.release_date
                == release_date_of(date_in(text), text)
            &&& !a.contains_key(lettered('©', 'd', 'a', 'y')) ==> r.release_date is None
            &&& lone_text(a, lettered('©', 'g', 'e', 'n')) == Some(text) && !a.contains_key(
                lettered('g', 'n', 'r', 'e'),
            ) ==> r.genres == csv(text)
            &&& !a.contains_key(lettered('©', 'g', 'e', 'n')) && !a.contains_key(
                lettered('g', 'n', 'r', 'e'),
            ) ==> r.genres.len() == 0
            &&& lone_text(a, rating) == Some(text) ==> r.content_rating == decoded(text)
            &&& !a.contains_key(rating) ==> r.content_rating is None
            &&& lone_text(a, people) == Some(text) ==> r.cast == people_after(text, "cast"@)
                && r.directors == people_after(text, "directors"@) && r.producers == people_after(
                text,
                "producers"@,
            ) && r.writers == people_after(text, "screenwriters"@) && r.studio == string_after(
                text,
                "studio"@,
            )
            &&& !a.contains_key(people) ==> r.cast.len() == 0 && r.directors.len() == 0
                && r.producers.len() == 0 && r.writers.len() == 0 && r.studio is None
        }),
{
    assert('©' as int == 0xa9 && 'd' as int == 0x64 && 'a' as int == 0x61 && 'y' as int == 0x79);
    assert('g' as int == 0x67 && 'e' as int == 0x65 && 'n' as int == 0x6e && 'r' as int == 0x72);
}

/// A save whose steps all work tags a copy, moves its `moov` to the front or to the end as was
/// asked for, and puts the result in the place of the file; where nothing had to be moved, the
/// tagged copy itself goes there.
pub proof fn law_steps_lead_to_the_asked_layout(fast_start: bool)
    ensures
        first_step(!fast_start, fast_start) == SaveStep::Copy,
        step_after(SaveStep::Copy, fast_start, StepOutcome::Worked) == SaveStep::TagCopy,
        step_after(SaveStep::TagCopy, true, StepOutcome::Worked) == SaveStep::MoovFirst,
        step_after(SaveStep::TagCopy, false, StepOutcome::Worked) == SaveStep::MoovLast,
        step_after(SaveStep::MoovFirst, fast_start, StepOutcome::Worked) == SaveStep::TakeRewritten,
        step_after(SaveStep::MoovLast, fast_start, StepOutcome::Worked) == SaveStep::TakeRewritten,
        step_after(SaveStep::MoovFirst, fast_start, StepOutcome::Unchanged) == SaveStep::Replace,
        step_after(SaveStep::MoovLast, fast_start, StepOutcome::Unchanged) == SaveStep::Replace,
        step_after(SaveStep::TakeRewritten, fast_start, StepOutcome::Worked) == SaveStep::Replace,
        step_after(SaveStep::Replace, fast_start, StepOutcome::Worked) == SaveStep::Done,
        step_after(SaveStep::TagInPlace, fast_start, StepOutcome::Worked) == SaveStep::Done,
{
}

/// A step that breaks ends the save in failure: on the file itself at once, on copies after they
/// were cleaned up.
pub proof fn law_broken_steps_end_in_failure(step: SaveStep, fast_start: bool, outcome: StepOutcome)
    ensures
        step_after(SaveStep::TagInPlace, fast_start, StepOutcome::Broke) == SaveStep::Failed,
        step == SaveStep::Copy || step == SaveStep::TagCopy || step == SaveStep::MoovFirst || step
            == SaveStep::MoovLast || step == SaveStep::TakeRewritten || step == SaveStep::Replace
            ==> step_after(step, fast_start, StepOutcome::Broke) == SaveStep::CleanUp,
        step_after(SaveStep::CleanUp, fast_start, outcome) == SaveStep::Failed,
        step_after(SaveStep::Failed, fast_start, outcome) == SaveStep::Failed,
        step_after(SaveStep::Done, fast_start, outcome) == SaveStep::Done,
{
}

/// A copy is hidden beside its file under the file's own name, so that the copies of two files with
/// different names have different names.
pub proof fn law_copies_are_named_after_their_files(a: Seq<char>, b: Seq<char>)
    ensures
        temp_name(Some(a)) == "."@ + a + ".tagtiger.tmp"@,
        temp_name(None) == "."@ + "tagtiger"@ + ".tagtiger.tmp"@,
        a != b ==> temp_name(Some(a)) != temp_name(Some(b)),
        phase_label(WritePhase::Copying) == "Copying"@,
        phase_label(WritePhase::Optimizing) == "Optimizing layout"@,
{
    reveal_strlit(".");
    reveal_strlit(".tagtiger.tmp");
    let x = temp_name(Some(a));
    let y = temp_name(Some(b));
    if x == y {
        let n = ".tagtiger.tmp"@.len();
        assert(x.subrange(1, x.len() - n) =~= a);
        assert(y.subrange(1, y.len() - n) =~= b);
    }
}

} // verus!
