//! The atoms of a file's tag, kept in mp4ameta's `Tag`.

use crate::artwork::ArtworkFormat;
use mp4ameta::{Data, DataIdent, Img, ImgFmt, Tag};
use vstd::prelude::*;

verus! {

/// mp4ameta's `Tag`.
#[verifier::external_type_specification]
#[verifier::external_body]
pub struct ExTag(mp4ameta::Tag);

/// What an atom is called: a code of four bytes, or a reverse domain and a name of its own.
#[derive(Debug)]
pub enum AtomId {
    Code(u32),
    Freeform { mean: String, name: String },
}

/// What an atom is called, as text and numbers.
pub enum AtomKey {
    Code(u32),
    Freeform(Seq<char>, Seq<char>),
}

impl View for AtomId {
    type V = AtomKey;

    open spec fn view(&self) -> AtomKey {
        match self {
            AtomId::Code(c) => AtomKey::Code(*c),
            AtomId::Freeform { mean, name } => AtomKey::Freeform(mean@, name@),
        }
    }
}

/// What an atom holds, by its type code.
#[derive(Debug)]
pub enum AtomData {
    Reserved(Vec<u8>),
    Utf8(String),
    Utf16(String),
    Jpeg(Vec<u8>),
    Png(Vec<u8>),
    Bmp(Vec<u8>),
    BeSigned(Vec<u8>),
    Unknown { code: u32, data: Vec<u8> },
}

/// What an atom holds, as text and bytes.
pub enum AtomValue {
    Reserved(Seq<u8>),
    Utf8(Seq<char>),
    Utf16(Seq<char>),
    Jpeg(Seq<u8>),
    Png(Seq<u8>),
    Bmp(Seq<u8>),
    BeSigned(Seq<u8>),
    Unknown(u32, Seq<u8>),
}

impl View for AtomData {
    type V = AtomValue;

    open spec fn view(&self) -> AtomValue {
        match self {
            AtomData::Reserved(v) => AtomValue::Reserved(v@),
            AtomData::Utf8(s) => AtomValue::Utf8(s@),
            AtomData::Utf16(s) => AtomValue::Utf16(s@),
            AtomData::Jpeg(v) => AtomValue::Jpeg(v@),
            AtomData::Png(v) => AtomValue::Png(v@),
            AtomData::Bmp(v) => AtomValue::Bmp(v@),
            AtomData::BeSigned(v) => AtomValue::BeSigned(v@),
            AtomData::Unknown { code, data } => AtomValue::Unknown(*code, data@),
        }
    }
}

/// The values of a tag's atoms: for each name, those of the first atom that has it.
pub uninterp spec fn atoms(tag: mp4ameta::Tag) -> Map<AtomKey, Seq<AtomValue>>;

/// The first text among the values.
pub open spec fn first_text(values: Seq<AtomValue>) -> Option<Seq<char>>
    decreases values.len(),
{
    if values.len() == 0 {
        None
    } else {
        match values[0] {
            AtomValue::Utf8(s) => Some(s),
            AtomValue::Utf16(s) => Some(s),
            _ => first_text(values.drop_first()),
        }
    }
}

/// The first raw bytes among the values.
pub open spec fn first_bytes(values: Seq<AtomValue>) -> Option<Seq<u8>>
    decreases values.len(),
{
    if values.len() == 0 {
        None
    } else {
        match values[0] {
            AtomValue::Reserved(v) => Some(v),
            AtomValue::BeSigned(v) => Some(v),
            _ => first_bytes(values.drop_first()),
        }
    }
}

/// The first picture among the values.
pub open spec fn first_picture(values: Seq<AtomValue>) -> Option<Seq<u8>>
    decreases values.len(),
{
    if values.len() == 0 {
        None
    } else {
        match values[0] {
            AtomValue::Jpeg(v) => Some(v),
            AtomValue::Png(v) => Some(v),
            AtomValue::Bmp(v) => Some(v),
            _ => first_picture(values.drop_first()),
        }
    }
}

/// The values under a name; none where no atom has it.
pub open spec fn values_of(m: Map<AtomKey, Seq<AtomValue>>, key: AtomKey) -> Seq<AtomValue> {
    if m.contains_key(key) {
        m[key]
    } else {
        Seq::empty()
    }
}

/// The text under a code.
pub open spec fn text_of(m: Map<AtomKey, Seq<AtomValue>>, code: u32) -> Option<Seq<char>> {
    first_text(values_of(m, AtomKey::Code(code)))
}

/// `©nam`: the title.
pub const TITLE: u32 = 0xa96e_616d;

/// `©day`: the release date.
pub const YEAR: u32 = 0xa964_6179;

/// `desc`: the short description.
pub const DESCRIPTION: u32 = 0x6465_7363;

/// `ldes`: the long description.
pub const LONG_DESCRIPTION: u32 = 0x6c64_6573;

/// `©gen`: the genre in words.
pub const GENRE: u32 = 0xa967_656e;

/// `gnre`: the genre as a number from a list.
pub const STANDARD_GENRE: u32 = 0x676e_7265;

/// `stik`: the kind of media.
pub const MEDIA_TYPE: u32 = 0x7374_696b;

/// `covr`: the cover.
pub const ARTWORK: u32 = 0x636f_7672;

/// `hdvd`: the definition.
pub const DEFINITION: u32 = 0x6864_7664;

/// `©pub`: the studio.
pub const PUBLISHER: u32 = 0xa970_7562;

/// `tvsh`: the show.
pub const TV_SHOW: u32 = 0x7476_7368;

/// `tvnn`: the network.
pub const TV_NETWORK: u32 = 0x7476_6e6e;

/// `tven`: the episode as text.
pub const TV_EPISODE_ID: u32 = 0x7476_656e;

/// `tvsn`: the season.
pub const TV_SEASON: u32 = 0x7476_736e;

/// `tves`: the episode.
pub const TV_EPISODE: u32 = 0x7476_6573;

/// The kinds of media that a `stik` atom can name.
#[derive(Debug, Clone, Copy, PartialEq, Eq, Structural)]
pub enum MediaType {
    Movie,
    Normal,
    AudioBook,
    MusicVideo,
    ShortFilm,
    TvShow,
    Booklet,
}

/// The number that a `stik` atom holds for a kind of media.
pub open spec fn media_code(m: MediaType) -> u8 {
    match m {
        MediaType::Movie => 0,
        MediaType::Normal => 1,
        MediaType::AudioBook => 2,
        MediaType::MusicVideo => 6,
        MediaType::ShortFilm => 9,
        MediaType::TvShow => 10,
        MediaType::Booklet => 11,
    }
}

/// Whether mp4ameta has a name for this number in a `stik` atom.
pub open spec fn known_media_code(n: u8) -> bool {
    n == 0 || n == 1 || n == 2 || n == 5 || n == 6 || n == 9 || n == 10 || n == 11
}

/// A tag without atoms.
pub open spec fn no_atoms() -> Map<AtomKey, Seq<AtomValue>> {
    Map::empty()
}

/// `Tag::default` of mp4ameta: a tag without atoms.
#[verifier::external_body]
pub(crate) fn empty_tag() -> (r: Tag)
    ensures
        atoms(r) == no_atoms(),
{
    Tag::default()
}

/// `Userdata::set_data` of mp4ameta: the first atom of that name holds the value and nothing else;
/// it is added where there is none.
#[verifier::external_body]
pub(crate) fn set_data(tag: &mut Tag, id: AtomId, data: AtomData)
    ensures
        atoms(*final(tag)) == atoms(*old(tag)).insert(id@, seq![data@]),
{
    let ident = match id {
        AtomId::Code(c) => DataIdent::fourcc(c.to_be_bytes()),
        AtomId::Freeform { mean, name } => DataIdent::freeform(mean, name),
    };
    tag.set_data(ident, match data {
        AtomData::Reserved(v) => Data::Reserved(v),
        AtomData::Utf8(s) => Data::Utf8(s),
        AtomData::Utf16(s) => Data::Utf16(s),
        AtomData::Jpeg(v) => Data::Jpeg(v),
        AtomData::Png(v) => Data::Png(v),
        AtomData::Bmp(v) => Data::Bmp(v),
        AtomData::BeSigned(v) => Data::BeSigned(v),
        AtomData::Unknown { code, data } => Data::Unknown { code, data },
    });
}

/// `Userdata::data_of` of mp4ameta, and the first value that it hands out: that of the first atom
/// of the name.
#[verifier::external_body]
pub(crate) fn first_data(tag: &Tag, id: &AtomId) -> (r: Option<AtomData>)
    ensures
        match r {
            Some(d) => values_of(atoms(*tag), id@).len() > 0 && d@ == values_of(atoms(*tag), id@)[0],
            None => values_of(atoms(*tag), id@).len() == 0,
        },
{
    let ident = match id {
        AtomId::Code(c) => DataIdent::fourcc(c.to_be_bytes()),
        AtomId::Freeform { mean, name } => DataIdent::freeform(mean.clone(), name.clone()),
    };
    let found = tag.data_of(&ident).next()?.clone();
    Some(match found {
        Data::Reserved(v) => AtomData::Reserved(v),
        Data::Utf8(s) => AtomData::Utf8(s),
        Data::Utf16(s) => AtomData::Utf16(s),
        Data::Jpeg(v) => AtomData::Jpeg(v),
        Data::Png(v) => AtomData::Png(v),
        Data::Bmp(v) => AtomData::Bmp(v),
        Data::BeSigned(v) => AtomData::BeSigned(v),
        Data::Unknown { code, data } => AtomData::Unknown { code, data },
    })
}

/// `Userdata::remove_data_of` of mp4ameta: no atom of that name is left.
#[verifier::external_body]
pub(crate) fn remove_data(tag: &mut Tag, id: &AtomId)
    ensures
        atoms(*final(tag)) == atoms(*old(tag)).remove(id@),
{
    let ident = match id {
        AtomId::Code(c) => DataIdent::fourcc(c.to_be_bytes()),
        AtomId::Freeform { mean, name } => DataIdent::freeform(mean.clone(), name.clone()),
    };
    tag.remove_data_of(&ident);
}

/// `Userdata::data_of` of mp4ameta on one tag and `Userdata::set_all_data` on another: the first
/// atom of that name holds the values that it holds in the other tag, in their order; it is added
/// where there is none.
#[verifier::external_body]
pub(crate) fn copy_data(tag: &mut Tag, other: &Tag, id: &AtomId)
    ensures
        atoms(*final(tag)) == atoms(*old(tag)).insert(id@, values_of(atoms(*other), id@)),
{
    let ident = match id {
        AtomId::Code(c) => DataIdent::fourcc(c.to_be_bytes()),
        AtomId::Freeform { mean, name } => DataIdent::freeform(mean.clone(), name.clone()),
    };
    tag.set_all_data(ident.clone(), other.data_of(&ident).cloned());
}

/// `Userdata::set_title` of mp4ameta: `©nam` holds the text.
#[verifier::external_body]
pub(crate) fn set_title(tag: &mut Tag, text: String)
    ensures
        atoms(*final(tag)) == atoms(*old(tag)).insert(
            AtomKey::Code(TITLE),
            seq![AtomValue::Utf8(text@)],
        ),
{
    tag.set_title(text);
}

/// `Userdata::set_year` of mp4ameta: `©day` holds the text.
#[verifier::external_body]
pub(crate) fn set_year(tag: &mut Tag, text: String)
    ensures
        atoms(*final(tag)) == atoms(*old(tag)).insert(
            AtomKey::Code(YEAR),
            seq![AtomValue::Utf8(text@)],
        ),
{
    tag.set_year(text);
}

/// `Userdata::set_description` of mp4ameta: `desc` holds the text.
#[verifier::external_body]
pub(crate) fn set_description(tag: &mut Tag, text: String)
    ensures
        atoms(*final(tag)) == atoms(*old(tag)).insert(
            AtomKey::Code(DESCRIPTION),
            seq![AtomValue::Utf8(text@)],
        ),
{
    tag.set_description(text);
}

/// `Userdata::set_genre` of mp4ameta: `©gen` holds the text, and no `gnre` is left.
#[verifier::external_body]
pub(crate) fn set_genre(tag: &mut Tag, text: String)
    ensures
        atoms(*final(tag)) == atoms(*old(tag)).insert(
            AtomKey::Code(GENRE),
            seq![AtomValue::Utf8(text@)],
        ).remove(AtomKey::Code(STANDARD_GENRE)),
{
    tag.set_genre(text);
}

/// `Userdata::set_media_type` of mp4ameta: `stik` holds the number of the kind, as a raw byte.
#[verifier::external_body]
pub(crate) fn set_media_type(tag: &mut Tag, kind: MediaType)
    ensures
        atoms(*final(tag)) == atoms(*old(tag)).insert(
            AtomKey::Code(MEDIA_TYPE),
            seq![AtomValue::Reserved(seq![media_code(kind)])],
        ),
{
    tag.set_media_type(match kind {
        MediaType::Movie => mp4ameta::MediaType::Movie,
        MediaType::Normal => mp4ameta::MediaType::Normal,
        MediaType::AudioBook => mp4ameta::MediaType::AudioBook,
        MediaType::MusicVideo => mp4ameta::MediaType::MusicVideo,
        MediaType::ShortFilm => mp4ameta::MediaType::ShortFilm,
        MediaType::TvShow => mp4ameta::MediaType::TvShow,
        MediaType::Booklet => mp4ameta::MediaType::Booklet,
    });
}

/// A picture as the value of an atom.
pub open spec fn picture_value(format: ArtworkFormat, bytes: Seq<u8>) -> AtomValue {
    match format {
        ArtworkFormat::Png => AtomValue::Png(bytes),
        ArtworkFormat::Jpeg => AtomValue::Jpeg(bytes),
    }
}

/// `Userdata::set_artwork` of mp4ameta: `covr` holds the picture, marked as PNG or as JPEG.
#[verifier::external_body]
pub(crate) fn set_artwork(tag: &mut Tag, format: ArtworkFormat, bytes: Vec<u8>)
    ensures
        atoms(*final(tag)) == atoms(*old(tag)).insert(
            AtomKey::Code(ARTWORK),
            seq![picture_value(format, bytes@)],
        ),
{
    let fmt = match format {
        ArtworkFormat::Png => ImgFmt::Png,
        ArtworkFormat::Jpeg => ImgFmt::Jpeg,
    };
    tag.set_artwork(Img::new(fmt, bytes));
}

/// `Userdata::title` of mp4ameta: the first text under `©nam`.
#[verifier::external_body]
pub(crate) fn title(tag: &Tag) -> (r: Option<String>)
    ensures
        r.deep_view() == text_of(atoms(*tag), TITLE),
{
    tag.title().map(|s| s.to_string())
}

/// `Userdata::year` of mp4ameta: the first text under `©day`.
#[verifier::external_body]
pub(crate) fn year(tag: &Tag) -> (r: Option<String>)
    ensures
        r.deep_view() == text_of(atoms(*tag), YEAR),
{
    tag.year().map(|s| s.to_string())
}

/// `Userdata::description` of mp4ameta: the first text under `desc`.
#[verifier::external_body]
pub(crate) fn description(tag: &Tag) -> (r: Option<String>)
    ensures
        r.deep_view() == text_of(atoms(*tag), DESCRIPTION),
{
    tag.description().map(|s| s.to_string())
}

/// What `Userdata::genre` of mp4ameta gives for a tag with these values under `gnre` and `©gen`.
pub uninterp spec fn genre_of(standard: Seq<AtomValue>, text: Seq<AtomValue>) -> Option<Seq<char>>;

/// `Userdata::genre` of mp4ameta: the genre that its list has for the first number of two bytes
/// under `gnre`, else the first text under `©gen`. The list is not spelled out; where there is
/// nothing under `gnre`, it plays no part.
#[verifier::external_body]
pub(crate) fn genre(tag: &Tag) -> (r: Option<String>)
    ensures
        r.deep_view() == genre_of(
            values_of(atoms(*tag), AtomKey::Code(STANDARD_GENRE)),
            values_of(atoms(*tag), AtomKey::Code(GENRE)),
        ),
        values_of(atoms(*tag), AtomKey::Code(STANDARD_GENRE)).len() == 0 ==> r.deep_view()
            == text_of(atoms(*tag), GENRE),
{
    tag.genre().map(|s| s.to_string())
}

/// The number that `Userdata::media_type` of mp4ameta reads: the first byte of the first raw
/// bytes, if it has a name for it.
pub open spec fn media_type_of(m: Map<AtomKey, Seq<AtomValue>>) -> Option<u8> {
    match first_bytes(values_of(m, AtomKey::Code(MEDIA_TYPE))) {
        Some(b) => if b.len() > 0 && known_media_code(b[0]) {
            Some(b[0])
        } else {
            None
        },
        None => None,
    }
}

/// `Userdata::media_type` of mp4ameta: the kind that `stik` names, here as its number.
#[verifier::external_body]
pub(crate) fn media_type(tag: &Tag) -> (r: Option<u8>)
    ensures
        r == media_type_of(atoms(*tag)),
{
    tag.media_type().map(|m| m as u8)
}

/// `Userdata::artwork` of mp4ameta: the bytes of the first picture under `covr`.
#[verifier::external_body]
pub(crate) fn artwork(tag: &Tag) -> (r: Option<Vec<u8>>)
    ensures
        r.deep_view() == first_picture(values_of(atoms(*tag), AtomKey::Code(ARTWORK))),
{
    tag.artwork().map(|img| img.data.to_vec())
}

/// The first text, the first number and the first picture among values are taken: what stands in
/// front of them and is something else is passed over.
pub proof fn law_first_value_of_its_kind_is_taken(front: Seq<AtomValue>, v: AtomValue, back: Seq<AtomValue>)
    ensures
        (forall|i: int|
            0 <= i < front.len() ==> !(#[trigger] front[i] is Utf8) && !(front[i] is Utf16)) ==> {
            &&& v matches AtomValue::Utf8(s) ==> first_text(front + seq![v] + back) == Some(s)
            &&& v matches AtomValue::Utf16(s) ==> first_text(front + seq![v] + back) == Some(s)
            &&& first_text(front) is None
        },
        (forall|i: int|
            0 <= i < front.len() ==> !(#[trigger] front[i] is Reserved) && !(
            front[i] is BeSigned)) ==> {
            &&& v matches AtomValue::Reserved(b) ==> first_bytes(front + seq![v] + back) == Some(b)
            &&& v matches AtomValue::BeSigned(b) ==> first_bytes(front + seq![v] + back) == Some(b)
            &&& first_bytes(front) is None
        },
        (forall|i: int|
            0 <= i < front.len() ==> !(#[trigger] front[i] is Jpeg) && !(front[i] is Png) && !(
            front[i] is Bmp)) ==> {
            &&& v matches AtomValue::Jpeg(b) ==> first_picture(front + seq![v] + back) == Some(b)
            &&& v matches AtomValue::Png(b) ==> first_picture(front + seq![v] + back) == Some(b)
            &&& v matches AtomValue::Bmp(b) ==> first_picture(front + seq![v] + back) == Some(b)
            &&& first_picture(front) is None
        },
    decreases front.len(),
{
    let all = front + seq![v] + back;
    if front.len() == 0 {
        assert(all[0] == v);
    } else {
        let rest = front.drop_first();
        law_first_value_of_its_kind_is_taken(rest, v, back);
        assert(all[0] == front[0]);
        assert(all.drop_first() =~= rest + seq![v] + back);
        assert forall|i: int| 0 <= i < rest.len() implies #[trigger] rest[i] == front[i + 1] by {}
    }
}

/// A picture is stored as what it is.
pub proof fn law_pictures_keep_their_kind(bytes: Seq<u8>)
    ensures
        picture_value(ArtworkFormat::Png, bytes) == AtomValue::Png(bytes),
        picture_value(ArtworkFormat::Jpeg, bytes) == AtomValue::Jpeg(bytes),
{
}

} // verus!
