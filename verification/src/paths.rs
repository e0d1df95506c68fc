//! The files that the program is asked to open: arguments, addresses of the `file://` kind, and
//! files dropped on its window.

use crate::naming::{extension, extension_of, law_name_is_stem_and_extension, stem_of};
use crate::text::{
    ascii_lowered, begins, chars_of, find_from, lemma_find_from, position_from, stands_at, str_eq,
    string_range, strip_prefix, to_ascii_lower,
};
use vstd::prelude::*;
use vstd::utf8::{decode_utf8, encode_utf8, valid_utf8};

verus! {

// ---------------------------------------------------------------------------
// Kinds of file
// ---------------------------------------------------------------------------

/// The extension of a file name in lower case.
pub open spec fn lower_extension(file_name: Seq<char>) -> Option<Seq<char>> {
    match extension_of(file_name) {
        Some(e) => Some(ascii_lowered(e)),
        None => None,
    }
}

/// The extension of a file name in lower case.
pub fn ext_lower(file_name: &str) -> (r: Option<String>)
    ensures
        r.deep_view() == lower_extension(file_name@),
{
    match extension(file_name) {
        Some(e) => Some(to_ascii_lower(e.as_str())),
        None => None,
    }
}

/// Whether a file name is that of a movie that can be tagged.
pub open spec fn names_movie(file_name: Seq<char>) -> bool {
    lower_extension(file_name) == Some("mp4"@) || lower_extension(file_name) == Some("m4v"@)
}

/// Whether a file name is that of a picture.
pub open spec fn names_image(file_name: Seq<char>) -> bool {
    let e = lower_extension(file_name);
    e == Some("png"@) || e == Some("jpg"@) || e == Some("jpeg"@) || e == Some("gif"@) || e == Some(
        "bmp"@,
    ) || e == Some("webp"@)
}

/// Whether a file name is that of a movie that can be tagged.
pub fn is_movie_path(file_name: &str) -> (r: bool)
    ensures
        r == names_movie(file_name@),
{
    match ext_lower(file_name) {
        Some(e) => str_eq(e.as_str(), "mp4") || str_eq(e.as_str(), "m4v"),
        None => false,
    }
}

/// Whether a file name is that of a picture.
pub fn is_image_path(file_name: &str) -> (r: bool)
    ensures
        r == names_image(file_name@),
{
    match ext_lower(file_name) {
        Some(e) => str_eq(e.as_str(), "png") || str_eq(e.as_str(), "jpg") || str_eq(
            e.as_str(),
            "jpeg",
        ) || str_eq(e.as_str(), "gif") || str_eq(e.as_str(), "bmp") || str_eq(e.as_str(), "webp"),
        None => false,
    }
}

// ---------------------------------------------------------------------------
// Addresses
// ---------------------------------------------------------------------------

/// The value of a hexadecimal digit.
pub open spec fn hex_value(b: u8) -> Option<u8> {
    if 0x30 <= b <= 0x39 {
        Some((b - 0x30) as u8)
    } else if 0x41 <= b <= 0x46 {
        Some((b - 0x41 + 10) as u8)
    } else if 0x61 <= b <= 0x66 {
        Some((b - 0x61 + 10) as u8)
    } else {
        None
    }
}

/// The bytes with each percent sign that two hexadecimal digits follow replaced, with them, by the
/// byte they stand for.
pub open spec fn percent_decoded(b: Seq<u8>) -> Seq<u8>
    decreases b.len(),
{
    if b.len() == 0 {
        Seq::empty()
    } else if b[0] == 0x25 && b.len() > 2 && hex_value(b[1]) is Some && hex_value(b[2]) is Some {
        seq![(16 * hex_value(b[1]).unwrap() + hex_value(b[2]).unwrap()) as u8] + percent_decoded(
            b.skip(3),
        )
    } else {
        seq![b[0]] + percent_decoded(b.skip(1))
    }
}

/// The value of a hexadecimal digit.
fn digit_of(b: u8) -> (r: Option<u8>)
    ensures
        r == hex_value(b),
        r matches Some(v) ==> v < 16,
{
    if 0x30 <= b && b <= 0x39 {
        Some(b - 0x30)
    } else if 0x41 <= b && b <= 0x46 {
        Some(b - 0x41 + 10)
    } else if 0x61 <= b && b <= 0x66 {
        Some(b - 0x61 + 10)
    } else {
        None
    }
}

/// The bytes that an escaped text stands for.
pub fn percent_decode_bytes(b: &[u8]) -> (r: Vec<u8>)
    ensures
        r@ == percent_decoded(b@),
{
    let n: usize = b.len();
    let mut out: Vec<u8> = Vec::new();
    let mut i: usize = 0;
    assert(b@.skip(0) =~= b@);
    while i < n
        invariant
            i <= n,
            n == b@.len(),
            out@ + percent_decoded(b@.skip(i as int)) == percent_decoded(b@),
        decreases n - i,
    {
        let ghost rest = b@.skip(i as int);
        let ghost seen = out@;
        assert(rest.skip(1) =~= b@.skip(i + 1));
        if b[i] == 0x25 && n - i > 2 {
            assert(rest[1] == b@[i + 1] && rest[2] == b@[i + 2]);
            if let (Some(hi), Some(lo)) = (digit_of(b[i + 1]), digit_of(b[i + 2])) {
                assert(rest.skip(3) =~= b@.skip(i + 3));
                out.push(16 * hi + lo);
                assert(out@ + percent_decoded(rest.skip(3)) =~= seen + percent_decoded(rest));
                i += 3;
                continue;
            }
        }
        out.push(b[i]);
        assert(out@ + percent_decoded(rest.skip(1)) =~= seen + percent_decoded(rest));
        i += 1;
    }
    assert(b@.skip(i as int).len() == 0);
    assert(out@ + percent_decoded(b@.skip(i as int)) =~= out@);
    out
}

/// The text that std's `String::from_utf8_lossy` makes of bytes.
pub uninterp spec fn lossy_text(bytes: Seq<u8>) -> Seq<char>;

/// `String::from_utf8_lossy` of std: the text that the bytes encode, where they are UTF-8. What
/// stands for the rest in other bytes depends on the bytes alone.
#[verifier::external_body]
fn text_of_bytes(bytes: &[u8]) -> (r: String)
    ensures
        r@ == lossy_text(bytes@),
        valid_utf8(bytes@) ==> r@ == decode_utf8(bytes@),
{
    String::from_utf8_lossy(bytes).into_owned()
}

/// The text that an escaped text stands for.
pub open spec fn unescaped_text(s: Seq<char>) -> Seq<char> {
    lossy_text(percent_decoded(encode_utf8(s)))
}

/// The text that an escaped text stands for, such as a blank for `%20`.
pub fn percent_decode(s: &str) -> (r: String)
    ensures
        r@ == unescaped_text(s@),
        valid_utf8(percent_decoded(encode_utf8(s@))) ==> r@ == decode_utf8(
            percent_decoded(encode_utf8(s@)),
        ),
{
    let bytes = percent_decode_bytes(s.as_bytes());
    text_of_bytes(bytes.as_slice())
}

/// What an address holds behind its host: everything from the first slash on, or all of it where
/// there is none.
pub open spec fn behind_host(s: Seq<char>) -> Seq<char> {
    match find_from(s, "/"@, 0) {
        Some(i) => s.skip(i),
        None => s,
    }
}

/// What an address holds behind its host.
fn skip_host(s: &str) -> (r: String)
    ensures
        r@ == behind_host(s@),
{
    let v = chars_of(s);
    let slash = chars_of("/");
    match position_from(&v, &slash, 0) {
        Some(i) => {
            proof {
                crate::text::lemma_find_from(s@, "/"@, 0);
            }
            let out = string_range(&v, i, v.len());
            assert(out@ =~= s@.skip(i as int));
            out
        },
        None => s.to_string(),
    }
}

/// The path in an address of the `file://` kind.
pub open spec fn path_in_address(s: Seq<char>) -> Option<Seq<char>> {
    if begins(s, "file://"@) {
        Some(unescaped_text(behind_host(s.skip("file://"@.len() as int))))
    } else {
        None
    }
}

/// The path that an argument stands for: that of an address of the `file://` kind, or itself.
pub fn arg_to_path(arg: &str) -> (r: String)
    ensures
        r@ == (match path_in_address(arg@) {
            Some(p) => p,
            None => arg@,
        }),
{
    match strip_prefix(arg, "file://") {
        Some(rest) => percent_decode(skip_host(rest.as_str()).as_str()),
        None => arg.to_string(),
    }
}

/// The path that a text stands for: that of an address of the `file://` kind, or itself where it
/// begins with a slash.
pub open spec fn path_in_text(s: Seq<char>) -> Option<Seq<char>> {
    match path_in_address(s) {
        Some(p) => Some(p),
        None => if begins(s, "/"@) {
            Some(s)
        } else {
            None
        },
    }
}

/// The path that a text stands for: that of an address of the `file://` kind, or itself where it
/// begins with a slash.
pub fn uri_or_path(s: &str) -> (r: Option<String>)
    ensures
        r.deep_view() == path_in_text(s@),
{
    match strip_prefix(s, "file://") {
        Some(rest) => Some(percent_decode(skip_host(rest.as_str()).as_str())),
        None => match strip_prefix(s, "/") {
            Some(_) => Some(s.to_string()),
            None => None,
        },
    }
}

// ---------------------------------------------------------------------------
// Files dropped on the window
// ---------------------------------------------------------------------------

/// A file: where it is and its name.
#[derive(Debug)]
pub struct DroppedFile {
    pub path: String,
    pub name: String,
}

/// A file, as text.
pub struct DroppedView {
    pub path: Seq<char>,
    pub name: Seq<char>,
}

impl DeepView for DroppedFile {
    type V = DroppedView;

    open spec fn deep_view(&self) -> DroppedView {
        DroppedView { path: self.path@, name: self.name@ }
    }
}

/// What is done with dropped files.
#[derive(Debug)]
pub enum Dropped {
    /// A movie to open.
    Movie(String),
    /// Pictures to use as the poster.
    Images(Vec<String>),
    /// Nothing that can be used.
    Nothing,
}

/// What is done with dropped files, as text.
pub enum DropView {
    Movie(Seq<char>),
    Images(Seq<Seq<char>>),
    Nothing,
}

impl DeepView for Dropped {
    type V = DropView;

    open spec fn deep_view(&self) -> DropView {
        match self {
            Dropped::Movie(p) => DropView::Movie(p@),
            Dropped::Images(l) => DropView::Images(l.deep_view()),
            Dropped::Nothing => DropView::Nothing,
        }
    }
}

/// The path of the first movie.
pub open spec fn first_movie(files: Seq<DroppedView>) -> Option<Seq<char>>
    decreases files.len(),
{
    if files.len() == 0 {
        None
    } else if names_movie(files[0].name) {
        Some(files[0].path)
    } else {
        first_movie(files.skip(1))
    }
}

/// The paths of the pictures, in order.
pub open spec fn images_among(files: Seq<DroppedView>) -> Seq<Seq<char>>
    decreases files.len(),
{
    if files.len() == 0 {
        Seq::empty()
    } else {
        let before = images_among(files.drop_last());
        if names_image(files.last().name) {
            before.push(files.last().path)
        } else {
            before
        }
    }
}

/// What is done with dropped files: the first movie is opened; without one, the pictures are used.
pub open spec fn sorted_drop(files: Seq<DroppedView>) -> DropView {
    match first_movie(files) {
        Some(p) => DropView::Movie(p),
        None => if images_among(files).len() > 0 {
            DropView::Images(images_among(files))
        } else {
            DropView::Nothing
        },
    }
}

/// What is done with dropped files: the first movie is opened; without one, the pictures are used.
pub fn handle_drop(files: &Vec<DroppedFile>) -> (r: Dropped)
    ensures
        r.deep_view() == sorted_drop(files.deep_view()),
{
    let ghost all = files.deep_view();
    let mut images: Vec<String> = Vec::new();
    let mut i: usize = 0;
    assert(all.skip(0) =~= all);
    assert(all.take(0) =~= Seq::<DroppedView>::empty());
    assert(images.deep_view() =~= Seq::<Seq<char>>::empty());
    while i < files.len()
        invariant
            i <= files@.len(),
            all == files.deep_view(),
            first_movie(all) == first_movie(all.skip(i as int)),
            images.deep_view() == images_among(all.take(i as int)),
        decreases files@.len() - i,
    {
        let ghost before = images.deep_view();
        let f = &files[i];
        proof {
            assert(all[i as int] == f.deep_view());
            assert(all.skip(i as int)[0] == f.deep_view());
            assert(all.skip(i as int).skip(1) =~= all.skip(i + 1));
            assert(all.take(i + 1).drop_last() =~= all.take(i as int));
            assert(all.take(i + 1).last() == f.deep_view());
        }
        if is_movie_path(f.name.as_str()) {
            return Dropped::Movie(f.path.clone());
        }
        if is_image_path(f.name.as_str()) {
            images.push(f.path.clone());
            assert(images.deep_view() =~= before.push(f.path@));
        }
        i += 1;
    }
    assert(all.skip(all.len() as int).len() == 0);
    assert(all.take(all.len() as int) =~= all);
    assert(images.deep_view().len() == images@.len());
    if images.len() > 0 {
        Dropped::Images(images)
    } else {
        Dropped::Nothing
    }
}

// ---------------------------------------------------------------------------
// What the system has asked for
// ---------------------------------------------------------------------------

/// What the system has asked for since the editor last looked.
#[derive(Debug)]
pub struct Inbox {
    /// Movies to open.
    pub movies: Vec<String>,
    /// Pictures to use as the poster.
    pub images: Vec<String>,
    /// Whether the user wants to know what the program is.
    pub about_requested: bool,
}

/// What the system has asked for, in mathematical terms.
pub struct InboxView {
    pub movies: Seq<Seq<char>>,
    pub images: Seq<Seq<char>>,
    pub about_requested: bool,
}

impl View for Inbox {
    type V = InboxView;

    open spec fn view(&self) -> InboxView {
        InboxView {
            movies: self.movies.deep_view(),
            images: self.images.deep_view(),
            about_requested: self.about_requested,
        }
    }
}

/// A document to open, as the system names it.
#[derive(Debug)]
pub enum OpenItem {
    /// By its path.
    Path(String),
    /// By a text, which may be an address.
    Text(String),
    /// Not at all.
    Unnamed,
}

/// The paths of documents to open, in order; those that have none are left out.
pub open spec fn paths_among(items: Seq<OpenItem>) -> Seq<Seq<char>>
    decreases items.len(),
{
    if items.len() == 0 {
        Seq::empty()
    } else {
        let before = paths_among(items.drop_last());
        match items.last() {
            OpenItem::Path(p) => before.push(p@),
            OpenItem::Text(t) => match path_in_text(t@) {
                Some(p) => before.push(p),
                None => before,
            },
            OpenItem::Unnamed => before,
        }
    }
}

impl Inbox {
    /// Nothing has been asked for.
    pub fn empty() -> (r: Inbox)
        ensures
            r@ == (InboxView { movies: Seq::empty(), images: Seq::empty(), about_requested: false }),
    {
        let r = Inbox { movies: Vec::new(), images: Vec::new(), about_requested: false };
        assert(r.movies.deep_view() =~= Seq::<Seq<char>>::empty());
        assert(r.images.deep_view() =~= Seq::<Seq<char>>::empty());
        r
    }

    /// Documents are to be opened.
    pub fn open_documents(&mut self, items: &Vec<OpenItem>)
        ensures
            final(self)@ == (InboxView {
                movies: old(self)@.movies + paths_among(items@),
                ..old(self)@
            }),
    {
        let ghost start = self@;
        let mut i: usize = 0;
        assert(items@.take(0) =~= Seq::<OpenItem>::empty());
        assert(start.movies + Seq::<Seq<char>>::empty() =~= start.movies);
        while i < items.len()
            invariant
                i <= items@.len(),
                self@.movies == start.movies + paths_among(items@.take(i as int)),
                self@.images == start.images,
                self@.about_requested == start.about_requested,
            decreases items@.len() - i,
        {
            let ghost before = self.movies.deep_view();
            let ghost known = paths_among(items@.take(i as int));
            proof {
                assert(items@.take(i + 1).drop_last() =~= items@.take(i as int));
                assert(items@.take(i + 1).last() == items@[i as int]);
            }
            let path: Option<String> = match &items[i] {
                OpenItem::Path(p) => Some(p.clone()),
                OpenItem::Text(t) => uri_or_path(t.as_str()),
                OpenItem::Unnamed => None,
            };
            if let Some(p) = path {
                let ghost new = p@;
                self.movies.push(p);
                assert(self.movies.deep_view() =~= before.push(new));
                assert(before.push(new) =~= start.movies + known.push(new));
            }
            i += 1;
        }
        assert(items@.take(items@.len() as int) =~= items@);
    }

    /// Files were dropped on the window. Gives whether any of them can be used.
    pub fn drop_files(&mut self, files: &Vec<DroppedFile>) -> (r: bool)
        ensures
            final(self)@ == (match sorted_drop(files.deep_view()) {
                DropView::Movie(p) => InboxView { movies: old(self)@.movies.push(p), ..old(self)@ },
                DropView::Images(l) => InboxView { images: old(self)@.images + l, ..old(self)@ },
                DropView::Nothing => old(self)@,
            }),
            r == !(sorted_drop(files.deep_view()) is Nothing),
    {
        let ghost movies = self.movies.deep_view();
        let ghost images = self.images.deep_view();
        match handle_drop(files) {
            Dropped::Movie(p) => {
                let ghost new = p@;
                self.movies.push(p);
                assert(self.movies.deep_view() =~= movies.push(new));
                true
            },
            Dropped::Images(list) => {
                let mut list = list;
                let ghost new = list.deep_view();
                self.images.append(&mut list);
                assert(self.images.deep_view() =~= images + new);
                true
            },
            Dropped::Nothing => false,
        }
    }

    /// The user wants to know what the program is.
    pub fn request_about(&mut self)
        ensures
            final(self)@ == (InboxView { about_requested: true, ..old(self)@ }),
    {
        self.about_requested = true;
    }

    /// Hands over the movies to open; none of them is handed over again.
    pub fn take_pending(&mut self) -> (r: Vec<String>)
        ensures
            r.deep_view() == old(self)@.movies,
            final(self)@ == (InboxView { movies: Seq::empty(), ..old(self)@ }),
    {
        let mut out: Vec<String> = Vec::new();
        std::mem::swap(&mut out, &mut self.movies);
        assert(self.movies.deep_view() =~= Seq::<Seq<char>>::empty());
        out
    }

    /// Hands over the pictures to use; none of them is handed over again.
    pub fn take_pending_images(&mut self) -> (r: Vec<String>)
        ensures
            r.deep_view() == old(self)@.images,
            final(self)@ == (InboxView { images: Seq::empty(), ..old(self)@ }),
    {
        let mut out: Vec<String> = Vec::new();
        std::mem::swap(&mut out, &mut self.images);
        assert(self.images.deep_view() =~= Seq::<Seq<char>>::empty());
        out
    }

    /// Hands over whether the user wants to know what the program is, once.
    pub fn take_about_requested(&mut self) -> (r: bool)
        ensures
            r == old(self)@.about_requested,
            final(self)@ == (InboxView { about_requested: false, ..old(self)@ }),
    {
        let r = self.about_requested;
        self.about_requested = false;
        r
    }
}

// ---------------------------------------------------------------------------
// Laws
// ---------------------------------------------------------------------------

/// A hexadecimal digit in upper case.
pub open spec fn hex_byte(n: int) -> u8 {
    if n < 10 {
        (0x30 + n) as u8
    } else {
        (0x41 + n - 10) as u8
    }
}

/// The bytes with every one of them escaped.
pub open spec fn percent_escaped(b: Seq<u8>) -> Seq<u8>
    decreases b.len(),
{
    if b.len() == 0 {
        Seq::empty()
    } else {
        seq![0x25u8, hex_byte(b[0] as int / 16), hex_byte(b[0] as int % 16)] + percent_escaped(
            b.skip(1),
        )
    }
}

/// Escaped bytes read back as they were.
pub proof fn law_escaped_bytes_read_back(b: Seq<u8>)
    ensures
        percent_decoded(percent_escaped(b)) == b,
    decreases b.len(),
{
    let e = percent_escaped(b);
    if b.len() > 0 {
        law_escaped_bytes_read_back(b.skip(1));
        assert(e.skip(3) =~= percent_escaped(b.skip(1)));
        assert(e[0] == 0x25 && e[1] == hex_byte(b[0] as int / 16) && e[2] == hex_byte(
            b[0] as int % 16,
        ));
        assert(0 <= b[0] as int / 16 < 16);
        assert(0 <= b[0] as int % 16 < 16);
        assert(16 * (b[0] as int / 16) + b[0] as int % 16 == b[0]);
        assert(seq![b[0]] + b.skip(1) =~= b);
    } else {
        assert(percent_decoded(e) =~= b);
    }
}

/// Bytes that hold no percent sign stand for themselves.
pub proof fn law_plain_bytes_are_kept(b: Seq<u8>)
    requires
        forall|i: int| 0 <= i < b.len() ==> b[i] != 0x25,
    ensures
        percent_decoded(b) == b,
    decreases b.len(),
{
    if b.len() > 0 {
        law_plain_bytes_are_kept(b.skip(1));
        assert(seq![b[0]] + b.skip(1) =~= b);
    } else {
        assert(percent_decoded(b) =~= b);
    }
}

// ---------------------------------------------------------------------------
// Laws of the kinds of file
// ---------------------------------------------------------------------------

/// Whether a file name ends with a dot and these letters in any case, and something stands in front
/// of the dot.
pub open spec fn ends_as(file_name: Seq<char>, letters: Seq<char>) -> bool {
    &&& file_name.len() > letters.len() + 1
    &&& file_name[file_name.len() - letters.len() - 1] == '.'
    &&& ascii_lowered(file_name.skip(file_name.len() - letters.len())) == letters
}

proof fn lemma_lower_extension(file_name: Seq<char>, letters: Seq<char>)
    requires
        letters.len() > 0,
        forall|i: int| 0 <= i < letters.len() ==> #[trigger] letters[i] != '.',
    ensures
        (lower_extension(file_name) == Some(letters)) == ends_as(file_name, letters),
{
    law_name_is_stem_and_extension(file_name);
    let n = letters.len() as int;
    let dot = file_name.len() - n - 1;
    if ends_as(file_name, letters) {
        let tail = file_name.skip(dot + 1);
        assert(file_name[dot] == '.');
        assert(file_name != seq!['.', '.']) by {
            if file_name == seq!['.', '.'] {
                assert(dot == 0);
            }
        }
        assert(extension_of(file_name) is Some);
        let e = extension_of(file_name).unwrap();
        let stem = stem_of(file_name);
        assert forall|k: int| 0 <= k < tail.len() implies #[trigger] tail[k] != '.' by {
            assert(ascii_lowered(tail)[k] == letters[k]);
        }
        if stem.len() < dot {
            assert(e[dot - stem.len() - 1] == file_name[dot]);
            assert(e.contains('.'));
        } else if stem.len() > dot {
            assert(file_name[stem.len() as int] == '.');
            assert(tail[stem.len() - dot - 1] == '.');
        }
        assert(stem.len() == dot);
        assert(e =~= tail);
    }
    if lower_extension(file_name) == Some(letters) {
        let e = extension_of(file_name).unwrap();
        assert(ascii_lowered(e).len() == e.len());
        assert(file_name.skip(file_name.len() - n) =~= e);
        assert(file_name[dot] == '.');
    }
}

/// A movie file ends with mp4 or m4v, and a picture with one of six other extensions, in any letter
/// case, behind a dot that is not the first character. No file is both.
pub proof fn law_files_are_known_by_their_extension(file_name: Seq<char>)
    ensures
        names_movie(file_name) == (ends_as(file_name, "mp4"@) || ends_as(file_name, "m4v"@)),
        names_image(file_name) == (ends_as(file_name, "png"@) || ends_as(file_name, "jpg"@)
            || ends_as(file_name, "jpeg"@) || ends_as(file_name, "gif"@) || ends_as(
            file_name,
            "bmp"@,
        ) || ends_as(file_name, "webp"@)),
        !(names_movie(file_name) && names_image(file_name)),
{
    reveal_strlit("mp4");
    reveal_strlit("m4v");
    reveal_strlit("png");
    reveal_strlit("jpg");
    reveal_strlit("jpeg");
    reveal_strlit("gif");
    reveal_strlit("bmp");
    reveal_strlit("webp");
    lemma_lower_extension(file_name, "mp4"@);
    lemma_lower_extension(file_name, "m4v"@);
    lemma_lower_extension(file_name, "png"@);
    lemma_lower_extension(file_name, "jpg"@);
    lemma_lower_extension(file_name, "jpeg"@);
    lemma_lower_extension(file_name, "gif"@);
    lemma_lower_extension(file_name, "bmp"@);
    lemma_lower_extension(file_name, "webp"@);
    assert("mp4"@[0] == 'm' && "m4v"@[0] == 'm');
    assert("png"@[0] == 'p' && "jpg"@[0] == 'j' && "jpeg"@[0] == 'j' && "gif"@[0] == 'g');
    assert("bmp"@[0] == 'b' && "webp"@[0] == 'w');
}

proof fn lemma_first_movie(files: Seq<DroppedView>)
    ensures
        match first_movie(files) {
            Some(p) => exists|k: int|
                0 <= k < files.len() && names_movie((#[trigger] files[k]).name) && files[k].path == p
                    && forall|j: int| 0 <= j < k ==> !names_movie((#[trigger] files[j]).name),
            None => forall|j: int| 0 <= j < files.len() ==> !names_movie((#[trigger] files[j]).name),
        },
    decreases files.len(),
{
    if files.len() > 0 && !names_movie(files[0].name) {
        let rest = files.skip(1);
        lemma_first_movie(rest);
        assert forall|j: int| 1 <= j < files.len() implies #[trigger] files[j] == rest[j - 1] by {}
        if let Some(p) = first_movie(rest) {
            let k = choose|k: int|
                0 <= k < rest.len() && names_movie((#[trigger] rest[k]).name) && rest[k].path == p
                    && forall|j: int| 0 <= j < k ==> !names_movie((#[trigger] rest[j]).name);
            assert(files[k + 1] == rest[k]);
            assert forall|j: int| 0 <= j < k + 1 implies !names_movie(
                (#[trigger] files[j]).name,
            ) by {
                if j > 0 {
                    assert(files[j] == rest[j - 1]);
                }
            }
        }
    } else if files.len() > 0 {
        assert(names_movie(files[0].name));
    }
}

/// The first movie among the files that are dropped is opened, whatever else is among them; the
/// pictures count only where there is no movie, and nothing happens where there is neither.
pub proof fn law_dropped_movie_comes_first(files: Seq<DroppedView>)
    ensures
        ({
            let movie = exists|k: int|
                0 <= k < files.len() && names_movie((#[trigger] files[k]).name);
            let image = exists|k: int|
                0 <= k < files.len() && names_image((#[trigger] files[k]).name);
            &&& (sorted_drop(files) is Movie) == movie
            &&& sorted_drop(files) matches DropView::Movie(p) ==> exists|k: int|
                0 <= k < files.len() && names_movie((#[trigger] files[k]).name) && files[k].path == p
                    && forall|j: int| 0 <= j < k ==> !names_movie((#[trigger] files[j]).name)
            &&& (sorted_drop(files) is Images) == (!movie && image)
            &&& sorted_drop(files) matches DropView::Images(list) ==> list == images_among(files)
        }),
{
    lemma_first_movie(files);
    lemma_images_among(files);
}

proof fn lemma_images_among(files: Seq<DroppedView>)
    ensures
        (images_among(files).len() > 0) == (exists|k: int|
            0 <= k < files.len() && names_image((#[trigger] files[k]).name)),
    decreases files.len(),
{
    if files.len() > 0 {
        let init = files.drop_last();
        lemma_images_among(init);
        if exists|k: int| 0 <= k < init.len() && names_image((#[trigger] init[k]).name) {
            let k = choose|k: int| 0 <= k < init.len() && names_image((#[trigger] init[k]).name);
            assert(files[k] == init[k]);
        }
        if exists|k: int| 0 <= k < files.len() && names_image((#[trigger] files[k]).name) {
            let k = choose|k: int| 0 <= k < files.len() && names_image((#[trigger] files[k]).name);
            if k < init.len() {
                assert(init[k] == files[k]);
            } else {
                assert(files.last() == files[k]);
            }
        }
        if names_image(files.last().name) {
            assert(names_image(files[files.len() - 1].name));
        }
    }
}

/// Pictures are taken one by one, in order, each by its path.
pub proof fn law_pictures_are_taken_one_by_one(
    a: Seq<DroppedView>,
    b: Seq<DroppedView>,
    one: DroppedView,
)
    ensures
        images_among(a + b) == images_among(a) + images_among(b),
        names_image(one.name) ==> images_among(seq![one]) == seq![one.path],
        !names_image(one.name) ==> images_among(seq![one]).len() == 0,
    decreases b.len(),
{
    let single = seq![one];
    assert(single.drop_last() =~= Seq::<DroppedView>::empty());
    assert(images_among(single.drop_last()) =~= Seq::<Seq<char>>::empty());
    assert(single.last() == one);
    if b.len() == 0 {
        assert(a + b =~= a);
        assert(images_among(a) + images_among(b) =~= images_among(a));
    } else {
        law_pictures_are_taken_one_by_one(a, b.drop_last(), one);
        assert((a + b).drop_last() =~= a + b.drop_last());
        assert(images_among(a + b) =~= images_among(a) + images_among(b));
    }
}

/// What is to be opened is taken one by one, in order: a path as it is, a text where it gives one,
/// and nothing for an item that gives none.
pub proof fn law_items_are_opened_one_by_one(a: Seq<OpenItem>, b: Seq<OpenItem>, one: OpenItem)
    ensures
        paths_among(a + b) == paths_among(a) + paths_among(b),
        one matches OpenItem::Path(p) ==> paths_among(seq![one]) == seq![p@],
        one is Unnamed ==> paths_among(seq![one]).len() == 0,
        one matches OpenItem::Text(t) ==> (match path_in_text(t@) {
            Some(p) => paths_among(seq![one]) == seq![p],
            None => paths_among(seq![one]).len() == 0,
        }),
    decreases b.len(),
{
    let single = seq![one];
    assert(single.drop_last() =~= Seq::<OpenItem>::empty());
    assert(paths_among(single.drop_last()) =~= Seq::<Seq<char>>::empty());
    assert(single.last() == one);
    if b.len() == 0 {
        assert(a + b =~= a);
        assert(paths_among(a) + paths_among(b) =~= paths_among(a));
    } else {
        law_items_are_opened_one_by_one(a, b.drop_last(), one);
        assert((a + b).drop_last() =~= a + b.drop_last());
        assert(paths_among(a + b) =~= paths_among(a) + paths_among(b));
    }
}

/// A text gives a path where it is an address of a file or begins with a slash, and only then. The
/// path in an address begins with the first slash behind the host, with its escapes resolved.
pub proof fn law_texts_that_give_a_path(host: Seq<char>, path: Seq<char>, s: Seq<char>)
    requires
        !host.contains('/'),
    ensures
        path_in_text("file://"@ + host + seq!['/'] + path) == Some(
            unescaped_text(seq!['/'] + path),
        ),
        path_in_text(seq!['/'] + path) == Some(seq!['/'] + path),
        path_in_text(s) is Some ==> s.len() > 0 && (s[0] == '/' || s[0] == 'f'),
        s.len() == 0 || (s[0] != '/' && !begins(s, "file://"@)) ==> path_in_text(s) is None,
{
    reveal_strlit("file://");
    reveal_strlit("/");
    let tail = seq!['/'] + path;
    let all = "file://"@ + host + tail;
    assert("file://"@ + host + seq!['/'] + path =~= all);
    assert(all.subrange(0, 7) =~= "file://"@);
    assert(all.skip(7) =~= host + tail);
    let rest = host + tail;
    lemma_find_from(rest, "/"@, 0);
    let at = host.len() as int;
    assert(rest.subrange(at, at + 1) =~= "/"@);
    assert(stands_at(rest, "/"@, at));
    if let Some(k) = find_from(rest, "/"@, 0) {
        if k < at {
            assert(rest.subrange(k, k + 1)[0] == rest[k]);
            assert(host[k] == '/');
        }
        assert(k == at);
    }
    assert(rest.skip(at) =~= tail);
    assert(tail.subrange(0, 1) =~= "/"@);
    assert(!begins(tail, "file://"@)) by {
        if begins(tail, "file://"@) {
            assert(tail.subrange(0, 7)[0] == tail[0]);
        }
    }
    if begins(s, "file://"@) {
        assert(s.subrange(0, 7)[0] == s[0]);
    }
    if begins(s, "/"@) {
        assert(s.subrange(0, 1)[0] == s[0]);
    }
}

/// An escape is a percent sign and two hexadecimal digits in either case, and stands for the byte
/// that they spell; any other byte stands for itself.
pub proof fn law_escapes_are_read_one_by_one(b: u8, rest: Seq<u8>, hi: u8, lo: u8)
    requires
        0x30 <= hi <= 0x39 || 0x41 <= hi <= 0x46 || 0x61 <= hi <= 0x66,
        0x30 <= lo <= 0x39 || 0x41 <= lo <= 0x46 || 0x61 <= lo <= 0x66,
    ensures
        percent_decoded(Seq::<u8>::empty()) == Seq::<u8>::empty(),
        b != 0x25 ==> percent_decoded(seq![b] + rest) == seq![b] + percent_decoded(rest),
        percent_decoded(seq![0x25u8, hi, lo] + rest) == seq![
            (16 * hex_of_byte(hi) + hex_of_byte(lo)) as u8,
        ] + percent_decoded(rest),
{
    let plain = seq![b] + rest;
    assert(plain.skip(1) =~= rest);
    let escape = seq![0x25u8, hi, lo] + rest;
    assert(escape.skip(3) =~= rest);
}

/// What a hexadecimal digit in either case is worth.
pub open spec fn hex_of_byte(b: u8) -> int {
    if b <= 0x39 {
        b - 0x30
    } else if b <= 0x46 {
        b - 0x41 + 10
    } else {
        b - 0x61 + 10
    }
}

} // verus!
