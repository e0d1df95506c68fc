//! License keys and the persisted settings.
//!
//! A license key is derived from the e-mail address it was issued to:
//!
//! ```text
//! HMAC-SHA256(salt, trimmed lower-case address)
//!     -> hexadecimal, the first 16 digits in upper case, grouped as XXXX-XXXX-XXXX-XXXX
//! ```

use crate::text::{
    ascii_lower, ascii_lowered, ascii_upper, char_to_ascii_upper, chars_of, law_trim_is_idempotent,
    lemma_trim_and_lower, lowered, str_eq, to_ascii_lower, to_lowercase, trim, trimmed,
};
use vstd::prelude::*;
use vstd::utf8::encode_utf8;

verus! {

/// The salt of the keys. A release build puts the secret one in its place.
pub const LICENSE_SALT: &'static str = "tagtiger-development";

/// The length of a key without its dashes.
pub const KEY_LENGTH: usize = 16;

// ---------------------------------------------------------------------------
// Keys
// ---------------------------------------------------------------------------

/// The message authentication code HMAC-SHA256 of a message under a key.
pub uninterp spec fn mac_of(key: Seq<u8>, message: Seq<u8>) -> Seq<u8>;

/// `Mac::new_from_slice`, `update` and `finalize` of the hmac crate over SHA-256: a key of any
/// length is taken, and the 32 bytes of the code depend on the key and the message alone.
#[verifier::external_body]
fn hmac_sha256(key: &[u8], message: &[u8]) -> (r: Vec<u8>)
    ensures
        r@ == mac_of(key@, message@),
        r@.len() == 32,
{
    let mut mac = <hmac::Hmac<sha2::Sha256> as hmac::Mac>::new_from_slice(key).expect(
        "HMAC accepts any key length",
    );
    hmac::Mac::update(&mut mac, message);
    hmac::Mac::finalize(mac).into_bytes().to_vec()
}

/// The upper-case hexadecimal digit of a number below 16.
pub open spec fn hex_digit(n: int) -> char {
    if n < 10 {
        ('0' as int + n) as char
    } else {
        ('A' as int + n - 10) as char
    }
}

/// The first 16 hexadecimal digits of a code, in upper case.
pub open spec fn key_digits(code: Seq<u8>) -> Seq<char> {
    Seq::new(
        KEY_LENGTH as nat,
        |i: int|
            if i % 2 == 0 {
                hex_digit(code[i / 2] as int / 16)
            } else {
                hex_digit(code[i / 2] as int % 16)
            },
    )
}

/// The key that is made of a text, under a salt.
pub open spec fn key_of(salt: Seq<char>, text: Seq<char>) -> Seq<char> {
    key_digits(mac_of(encode_utf8(salt), encode_utf8(text)))
}

/// An address as it goes into a key: in lower case, without blanks around it. Said of the address
/// without its blanks and with its ASCII letters in lower case, which is the same text.
pub open spec fn plain_address(email: Seq<char>) -> Seq<char> {
    trimmed(lowered(ascii_lowered(trimmed(email))))
}

/// The key for an address, under a salt.
pub open spec fn key_for(salt: Seq<char>, email: Seq<char>) -> Seq<char> {
    key_of(salt, plain_address(email))
}

/// The upper-case hexadecimal digit of a number below 16.
fn show_hex_digit(n: u8) -> (r: char)
    requires
        n < 16,
    ensures
        r == hex_digit(n as int),
{
    if n < 10 {
        ('0' as u8 + n) as char
    } else {
        ('A' as u8 + (n - 10)) as char
    }
}

/// The first 16 hexadecimal digits of a code of at least 8 bytes, in upper case.
pub fn digits_of_code(code: &Vec<u8>) -> (r: String)
    requires
        code@.len() >= 8,
    ensures
        r@ == key_digits(code@),
{
    let mut out = String::new();
    let mut i: usize = 0;
    while i < 8
        invariant
            i <= 8,
            code@.len() >= 8,
            out@ == key_digits(code@).take(2 * i),
        decreases 8 - i,
    {
        let b: u8 = code[i];
        out.push(show_hex_digit(b / 16));
        out.push(show_hex_digit(b % 16));
        assert(key_digits(code@)[2 * i] == hex_digit(b as int / 16));
        assert(key_digits(code@)[2 * i + 1] == hex_digit(b as int % 16));
        assert(out@ =~= key_digits(code@).take(2 * (i + 1)));
        i += 1;
    }
    assert(key_digits(code@).take(16) =~= key_digits(code@));
    out
}

/// Whether every character is a hexadecimal digit, and none in lower case.
pub open spec fn is_upper_hex(s: Seq<char>) -> bool {
    forall|i: int| 0 <= i < s.len() ==> '0' <= #[trigger] s[i] <= '9' || 'A' <= s[i] <= 'F'
}

proof fn lemma_key_digits(code: Seq<u8>)
    ensures
        key_digits(code).len() == KEY_LENGTH,
        is_upper_hex(key_digits(code)),
{
    let key = key_digits(code);
    assert forall|i: int| 0 <= i < key.len() implies '0' <= #[trigger] key[i] <= '9' || 'A'
        <= key[i] <= 'F' by {
        let b = code[i / 2];
        assert(0 <= b as int / 16 < 16);
        assert(0 <= b as int % 16 < 16);
    }
}

/// The key that belongs to an address: 16 upper-case hexadecimal digits, without dashes. It is made
/// of the address in lower case, without blanks around it, so addresses that agree in that have
/// one key.
pub fn expected_key(email: &str) -> (r: String)
    ensures
        r@ == key_of(LICENSE_SALT@, trimmed(lowered(email@))),
        r@ == key_for(LICENSE_SALT@, email@),
        r@.len() == KEY_LENGTH,
        is_upper_hex(r@),
{
    let address = trim(to_lowercase(email).as_str());
    let code = hmac_sha256(LICENSE_SALT.as_bytes(), address.as_str().as_bytes());
    proof {
        lemma_key_digits(code@);
    }
    digits_of_code(&code)
}

/// Whether `c` is an ASCII letter or digit.
pub open spec fn is_alphanumeric(c: char) -> bool {
    ('0' <= c && c <= '9') || ('A' <= c && c <= 'Z') || ('a' <= c && c <= 'z')
}

/// Whether `c` is an ASCII letter or digit.
fn alphanumeric(c: char) -> (r: bool)
    ensures
        r == is_alphanumeric(c),
{
    ('0' <= c && c <= '9') || ('A' <= c && c <= 'Z') || ('a' <= c && c <= 'z')
}

/// The letters and digits of a key, in upper case.
pub open spec fn normalized_key(key: Seq<char>) -> Seq<char>
    decreases key.len(),
{
    if key.len() == 0 {
        Seq::empty()
    } else {
        let before = normalized_key(key.drop_last());
        if is_alphanumeric(key.last()) {
            before.push(ascii_upper(key.last()))
        } else {
            before
        }
    }
}

/// A key without its dashes and blanks, in upper case.
pub fn normalize_key(key: &str) -> (r: String)
    ensures
        r@ == normalized_key(key@),
{
    let v = chars_of(key);
    let mut out = String::new();
    let mut i: usize = 0;
    assert(v@.take(0) =~= Seq::<char>::empty());
    while i < v.len()
        invariant
            i <= v@.len(),
            out@ == normalized_key(v@.take(i as int)),
        decreases v@.len() - i,
    {
        let c = v[i];
        proof {
            assert(v@.take(i + 1).drop_last() =~= v@.take(i as int));
            assert(v@.take(i + 1).last() == c);
        }
        if alphanumeric(c) {
            out.push(char_to_ascii_upper(c));
        }
        i += 1;
    }
    assert(v@.take(v@.len() as int) =~= v@);
    out
}

/// A text with a dash behind each group of four characters that another one follows.
pub open spec fn grouped(s: Seq<char>) -> Seq<char>
    decreases s.len(),
{
    if s.len() <= 4 {
        s
    } else {
        s.take(4) + seq!['-'] + grouped(s.skip(4))
    }
}

/// The first 16 characters of a text, or all of it.
pub open spec fn first_sixteen(s: Seq<char>) -> Seq<char> {
    if s.len() <= KEY_LENGTH {
        s
    } else {
        s.take(KEY_LENGTH as int)
    }
}

/// A key as it is shown: `XXXX-XXXX-XXXX-XXXX`.
pub open spec fn formatted_key(key: Seq<char>) -> Seq<char> {
    grouped(first_sixteen(normalized_key(key)))
}

/// A key as it is shown: its first 16 letters and digits in upper case, in groups of four.
pub fn format_key(raw: &str) -> (r: String)
    ensures
        r@ == formatted_key(raw@),
{
    let v = chars_of(normalize_key(raw).as_str());
    let n: usize = if v.len() < KEY_LENGTH {
        v.len()
    } else {
        KEY_LENGTH
    };
    let ghost s = first_sixteen(v@);
    let mut out = String::new();
    let mut i: usize = 0;
    assert(s.skip(0) =~= s);
    while i < n
        invariant
            i <= n <= v@.len(),
            n <= 16,
            n == s.len(),
            s == first_sixteen(v@),
            i % 4 == 0 || i == n,
            i < n || n == 0 ==> out@ + grouped(s.skip(i as int)) == grouped(s),
            i == n ==> out@ == grouped(s),
        decreases n - i,
    {
        let end: usize = if n - i <= 4 {
            n
        } else {
            i + 4
        };
        let ghost rest = s.skip(i as int);
        let ghost before = out@;
        let mut k: usize = i;
        while k < end
            invariant
                i <= k <= end <= n <= v@.len(),
                n == s.len(),
                n <= 16,
                s == first_sixteen(v@),
                out@ == before + s.subrange(i as int, k as int),
            decreases end - k,
        {
            out.push(v[k]);
            assert(s.subrange(i as int, k + 1) =~= s.subrange(i as int, k as int).push(
                v@[k as int],
            ));
            k += 1;
        }
        if end < n {
            out.push('-');
            assert(rest.take(4) =~= s.subrange(i as int, end as int));
            assert(rest.skip(4) =~= s.skip(end as int));
            assert(out@ + grouped(s.skip(end as int)) =~= before + grouped(rest));
        } else {
            assert(rest =~= s.subrange(i as int, end as int));
        }
        i = end;
    }
    out
}

/// Whether a key is the one for an address, under a salt.
pub open spec fn valid_key(salt: Seq<char>, key: Seq<char>, email: Seq<char>) -> bool {
    &&& trimmed(email).len() > 0
    &&& normalized_key(key) == key_for(salt, email)
}

/// Whether a key is a valid license for an address: the address is not blank, and the key, without
/// its dashes and blanks and in upper case, is the one that belongs to it.
pub fn is_valid(key: &str, email: &str) -> (r: bool)
    ensures
        r == valid_key(LICENSE_SALT@, key@, email@),
        r == (trimmed(email@).len() > 0 && normalized_key(key@) == key_of(
            LICENSE_SALT@,
            trimmed(lowered(email@)),
        )),
{
    if trim(email).as_str().is_empty() {
        return false;
    }
    str_eq(normalize_key(key).as_str(), expected_key(email).as_str())
}

proof fn lemma_normalized_concat(a: Seq<char>, b: Seq<char>)
    ensures
        normalized_key(a + b) == normalized_key(a) + normalized_key(b),
    decreases b.len(),
{
    if b.len() == 0 {
        assert(a + b =~= a);
    } else {
        assert((a + b).drop_last() =~= a + b.drop_last());
        lemma_normalized_concat(a, b.drop_last());
    }
}

proof fn lemma_dropped(c: char)
    requires
        !is_alphanumeric(c),
    ensures
        normalized_key(seq![c]) == Seq::<char>::empty(),
{
    let s = seq![c];
    assert(s.drop_last() =~= Seq::<char>::empty());
    assert(normalized_key(s.drop_last()) == Seq::<char>::empty());
    assert(s.last() == c);
}

/// Whether every character of a text is an upper-case letter or a digit.
pub open spec fn is_clean(s: Seq<char>) -> bool {
    forall|i: int|
        0 <= i < s.len() ==> is_alphanumeric(#[trigger] s[i]) && ascii_upper(s[i]) == s[i]
}

proof fn lemma_normalized_is_clean(key: Seq<char>)
    ensures
        is_clean(normalized_key(key)),
    decreases key.len(),
{
    if key.len() > 0 {
        lemma_normalized_is_clean(key.drop_last());
    }
}

proof fn lemma_clean_is_kept(s: Seq<char>)
    requires
        is_clean(s),
    ensures
        normalized_key(s) == s,
    decreases s.len(),
{
    if s.len() > 0 {
        assert(is_clean(s.drop_last()));
        lemma_clean_is_kept(s.drop_last());
        assert(is_alphanumeric(s[s.len() - 1]));
        assert(s.drop_last().push(s.last()) =~= s);
    } else {
        assert(normalized_key(s) =~= s);
    }
}

proof fn lemma_groups_are_kept(s: Seq<char>)
    requires
        is_clean(s),
    ensures
        normalized_key(grouped(s)) == s,
    decreases s.len(),
{
    if s.len() <= 4 {
        lemma_clean_is_kept(s);
    } else {
        assert(is_clean(s.take(4)));
        assert(is_clean(s.skip(4)));
        lemma_clean_is_kept(s.take(4));
        lemma_groups_are_kept(s.skip(4));
        lemma_normalized_concat(s.take(4), seq!['-']);
        lemma_normalized_concat(s.take(4) + seq!['-'], grouped(s.skip(4)));
        lemma_dropped('-');
        assert(s.take(4) + s.skip(4) =~= s);
        assert(s.take(4) + Seq::<char>::empty() =~= s.take(4));
    }
}

/// Normalizing a key a second time changes nothing.
pub proof fn law_normalize_key_is_idempotent(key: Seq<char>)
    ensures
        normalized_key(normalized_key(key)) == normalized_key(key),
{
    lemma_normalized_is_clean(key);
    lemma_clean_is_kept(normalized_key(key));
}

/// Letter case makes no difference to a key.
pub proof fn law_key_case_is_ignored(salt: Seq<char>, key: Seq<char>, email: Seq<char>)
    ensures
        normalized_key(ascii_lowered(key)) == normalized_key(key),
        valid_key(salt, ascii_lowered(key), email) == valid_key(salt, key, email),
    decreases key.len(),
{
    if key.len() > 0 {
        law_key_case_is_ignored(salt, key.drop_last(), email);
        assert(ascii_lowered(key).drop_last() =~= ascii_lowered(key.drop_last()));
        assert(ascii_lowered(key).last() == ascii_lower(key.last()));
    } else {
        assert(ascii_lowered(key) =~= key);
    }
}

/// A dash, a blank or any other character that is neither letter nor digit makes no difference to
/// a key, wherever it stands.
pub proof fn law_key_punctuation_is_ignored(
    salt: Seq<char>,
    front: Seq<char>,
    c: char,
    back: Seq<char>,
    email: Seq<char>,
)
    requires
        !is_alphanumeric(c),
    ensures
        valid_key(salt, front + seq![c] + back, email) == valid_key(salt, front + back, email),
{
    lemma_normalized_concat(front, seq![c]);
    lemma_normalized_concat(front + seq![c], back);
    lemma_normalized_concat(front, back);
    lemma_dropped(c);
    assert(normalized_key(front) + Seq::<char>::empty() =~= normalized_key(front));
}

/// A key has 16 upper-case letters and digits.
proof fn lemma_key_is_clean(salt: Seq<char>, email: Seq<char>)
    ensures
        key_for(salt, email).len() == KEY_LENGTH,
        is_clean(key_for(salt, email)),
{
    lemma_key_digits(mac_of(encode_utf8(salt), encode_utf8(plain_address(email))));
}

/// A key that is shown in groups of four is read back as its first 16 letters and digits.
pub proof fn law_formatted_key_reads_back(key: Seq<char>)
    ensures
        normalized_key(formatted_key(key)) == first_sixteen(normalized_key(key)),
        formatted_key(formatted_key(key)) == formatted_key(key),
{
    lemma_normalized_is_clean(key);
    lemma_groups_are_kept(first_sixteen(normalized_key(key)));
}

/// A key is valid for an address exactly when the address is not blank and the key, without its
/// dashes and blanks and in upper case, is the one that is expected of the address. A valid key has
/// 16 letters and digits, so an empty one never is.
pub proof fn law_valid_key_is_the_expected_one(salt: Seq<char>, key: Seq<char>, email: Seq<char>)
    ensures
        valid_key(salt, key, email) <==> trimmed(email).len() > 0 && normalized_key(key)
            == key_for(salt, email),
        valid_key(salt, key, email) ==> normalized_key(key).len() == KEY_LENGTH,
        !valid_key(salt, Seq::empty(), email),
        !valid_key(salt, key, Seq::empty()),
{
    lemma_key_is_clean(salt, email);
    assert(normalized_key(Seq::<char>::empty()).len() == 0);
    assert(trimmed(Seq::<char>::empty()).len() == 0);
}

/// The case of ASCII letters and blanks around it make no difference to an address.
pub proof fn law_address_case_is_ignored(salt: Seq<char>, key: Seq<char>, email: Seq<char>)
    ensures
        key_for(salt, ascii_lowered(email)) == key_for(salt, email),
        key_for(salt, trimmed(email)) == key_for(salt, email),
        valid_key(salt, key, ascii_lowered(email)) == valid_key(salt, key, email),
        valid_key(salt, key, trimmed(email)) == valid_key(salt, key, email),
{
    lemma_trim_and_lower(email);
    lemma_trim_and_lower(trimmed(email));
    law_trim_is_idempotent(email);
    assert(trimmed(ascii_lowered(email)).len() == trimmed(email).len());
}

/// The key of an address is 16 upper-case letters and digits; it is valid for that address, as it
/// is, in lower case and in the form in which it is shown.
pub proof fn law_own_key_is_valid(salt: Seq<char>, email: Seq<char>)
    requires
        trimmed(email).len() > 0,
    ensures
        key_for(salt, email).len() == KEY_LENGTH,
        is_clean(key_for(salt, email)),
        valid_key(salt, key_for(salt, email), email),
        valid_key(salt, ascii_lowered(key_for(salt, email)), email),
        valid_key(salt, formatted_key(key_for(salt, email)), email),
{
    let key = key_for(salt, email);
    lemma_key_is_clean(salt, email);
    lemma_clean_is_kept(key);
    lemma_groups_are_kept(key);
    law_key_case_is_ignored(salt, key, email);
}

// ---------------------------------------------------------------------------
// Settings
// ---------------------------------------------------------------------------

/// What the user has set, kept between runs.
#[derive(Debug)]
pub struct Settings {
    /// The saved key without dashes, in upper case; empty without a license.
    pub license_key: String,
    /// The address the key was issued to.
    pub license_email: String,
    /// How many times tags have been written.
    pub tag_count: u64,
    /// The read access token of TMDB. It goes before the one of the environment.
    pub tmdb_bearer_token: String,
    /// "Light" or "Dark".
    pub theme: String,
    /// "System", "Small", "Medium" or "Large".
    pub font_size: String,
}

/// The settings, as text.
pub struct SettingsView {
    pub license_key: Seq<char>,
    pub license_email: Seq<char>,
    pub tag_count: u64,
    pub tmdb_bearer_token: Seq<char>,
    pub theme: Seq<char>,
    pub font_size: Seq<char>,
}

impl DeepView for Settings {
    type V = SettingsView;

    open spec fn deep_view(&self) -> SettingsView {
        SettingsView {
            license_key: self.license_key@,
            license_email: self.license_email@,
            tag_count: self.tag_count,
            tmdb_bearer_token: self.tmdb_bearer_token@,
            theme: self.theme@,
            font_size: self.font_size@,
        }
    }
}

/// The theme where none is stored.
pub fn default_theme() -> (r: String)
    ensures
        r@ == "Dark"@,
{
    "Dark".to_string()
}

/// The font size where none is stored: that of the system.
pub fn default_font_size() -> (r: String)
    ensures
        r@ == "System"@,
{
    "System".to_string()
}

/// The fixed font sizes, in logical pixels.
pub const SMALL_FONT_PX: u32 = 12;

pub const MEDIUM_FONT_PX: u32 = 15;

pub const LARGE_FONT_PX: u32 = 18;

/// The place of a font size in its list: 0 for the system's, then small, medium and large. A name
/// that is none of them counts as the system's.
pub open spec fn font_index(name: Seq<char>) -> i32 {
    let n = ascii_lowered(name);
    if n == "small"@ {
        1
    } else if n == "medium"@ {
        2
    } else if n == "large"@ {
        3
    } else {
        0
    }
}

/// The font size at a place of the list.
pub open spec fn font_name(index: i32) -> Seq<char> {
    if index == 1 {
        "Small"@
    } else if index == 2 {
        "Medium"@
    } else if index == 3 {
        "Large"@
    } else {
        "System"@
    }
}

/// The settings of someone who has none stored.
pub open spec fn no_settings() -> SettingsView {
    SettingsView {
        license_key: Seq::empty(),
        license_email: Seq::empty(),
        tag_count: 0,
        tmdb_bearer_token: Seq::empty(),
        theme: Seq::empty(),
        font_size: Seq::empty(),
    }
}

impl Default for Settings {
    fn default() -> (r: Self)
        ensures
            r.deep_view() == no_settings(),
    {
        let r = Settings {
            license_key: String::new(),
            license_email: String::new(),
            tag_count: 0,
            tmdb_bearer_token: String::new(),
            theme: String::new(),
            font_size: String::new(),
        };
        assert(r.license_key@ =~= Seq::<char>::empty());
        assert(r.license_email@ =~= Seq::<char>::empty());
        assert(r.tmdb_bearer_token@ =~= Seq::<char>::empty());
        assert(r.theme@ =~= Seq::<char>::empty());
        assert(r.font_size@ =~= Seq::<char>::empty());
        r
    }
}

impl Settings {
    /// Whether the saved license is valid.
    pub fn is_licensed(&self) -> (r: bool)
        ensures
            r == valid_key(LICENSE_SALT@, self.license_key@, self.license_email@),
    {
        is_valid(self.license_key.as_str(), self.license_email.as_str())
    }

    /// Whether the theme is dark: any but "Light", in any letter case.
    pub fn theme_is_dark(&self) -> (r: bool)
        ensures
            r == (ascii_lowered(self.theme@) != ascii_lowered("Light"@)),
    {
        !str_eq(to_ascii_lower(self.theme.as_str()).as_str(), to_ascii_lower("Light").as_str())
    }

    /// The place of the font size in its list: 0 for the system's, then small, medium and large.
    pub fn font_size_index(&self) -> (r: i32)
        ensures
            r == font_index(self.font_size@),
    {
        let n = to_ascii_lower(self.font_size.as_str());
        if str_eq(n.as_str(), "small") {
            1
        } else if str_eq(n.as_str(), "medium") {
            2
        } else if str_eq(n.as_str(), "large") {
            3
        } else {
            0
        }
    }

    /// The font size at a place of the list, as it is stored.
    pub fn font_size_from_index(index: i32) -> (r: String)
        ensures
            r@ == font_name(index),
    {
        if index == 1 {
            "Small".to_string()
        } else if index == 2 {
            "Medium".to_string()
        } else if index == 3 {
            "Large".to_string()
        } else {
            "System".to_string()
        }
    }

    /// The fixed font size in pixels, or none where the system's is to be used.
    pub fn font_size_px(&self) -> (r: Option<u32>)
        ensures
            r == (match font_index(self.font_size@) {
                1 => Some(SMALL_FONT_PX),
                2 => Some(MEDIUM_FONT_PX),
                3 => Some(LARGE_FONT_PX),
                _ => None::<u32>,
            }),
    {
        match self.font_size_index() {
            1 => Some(SMALL_FONT_PX),
            2 => Some(MEDIUM_FONT_PX),
            3 => Some(LARGE_FONT_PX),
            _ => None,
        }
    }
}

/// Each place of the font size list leads back to itself through the stored name.
pub proof fn law_font_size_round_trip(index: i32)
    requires
        0 <= index <= 3,
    ensures
        font_index(font_name(index)) == index,
{
    reveal_strlit("Small");
    reveal_strlit("Medium");
    reveal_strlit("Large");
    reveal_strlit("System");
    reveal_strlit("small");
    reveal_strlit("medium");
    reveal_strlit("large");
    let n = ascii_lowered(font_name(index));
    if index == 1 {
        assert(n =~= "small"@);
    } else if index == 2 {
        assert(n =~= "medium"@);
        assert(n.len() != "small"@.len());
    } else if index == 3 {
        assert(n =~= "large"@);
        assert(n[0] != "small"@[0]);
        assert(n.len() != "medium"@.len());
    } else {
        assert(n.len() != "small"@.len());
        assert(n.len() != "large"@.len());
        assert(n[0] != "medium"@[0]);
    }
}

/// Settings that name no theme are dark, and use the system's font size.
pub proof fn law_settings_default_to_dark()
    ensures
        ascii_lowered(no_settings().theme) != ascii_lowered("Light"@),
        ascii_lowered("Dark"@) != ascii_lowered("Light"@),
        font_index(no_settings().font_size) == 0,
        font_index("System"@) == 0,
{
    reveal_strlit("Light");
    reveal_strlit("Dark");
    reveal_strlit("small");
    reveal_strlit("medium");
    reveal_strlit("large");
    assert(ascii_lowered("Light"@).len() == 5);
    assert(ascii_lowered("Dark"@).len() == 4);
    assert(ascii_lowered(no_settings().theme).len() == 0);
    assert(ascii_lowered(no_settings().font_size).len() == 0);
    law_font_size_round_trip(0);
}

/// What a hexadecimal digit in upper case is worth.
pub open spec fn hex_worth(c: char) -> int {
    if '0' <= c <= '9' {
        c as int - '0' as int
    } else {
        c as int - 'A' as int + 10
    }
}

/// A key is sixteen hexadecimal digits, two for each of the first eight bytes of the code that the
/// salt gives the address, the higher half of a byte first.
pub proof fn law_key_spells_the_code(salt: Seq<char>, text: Seq<char>, k: int)
    requires
        0 <= k < 8,
    ensures
        ({
            let key = key_of(salt, text);
            let code = mac_of(encode_utf8(salt), encode_utf8(text));
            &&& key.len() == 16
            &&& hex_worth(key[2 * k]) == code[k] as int / 16
            &&& hex_worth(key[2 * k + 1]) == code[k] as int % 16
            &&& 16 * hex_worth(key[2 * k]) + hex_worth(key[2 * k + 1]) == code[k]
        }),
{
    let code = mac_of(encode_utf8(salt), encode_utf8(text));
    let key = key_of(salt, text);
    assert((2 * k) % 2 == 0 && (2 * k) / 2 == k && (2 * k + 1) % 2 == 1 && (2 * k + 1) / 2 == k);
    assert(key[2 * k] == hex_digit(code[k] as int / 16));
    assert(key[2 * k + 1] == hex_digit(code[k] as int % 16));
}

/// A key is read character by character: letters and digits count, in upper case, and nothing else
/// does.
pub proof fn law_key_is_read_character_by_character(a: Seq<char>, b: Seq<char>, c: char)
    ensures
        normalized_key(a + b) == normalized_key(a) + normalized_key(b),
        '0' <= c <= '9' || 'A' <= c <= 'Z' ==> normalized_key(seq![c]) == seq![c],
        'a' <= c <= 'z' ==> normalized_key(seq![c]) == seq![(c as int - 32) as char],
        !('0' <= c <= '9' || 'A' <= c <= 'Z' || 'a' <= c <= 'z') ==> normalized_key(seq![c]).len()
            == 0,
{
    lemma_normalized_concat(a, b);
    let one = seq![c];
    assert(one.drop_last() =~= Seq::<char>::empty());
    assert(normalized_key(one.drop_last()) =~= Seq::<char>::empty());
    assert(one.last() == c);
}

proof fn lemma_grouped(s: Seq<char>)
    ensures
        s.len() > 0 ==> grouped(s).len() == s.len() + (s.len() - 1) / 4,
        s.len() == 0 ==> grouped(s).len() == 0,
        forall|i: int| 0 <= i < s.len() ==> grouped(s)[i + i / 4] == #[trigger] s[i],
        forall|i: int| 0 <= i < grouped(s).len() && i % 5 == 4 ==> #[trigger] grouped(s)[i] == '-',
    decreases s.len(),
{
    if s.len() > 4 {
        let rest = s.skip(4);
        lemma_grouped(rest);
        let g = grouped(rest);
        let all = grouped(s);
        assert(all == s.take(4) + seq!['-'] + g);
        assert forall|i: int| 0 <= i < s.len() implies all[i + i / 4] == #[trigger] s[i] by {
            if i < 4 {
                assert(all[i] == s[i]);
            } else {
                assert(rest[i - 4] == s[i]);
                assert((i - 4) / 4 == i / 4 - 1);
                assert(all[i + i / 4] == g[i - 4 + (i - 4) / 4]);
            }
        }
        assert forall|i: int| 0 <= i < all.len() && i % 5 == 4 implies #[trigger] all[i] == '-' by {
            if i > 4 {
                assert(all[i] == g[i - 5]);
                assert((i - 5) % 5 == 4);
            }
        }
    }
}

/// A key is shown as at most sixteen characters in groups of four with a hyphen between, and no
/// hyphen at either end.
pub proof fn law_shown_key_is_in_groups_of_four(key: Seq<char>, i: int)
    ensures
        ({
            let all = normalized_key(key);
            let n: int = if all.len() < 16 {
                all.len() as int
            } else {
                16
            };
            let shown = formatted_key(key);
            &&& n == 0 ==> shown.len() == 0
            &&& n > 0 ==> shown.len() == n + (n - 1) / 4
            &&& 0 <= i < n ==> shown[i + i / 4] == all[i]
            &&& 0 <= i < shown.len() && i % 5 == 4 ==> shown[i] == '-'
        }),
{
    let s = first_sixteen(normalized_key(key));
    lemma_grouped(s);
    if 0 <= i < s.len() {
        assert(s[i] == normalized_key(key)[i]);
    }
}

/// The font sizes by name, in any letter case, and their sizes; any other name is the system's.
pub proof fn law_font_sizes_go_by_name(name: Seq<char>)
    ensures
        ascii_lowered(name) == "small"@ ==> font_index(name) == 1,
        ascii_lowered(name) == "medium"@ ==> font_index(name) == 2,
        ascii_lowered(name) == "large"@ ==> font_index(name) == 3,
        ascii_lowered(name) != "small"@ && ascii_lowered(name) != "medium"@ && ascii_lowered(name)
            != "large"@ ==> font_index(name) == 0,
        font_name(1) == "Small"@,
        font_name(2) == "Medium"@,
        font_name(3) == "Large"@,
        forall|index: i32| index < 1 || index > 3 ==> #[trigger] font_name(index) == "System"@,
        SMALL_FONT_PX == 12 && MEDIUM_FONT_PX == 15 && LARGE_FONT_PX == 18,
{
    reveal_strlit("small");
    reveal_strlit("medium");
    reveal_strlit("large");
    assert("small"@[0] == 's' && "medium"@[0] == 'm' && "large"@[0] == 'l');
}

/// The settings are seen part by part, each in its own place, and someone who has none stored has
/// nothing in them.
pub proof fn law_settings_are_seen_part_by_part(s: Settings)
    ensures
        s.deep_view().license_key == s.license_key@,
        s.deep_view().license_email == s.license_email@,
        s.deep_view().tag_count == s.tag_count,
        s.deep_view().tmdb_bearer_token == s.tmdb_bearer_token@,
        s.deep_view().theme == s.theme@,
        s.deep_view().font_size == s.font_size@,
        no_settings().license_key.len() == 0 && no_settings().license_email.len() == 0,
        no_settings().tag_count == 0 && no_settings().tmdb_bearer_token.len() == 0,
        no_settings().theme.len() == 0 && no_settings().font_size.len() == 0,
{
}

} // verus!
