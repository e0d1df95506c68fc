//! File names as queries.
//!
//! Movies are named like `Movie Name (2020).mp4`, episodes like
//! `Show Name - s01e02 - Episode Title.mkv` or `Show Name S01E02.mp4`, where the show may also be
//! the name of the folder.

use crate::error::{Error, Result};
use crate::model::{MediaKind, MediaQuery, QueryView};
use crate::text::{
    all_digits, chars_of, digits_value, is_digit, is_white, is_word, is_word_of, join, joined,
    law_words_keep_what_is_not_white, lemma_words_clean, lemma_words_joined, parse_i32, parse_u32,
    signed_value, solid, split_words, string_range, text_in, unsigned_value, words,
};
use regex::Regex;
use vstd::prelude::*;

verus! {

/// A show, a season and an episode.
pub const EPISODE_PATTERN: &'static str =
    "(?i)^(?P<show>.*?)[ ._-]*s(?P<season>\\d{1,2})[ ._-]*e(?P<episode>\\d{1,3})";

/// A year from 1900 to 2099, in brackets or on its own.
pub const YEAR_PATTERN: &'static str = "[\\(\\[ .]((?:19|20)\\d{2})[\\)\\] .]?";

/// The title behind a season and an episode.
pub const TITLE_PATTERN: &'static str =
    "(?i)s\\d{1,2}[ ._-]*e\\d{1,3}[ ._-]+(?P<title>.+)$";

/// Where a pattern matched: what stands in front of the match, and the groups, of which the first
/// is the match itself.
#[derive(Debug)]
pub struct Captured {
    pub before: String,
    pub groups: Vec<Option<String>>,
}

/// Where a pattern matched, as text.
pub struct CapturedView {
    pub before: Seq<char>,
    pub groups: Seq<Option<Seq<char>>>,
}

impl DeepView for Captured {
    type V = CapturedView;

    open spec fn deep_view(&self) -> CapturedView {
        CapturedView { before: self.before@, groups: self.groups.deep_view() }
    }
}

/// What `Regex::captures` of regex finds in a text, if the pattern matches.
pub uninterp spec fn captured(pattern: Seq<char>, text: Seq<char>) -> Option<CapturedView>;

/// Whether the groups of the season and of the episode took part in a match, with as many
/// characters as their patterns allow: one or two, and one to three.
pub open spec fn has_numbers(c: CapturedView) -> bool {
    &&& group(c, 2) matches Some(s) && 1 <= s.len() <= 2
    &&& group(c, 3) matches Some(s) && 1 <= s.len() <= 3
}

/// Whether the group of the year took part in a match: `19` or `20`, and two characters behind it.
pub open spec fn has_year(c: CapturedView) -> bool {
    group(c, 1) matches Some(s) && s.len() == 4 && ((s[0] == '1' && s[1] == '9') || (s[0] == '2'
        && s[1] == '0'))
}

/// `Regex::captures` of regex: the leftmost match of a pattern, its groups, and here also the text
/// in front of it. What is found depends on the pattern and the text alone. Of the groups, it is
/// said how many digits those of a season, an episode and a year have, and how a year begins; a
/// digit is one of any script.
#[verifier::external_body]
fn find_pattern(pattern: &str, text: &str) -> (r: Option<Captured>)
    requires
        pattern@ == EPISODE_PATTERN@ || pattern@ == YEAR_PATTERN@ || pattern@ == TITLE_PATTERN@,
    ensures
        r.deep_view() == captured(pattern@, text@),
        pattern@ == EPISODE_PATTERN@ ==> (r matches Some(c) ==> has_numbers(c.deep_view())),
        pattern@ == YEAR_PATTERN@ ==> (r matches Some(c) ==> has_year(c.deep_view())),
{
    let re = Regex::new(pattern).unwrap();
    re.captures(text).map(|c| Captured {
        before: text[..c.get(0).unwrap().start()].to_string(),
        groups: c.iter().map(|g| g.map(|m| m.as_str().to_string())).collect(),
    })
}

/// The group at an index; none where there is none or it took no part in the match.
pub open spec fn group(c: CapturedView, i: int) -> Option<Seq<char>> {
    if 0 <= i < c.groups.len() {
        c.groups[i]
    } else {
        None
    }
}

/// The group at an index; none where there is none or it took no part in the match.
fn group_text(c: &Captured, i: usize) -> (r: Option<&str>)
    ensures
        match r {
            Some(s) => group(c.deep_view(), i as int) == Some(s@),
            None => group(c.deep_view(), i as int) is None,
        },
{
    if i < c.groups.len() {
        assert(c.groups.deep_view()[i as int] == c.groups@[i as int].deep_view());
        match &c.groups[i] {
            Some(s) => Some(s.as_str()),
            None => None,
        }
    } else {
        None
    }
}

/// `c`, with dots and underscores turned into spaces.
pub open spec fn spaced(c: char) -> char {
    if c == '.' || c == '_' {
        ' '
    } else {
        c
    }
}

/// `s` with dots and underscores as spaces, and one space between words.
pub open spec fn normalized(s: Seq<char>) -> Seq<char> {
    joined(words(s.map_values(|c: char| spaced(c))), " "@)
}

/// `s` with dots and underscores as spaces, and one space between words.
pub fn normalize(s: &str) -> (r: String)
    ensures
        r@ == normalized(s@),
{
    let v = chars_of(s);
    let mut out = String::new();
    let ghost all = s@.map_values(|c: char| spaced(c));
    let mut i: usize = 0;
    while i < v.len()
        invariant
            i <= v@.len(),
            v@ == s@,
            all == s@.map_values(|c: char| spaced(c)),
            out@ == all.take(i as int),
        decreases v@.len() - i,
    {
        let c = v[i];
        if c == '.' || c == '_' {
            out.push(' ');
        } else {
            out.push(c);
        }
        assert(all.take(i + 1) =~= all.take(i as int).push(all[i as int]));
        i += 1;
    }
    assert(all.take(all.len() as int) =~= all);
    let parts = split_words(out.as_str());
    join(&parts, " ")
}

/// The last position of a dot in `s`.
pub open spec fn last_dot(s: Seq<char>) -> Option<int>
    decreases s.len(),
{
    if s.len() == 0 {
        None
    } else if s.last() == '.' {
        Some(s.len() - 1)
    } else {
        last_dot(s.drop_last())
    }
}

/// A file name without its extension: what stands in front of the last dot, unless that is
/// nothing.
pub open spec fn stem_of(file_name: Seq<char>) -> Seq<char> {
    match last_dot(file_name) {
        Some(i) => if i == 0 || file_name == ".."@ {
            file_name
        } else {
            file_name.take(i)
        },
        None => file_name,
    }
}

/// The extension of a file name: what stands behind the last dot, unless nothing stands in front
/// of it.
pub open spec fn extension_of(file_name: Seq<char>) -> Option<Seq<char>> {
    match last_dot(file_name) {
        Some(i) => if i == 0 || file_name == ".."@ {
            None
        } else {
            Some(file_name.skip(i + 1))
        },
        None => None,
    }
}

/// The last position of a dot in `v`.
fn find_last_dot(v: &Vec<char>) -> (r: Option<usize>)
    ensures
        r matches Some(i) ==> i < v@.len() && last_dot(v@) == Some(i as int),
        r is None ==> last_dot(v@) is None,
{
    let mut n: usize = v.len();
    assert(v@.take(v@.len() as int) =~= v@);
    while n > 0
        invariant
            n <= v@.len(),
            last_dot(v@) == last_dot(v@.take(n as int)),
        decreases n,
    {
        assert(v@.take(n as int).drop_last() =~= v@.take(n - 1));
        if v[n - 1] == '.' {
            return Some(n - 1);
        }
        n -= 1;
    }
    None
}

/// Whether `v` is two dots.
fn two_dots(v: &Vec<char>) -> (r: bool)
    ensures
        r == (v@ == ".."@),
{
    proof {
        reveal_strlit("..");
    }
    let r = v.len() == 2 && v[0] == '.' && v[1] == '.';
    proof {
        if r {
            assert(v@ =~= ".."@);
        }
    }
    r
}

/// A file name without its extension.
pub fn file_stem(file_name: &str) -> (r: String)
    ensures
        r@ == stem_of(file_name@),
{
    let v = chars_of(file_name);
    match find_last_dot(&v) {
        Some(i) => if i == 0 || two_dots(&v) {
            file_name.to_string()
        } else {
            let out = string_range(&v, 0, i);
            assert(out@ =~= file_name@.take(i as int));
            out
        },
        None => file_name.to_string(),
    }
}

/// The extension of a file name, if it has one.
pub fn extension(file_name: &str) -> (r: Option<String>)
    ensures
        r.deep_view() == extension_of(file_name@),
{
    let v = chars_of(file_name);
    match find_last_dot(&v) {
        Some(i) => if i == 0 || two_dots(&v) {
            None
        } else {
            let n: usize = v.len();
            assert(i < n);
            let out = string_range(&v, i + 1, n);
            assert(out@ =~= file_name@.skip(i + 1));
            Some(out)
        },
        None => None,
    }
}

/// The number in a group; 0 where it is none.
pub open spec fn number_in(s: Option<Seq<char>>) -> u32 {
    match s {
        Some(t) => match unsigned_value(t, u32::MAX as nat) {
            Some(n) => n as u32,
            None => 0,
        },
        None => 0,
    }
}

/// The query for an episode: the show in front of the match, or the folder's name where there is
/// none.
pub open spec fn episode_query(c: CapturedView, folder: Option<Seq<char>>) -> QueryView {
    let show = match group(c, 1) {
        Some(s) => normalized(s),
        None => normalized(""@),
    };
    QueryView {
        title: if show.len() == 0 {
            match folder {
                Some(f) => normalized(f),
                None => Seq::empty(),
            }
        } else {
            show
        },
        year: None,
        kind: MediaKind::TvShow,
        season: Some(number_in(group(c, 2))),
        episode: Some(number_in(group(c, 3))),
    }
}

/// The title of a movie: what stands in front of the year, or all of the name.
pub open spec fn movie_title(year: Option<CapturedView>, stem: Seq<char>) -> Seq<char> {
    match year {
        Some(c) => normalized(c.before),
        None => normalized(stem),
    }
}

/// The year of a movie.
pub open spec fn movie_year(year: Option<CapturedView>) -> Option<i32> {
    match year {
        Some(c) => match group(c, 1) {
            Some(s) => match signed_value(s) {
                Some(n) => Some(n as i32),
                None => None,
            },
            None => None,
        },
        None => None,
    }
}

/// The number in a group; 0 where it is none.
fn group_number(c: &Captured, i: usize) -> (r: u32)
    ensures
        r == number_in(group(c.deep_view(), i as int)),
{
    match group_text(c, i) {
        Some(s) => match parse_u32(s) {
            Some(n) => n,
            None => 0,
        },
        None => 0,
    }
}

/// The query for an episode, from where the episode pattern matched and from the folder's name.
pub fn query_from_episode(c: &Captured, folder: Option<&str>) -> (r: MediaQuery)
    ensures
        r.deep_view() == episode_query(
            c.deep_view(),
            match folder {
                Some(f) => Some(f@),
                None => None,
            },
        ),
{
    let show = match group_text(c, 1) {
        Some(s) => normalize(s),
        None => normalize(""),
    };
    let title = if show.as_str().is_empty() {
        match folder {
            Some(f) => normalize(f),
            None => String::new(),
        }
    } else {
        show
    };
    MediaQuery {
        title,
        year: None,
        kind: MediaKind::TvShow,
        season: Some(group_number(c, 2)),
        episode: Some(group_number(c, 3)),
    }
}

/// The query for a movie, from where the year pattern matched and from the name. An error where no
/// title is left.
pub fn query_from_movie(year: Option<&Captured>, stem: &str) -> (r: Result<MediaQuery>)
    ensures
        ({
            let c = match year {
                Some(c) => Some(c.deep_view()),
                None => None,
            };
            let title = movie_title(c, stem@);
            if title.len() == 0 {
                r matches Err(Error::Naming(m)) && m@ == "empty title from `"@ + stem@ + "`"@
            } else {
                r matches Ok(q) && q.deep_view() == (QueryView {
                    title,
                    year: movie_year(c),
                    kind: MediaKind::Movie,
                    season: None,
                    episode: None,
                })
            }
        }),
{
    let title = match year {
        Some(c) => normalize(c.before.as_str()),
        None => normalize(stem),
    };
    if title.as_str().is_empty() {
        return Err(
            Error::Naming("empty title from `".to_string().concat(stem).concat("`")),
        );
    }
    let number: Option<i32> = match year {
        Some(c) => match group_text(c, 1) {
            Some(s) => parse_i32(s),
            None => None,
        },
        None => None,
    };
    Ok(MediaQuery { title, year: number, kind: MediaKind::Movie, season: None, episode: None })
}

/// The query that the name of a file stands for, with the name of the folder it is in: an episode
/// where a season and an episode are found in it, else a movie; none where no title is left.
pub open spec fn parsed(file_name: Seq<char>, folder: Option<Seq<char>>) -> Option<QueryView> {
    let stem = stem_of(file_name);
    match captured(EPISODE_PATTERN@, stem) {
        Some(c) => Some(episode_query(c, folder)),
        None => {
            let year = captured(YEAR_PATTERN@, stem);
            let title = movie_title(year, stem);
            if title.len() == 0 {
                None
            } else {
                Some(
                    QueryView {
                        title,
                        year: movie_year(year),
                        kind: MediaKind::Movie,
                        season: None,
                        episode: None,
                    },
                )
            }
        },
    }
}

/// Numbers of one to three digits are below 1000, those of one or two below 100, and those of four
/// that begin with 19 or 20 are from 1900 to 2099.
proof fn lemma_short_numbers(s: Seq<char>)
    requires
        1 <= s.len() <= 4,
    ensures
        unsigned_value(s, u32::MAX as nat) matches Some(n) ==> n < 10000 && (s.len() <= 3 ==> n
            < 1000) && (s.len() <= 2 ==> n < 100),
        s.len() == 4 && ((s[0] == '1' && s[1] == '9') || (s[0] == '2' && s[1] == '0')) ==> (
        signed_value(s) matches Some(n) ==> 1900 <= n <= 2099),
{
    reveal_with_fuel(digits_value, 5);
    let t = s.drop_first();
    assert(t.len() > 0 ==> t.last() == s.last());
    assert(t.len() > 1 ==> t.drop_last().last() == s[s.len() - 2]);
    assert(t.len() > 2 ==> t.drop_last().drop_last().last() == s[s.len() - 3]);
    assert(s.len() > 1 ==> s.drop_last().last() == s[s.len() - 2]);
    assert(s.len() > 2 ==> s.drop_last().drop_last().last() == s[s.len() - 3]);
    assert(s.len() > 3 ==> s.drop_last().drop_last().drop_last().last() == s[s.len() - 4]);
}

/// Whether the numbers of a query are as they can be read from a file name: a season of at most two
/// digits, an episode of at most three, and a year from 1900 to 2099.
pub open spec fn in_bounds(q: QueryView) -> bool {
    &&& q.season matches Some(n) ==> n <= 99
    &&& q.episode matches Some(n) ==> n <= 999
    &&& q.year matches Some(y) ==> 1900 <= y <= 2099
}

/// The query that the name of a file stands for, with the name of the folder it is in: an episode
/// where a season and an episode are found in it, else a movie. An error where no title is left.
pub fn parse(file_name: &str, folder: Option<&str>) -> (r: Result<MediaQuery>)
    ensures
        match parsed(file_name@, text_in(folder)) {
            Some(query) => r matches Ok(q) && q.deep_view() == query,
            None => r matches Err(Error::Naming(m)) && m@ == "empty title from `"@ + stem_of(
                file_name@,
            ) + "`"@,
        },
        r matches Ok(q) ==> in_bounds(q.deep_view()),
{
    let stem = file_stem(file_name);
    match find_pattern(EPISODE_PATTERN, stem.as_str()) {
        Some(c) => {
            proof {
                lemma_short_numbers(group(c.deep_view(), 2).unwrap());
                lemma_short_numbers(group(c.deep_view(), 3).unwrap());
            }
            Ok(query_from_episode(&c, folder))
        },
        None => {
            let year = find_pattern(YEAR_PATTERN, stem.as_str());
            match &year {
                Some(c) => {
                    proof {
                        lemma_short_numbers(group(c.deep_view(), 1).unwrap());
                    }
                    query_from_movie(Some(c), stem.as_str())
                },
                None => query_from_movie(None, stem.as_str()),
            }
        },
    }
}

/// The title in what the title pattern found; none where it is blank.
pub open spec fn title_in(c: Option<CapturedView>) -> Option<Seq<char>> {
    match c {
        Some(c) => match group(c, 1) {
            Some(s) => if normalized(s).len() == 0 {
                None
            } else {
                Some(normalized(s))
            },
            None => None,
        },
        None => None,
    }
}

/// The title in where the title pattern matched; none where it is blank.
pub fn title_from_match(c: &Captured) -> (r: Option<String>)
    ensures
        r.deep_view() == title_in(Some(c.deep_view())),
{
    match group_text(c, 1) {
        Some(s) => {
            let title = normalize(s);
            if title.as_str().is_empty() {
                None
            } else {
                Some(title)
            }
        },
        None => None,
    }
}

/// The title of an episode in a file name without its extension, if there is one.
pub fn episode_title(stem: &str) -> (r: Option<String>)
    ensures
        r.deep_view() == title_in(captured(TITLE_PATTERN@, stem@)),
{
    match find_pattern(TITLE_PATTERN, stem) {
        Some(c) => title_from_match(&c),
        None => None,
    }
}

/// Normalizing a second time changes nothing.
pub proof fn law_normalize_is_idempotent(s: Seq<char>)
    ensures
        normalized(normalized(s)) == normalized(s),
{
    let t = s.map_values(|c: char| spaced(c));
    let ws = words(t);
    let n = normalized(s);
    reveal_strlit(" ");
    lemma_words_clean(t);
    assert forall|i: int, k: int| 0 <= i < ws.len() && 0 <= k < ws[i].len() implies (
    #[trigger] ws[i][k]) != '.' && ws[i][k] != '_' by {
        assert(is_word_of(ws[i], t));
        assert(t.contains(ws[i][k]));
        let j = choose|j: int| 0 <= j < t.len() && t[j] == ws[i][k];
        assert(t[j] == spaced(s[j]));
    }
    lemma_joined_plain(ws);
    assert(n.map_values(|c: char| spaced(c)) =~= n);
    lemma_words_joined(ws);
}

/// Text that is joined from words without dots and underscores has none.
proof fn lemma_joined_plain(ws: Seq<Seq<char>>)
    requires
        forall|i: int, k: int|
            0 <= i < ws.len() && 0 <= k < ws[i].len() ==> (#[trigger] ws[i][k]) != '.' && ws[i][k]
                != '_',
    ensures
        forall|k: int|
            0 <= k < joined(ws, " "@).len() ==> spaced(#[trigger] joined(ws, " "@)[k]) == joined(
                ws,
                " "@,
            )[k],
    decreases ws.len(),
{
    reveal_strlit(" ");
    if ws.len() == 0 {
    } else if ws.len() == 1 {
        assert(joined(ws, " "@) == ws[0]);
    } else {
        let init = ws.drop_last();
        assert forall|i: int, k: int| 0 <= i < init.len() && 0 <= k < init[i].len() implies (
        #[trigger] init[i][k]) != '.' && init[i][k] != '_' by {
            assert(init[i] == ws[i]);
            assert(ws[i][k] != '.');
        }
        lemma_joined_plain(init);
        let a = joined(init, " "@);
        let b = ws.last();
        let all = joined(ws, " "@);
        assert(b == ws[ws.len() - 1]);
        assert forall|k: int| 0 <= k < all.len() implies spaced(#[trigger] all[k]) == all[k] by {
            if k < a.len() {
                assert(all[k] == a[k]);
            } else if k == a.len() {
                assert(all[k] == ' ');
            } else {
                assert(all[k] == b[k - a.len() - 1]);
                assert(ws[ws.len() - 1][k - a.len() - 1] != '.');
            }
        }
    }
}

// ---------------------------------------------------------------------------
// Laws of the names
// ---------------------------------------------------------------------------

/// Whether `c` only parts words in a file name: white space, a dot or an underscore.
pub open spec fn parts_words(c: char) -> bool {
    is_white(c) || c == '.' || c == '_'
}

/// Whether there is a word in `s`: a character that does not only part words.
pub open spec fn has_word(s: Seq<char>) -> bool {
    exists|i: int| 0 <= i < s.len() && !parts_words(#[trigger] s[i])
}

/// The characters of `s` that do not only part words, in order.
pub open spec fn letters(s: Seq<char>) -> Seq<char>
    decreases s.len(),
{
    if s.len() == 0 {
        Seq::empty()
    } else if parts_words(s[0]) {
        letters(s.drop_first())
    } else {
        seq![s[0]] + letters(s.drop_first())
    }
}

/// What is not white behind the dots and underscores turned into spaces.
proof fn lemma_letters_spaced(s: Seq<char>)
    ensures
        solid(s.map_values(|c: char| spaced(c))) == letters(s),
        has_word(s) == (letters(s).len() > 0),
    decreases s.len(),
{
    if s.len() > 0 {
        let rest = s.drop_first();
        let t = s.map_values(|c: char| spaced(c));
        lemma_letters_spaced(rest);
        assert(t.drop_first() =~= rest.map_values(|c: char| spaced(c)));
        assert(t[0] == spaced(s[0]));
        if has_word(rest) {
            let i = choose|i: int| 0 <= i < rest.len() && !parts_words(#[trigger] rest[i]);
            assert(!parts_words(s[i + 1]));
        }
        if has_word(s) && parts_words(s[0]) {
            let i = choose|i: int| 0 <= i < s.len() && !parts_words(#[trigger] s[i]);
            assert(!parts_words(rest[i - 1]));
        }
    }
}

/// Text that is joined from words begins and ends with something else than white space, and has no
/// white space but single spaces.
proof fn lemma_joined_neat(ws: Seq<Seq<char>>)
    requires
        forall|i: int| 0 <= i < ws.len() ==> is_word(#[trigger] ws[i]),
    ensures
        ({
            let r = joined(ws, " "@);
            &&& ws.len() > 0 ==> r.len() > 0 && !is_white(r[0]) && !is_white(r.last())
            &&& forall|k: int| 0 <= k < r.len() && is_white(#[trigger] r[k]) ==> r[k] == ' '
            &&& forall|k: int|
                0 < k < r.len() && is_white(#[trigger] r[k]) ==> !is_white(r[k - 1])
        }),
    decreases ws.len(),
{
    reveal_strlit(" ");
    let r = joined(ws, " "@);
    if ws.len() == 1 {
        assert(is_word(ws[0]));
    } else if ws.len() > 1 {
        let init = ws.drop_last();
        assert forall|i: int| 0 <= i < init.len() implies is_word(#[trigger] init[i]) by {
            assert(is_word(ws[i]));
        }
        lemma_joined_neat(init);
        let a = joined(init, " "@);
        let b = ws.last();
        assert(is_word(ws[ws.len() - 1]));
        assert(r =~= a + " "@ + b);
        assert forall|k: int| 0 <= k < r.len() && is_white(#[trigger] r[k]) implies r[k] == ' ' && (
        k > 0 ==> !is_white(r[k - 1])) by {
            if k < a.len() {
                assert(r[k] == a[k]);
                if k > 0 {
                    assert(r[k - 1] == a[k - 1]);
                }
            } else if k == a.len() {
                assert(r[k - 1] == a.last());
            } else {
                assert(r[k] == b[k - a.len() - 1]);
            }
        }
        assert(r[0] == a[0]);
        assert(r.last() == b.last());
    }
}

/// Normalizing keeps all letters of a text and their order, drops dots and underscores, and leaves
/// single spaces between words and none at the ends. Nothing is left exactly where there is no word
/// in the text.
pub proof fn law_normalize_keeps_the_letters(s: Seq<char>)
    ensures
        letters(normalized(s)) == letters(s),
        (normalized(s).len() > 0) == has_word(s),
        ({
            let r = normalized(s);
            &&& forall|k: int| 0 <= k < r.len() && parts_words(#[trigger] r[k]) ==> r[k] == ' '
            &&& forall|k: int| 0 < k < r.len() && #[trigger] r[k] == ' ' ==> r[k - 1] != ' '
            &&& r.len() > 0 ==> r[0] != ' ' && r.last() != ' '
        }),
{
    let t = s.map_values(|c: char| spaced(c));
    let ws = words(t);
    let r = normalized(s);
    reveal_strlit(" ");
    lemma_words_clean(t);
    assert forall|i: int, k: int| 0 <= i < ws.len() && 0 <= k < ws[i].len() implies (
    #[trigger] ws[i][k]) != '.' && ws[i][k] != '_' by {
        assert(is_word_of(ws[i], t));
        assert(t.contains(ws[i][k]));
        let j = choose|j: int| 0 <= j < t.len() && t[j] == ws[i][k];
        assert(t[j] == spaced(s[j]));
    }
    lemma_joined_plain(ws);
    assert forall|i: int| 0 <= i < ws.len() implies is_word(#[trigger] ws[i]) by {
        assert(is_word_of(ws[i], t));
    }
    lemma_joined_neat(ws);
    assert(r.map_values(|c: char| spaced(c)) =~= r);
    law_words_keep_what_is_not_white(t);
    lemma_letters_spaced(s);
    lemma_letters_spaced(r);
    if r.len() > 0 {
        assert(ws.len() > 0);
        assert(!parts_words(r[0])) by {
            assert(spaced(r[0]) == r[0]);
        }
        assert(has_word(r));
    }
    assert forall|k: int| 0 <= k < r.len() && parts_words(#[trigger] r[k]) implies r[k] == ' ' by {
        assert(spaced(r[k]) == r[k]);
    }
}

/// Where there is a word in what stands in front of the season and the episode, that text,
/// normalized, is the title, whatever the folder is called: the same match in two folders gives the
/// same query. Only where there is none is the title the normalized name of the folder, or empty
/// where there is no folder.
pub proof fn law_folder_stands_in_for_a_missing_show(
    c: CapturedView,
    folder: Option<Seq<char>>,
    other: Option<Seq<char>>,
)
    requires
        c.groups.len() > 1,
    ensures
        c.groups[1] matches Some(show) && has_word(show) ==> {
            &&& episode_query(c, folder).title == normalized(c.groups[1]->0)
            &&& episode_query(c, folder) == episode_query(c, other)
        },
        !(c.groups[1] matches Some(show) && has_word(show)) ==> (match folder {
            Some(name) => episode_query(c, folder).title == normalized(name),
            None => episode_query(c, folder).title == Seq::<char>::empty(),
        }),
{
    reveal_strlit("");
    if let Some(show) = c.groups[1] {
        law_normalize_keeps_the_letters(show);
    }
    law_normalize_keeps_the_letters(""@);
}

/// The season and the episode are the numbers that the second and the third group hold, each in its
/// own place, and an episode has no year.
pub proof fn law_episode_has_the_numbers_of_its_name(c: CapturedView, folder: Option<Seq<char>>)
    requires
        c.groups.len() > 3,
        c.groups[2] is Some,
        c.groups[3] is Some,
    ensures
        ({
            let q = episode_query(c, folder);
            let season = c.groups[2]->0;
            let episode = c.groups[3]->0;
            &&& q.kind == MediaKind::TvShow
            &&& q.year is None
            &&& all_digits(season) && digits_value(season) <= u32::MAX ==> q.season == Some(
                digits_value(season) as u32,
            )
            &&& all_digits(episode) && digits_value(episode) <= u32::MAX ==> q.episode == Some(
                digits_value(episode) as u32,
            )
        }),
{
    let season = c.groups[2]->0;
    let episode = c.groups[3]->0;
    assert(all_digits(season) ==> is_digit(season[0]));
    assert(all_digits(episode) ==> is_digit(episode[0]));
}

/// The folder of a file matters only to an episode whose name has no show in it: any other file
/// stands for the same query in every folder. A name without a season and an episode stands for a
/// movie, whose title is what stands in front of the year, or all of the name where there is no
/// year, and whose year is the one in the name.
pub proof fn law_folder_does_not_matter_to_other_files(
    file_name: Seq<char>,
    folder: Option<Seq<char>>,
    other: Option<Seq<char>>,
)
    ensures
        ({
            let stem = stem_of(file_name);
            match captured(EPISODE_PATTERN@, stem) {
                Some(c) => {
                    &&& parsed(file_name, folder) == Some(episode_query(c, folder))
                    &&& c.groups.len() > 1 && c.groups[1] is Some && has_word(c.groups[1]->0)
                        ==> parsed(file_name, folder) == parsed(file_name, other)
                },
                None => {
                    let year = captured(YEAR_PATTERN@, stem);
                    let title = match year {
                        Some(c) => c.before,
                        None => stem,
                    };
                    &&& parsed(file_name, folder) == parsed(file_name, other)
                    &&& (parsed(file_name, folder) is Some) == has_word(title)
                    &&& parsed(file_name, folder) matches Some(q) ==> {
                        &&& q.kind == MediaKind::Movie
                        &&& q.title == normalized(title)
                        &&& q.season is None
                        &&& q.episode is None
                        &&& year is None ==> q.year is None
                        &&& year matches Some(c) ==> c.groups.len() > 1 && c.groups[1] is Some
                            && all_digits(c.groups[1]->0) && digits_value(c.groups[1]->0)
                            <= i32::MAX ==> q.year == Some(digits_value(c.groups[1]->0) as i32)
                    }
                },
            }
        }),
{
    let stem = stem_of(file_name);
    match captured(EPISODE_PATTERN@, stem) {
        Some(c) => {
            if c.groups.len() > 1 {
                law_folder_stands_in_for_a_missing_show(c, folder, other);
            }
        },
        None => {
            match captured(YEAR_PATTERN@, stem) {
                Some(c) => {
                    law_normalize_keeps_the_letters(c.before);
                    if c.groups.len() > 1 && c.groups[1] is Some && all_digits(c.groups[1]->0) {
                        assert(is_digit((c.groups[1]->0)[0]));
                    }
                },
                None => {
                    law_normalize_keeps_the_letters(stem);
                },
            }
        },
    }
}

/// The title of an episode is what stands behind the season and the episode, normalized, where
/// there is a word in it.
pub proof fn law_episode_title_is_a_word(c: CapturedView)
    requires
        c.groups.len() > 1,
    ensures
        c.groups[1] matches Some(t) && has_word(t) ==> title_in(Some(c)) == Some(
            normalized(c.groups[1]->0),
        ),
        !(c.groups[1] matches Some(t) && has_word(t)) ==> title_in(Some(c)) is None,
{
    if let Some(t) = c.groups[1] {
        law_normalize_keeps_the_letters(t);
    }
}

proof fn lemma_last_dot(s: Seq<char>)
    ensures
        last_dot(s) matches Some(i) ==> 0 <= i < s.len() && s[i] == '.' && forall|k: int|
            i < k < s.len() ==> #[trigger] s[k] != '.',
        last_dot(s) is None ==> forall|k: int| 0 <= k < s.len() ==> #[trigger] s[k] != '.',
    decreases s.len(),
{
    if s.len() > 0 && s.last() != '.' {
        let init = s.drop_last();
        lemma_last_dot(init);
        assert forall|k: int|
            0 <= k < s.len() && (last_dot(s) matches Some(i) ==> i < k) implies #[trigger] s[k]
            != '.' by {
            if k < init.len() {
                assert(s[k] == init[k]);
            }
        }
    }
}

/// A file name is its stem, a dot and its extension, where it has one, and the extension has no dot
/// in it. It has one exactly where there is a dot in it that is not its first character, unless it
/// is two dots; without one, the stem is all of the name.
pub proof fn law_name_is_stem_and_extension(file_name: Seq<char>)
    ensures
        match extension_of(file_name) {
            Some(e) => {
                &&& file_name == stem_of(file_name) + seq!['.'] + e
                &&& !e.contains('.')
                &&& stem_of(file_name).len() > 0
            },
            None => stem_of(file_name) == file_name,
        },
        (extension_of(file_name) is Some) == (file_name != seq!['.', '.'] && exists|i: int|
            0 < i < file_name.len() && #[trigger] file_name[i] == '.'),
{
    reveal_strlit("..");
    lemma_last_dot(file_name);
    assert(".."@ =~= seq!['.', '.']);
    if let Some(e) = extension_of(file_name) {
        let i = last_dot(file_name)->0;
        assert(file_name =~= file_name.take(i) + seq!['.'] + file_name.skip(i + 1));
        if e.contains('.') {
            let k = choose|k: int| 0 <= k < e.len() && e[k] == '.';
            assert(file_name[i + 1 + k] == '.');
        }
        assert(file_name[i] == '.');
    }
}

} // verus!
