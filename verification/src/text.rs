//! Text as sequences of characters: the few string operations the library needs.

use vstd::prelude::*;

verus! {

/// `String::push` of std: the character goes to the end.
pub assume_specification[ String::push ](s: &mut String, c: char)
    ensures
        final(s)@ == old(s)@.push(c),
;

// ---------------------------------------------------------------------------
// Characters and whole strings
// ---------------------------------------------------------------------------

/// The characters of `s`, in order.
pub fn chars_of(s: &str) -> (r: Vec<char>)
    ensures
        r@ == s@,
{
    let mut out: Vec<char> = Vec::new();
    for c in iter: s.chars()
        invariant
            out@ == iter.seq().take(iter.index()),
            iter.seq() == s@,
    {
        out.push(c);
    }
    out
}

/// Appends `v[from..to]` to `out`.
pub fn push_range(out: &mut String, v: &Vec<char>, from: usize, to: usize)
    requires
        from <= to <= v@.len(),
    ensures
        final(out)@ == old(out)@ + v@.subrange(from as int, to as int),
{
    let ghost before = out@;
    let mut i: usize = from;
    while i < to
        invariant
            from <= i <= to <= v@.len(),
            out@ == before + v@.subrange(from as int, i as int),
        decreases to - i,
    {
        out.push(v[i]);
        assert(v@.subrange(from as int, i + 1) =~= v@.subrange(from as int, i as int).push(
            v@[i as int],
        ));
        i += 1;
    }
}

/// The string made of `v[from..to]`.
pub fn string_range(v: &Vec<char>, from: usize, to: usize) -> (r: String)
    requires
        from <= to <= v@.len(),
    ensures
        r@ == v@.subrange(from as int, to as int),
{
    let mut out = String::new();
    push_range(&mut out, v, from, to);
    out
}

/// Whether two strings hold the same characters.
pub fn str_eq(a: &str, b: &str) -> (r: bool)
    ensures
        r == (a@ == b@),
{
    let x = chars_of(a);
    let y = chars_of(b);
    if x.len() != y.len() {
        return false;
    }
    let mut i: usize = 0;
    while i < x.len()
        invariant
            i <= x@.len(),
            x@.len() == y@.len(),
            x@ == a@,
            y@ == b@,
            forall|k: int| 0 <= k < i ==> x@[k] == y@[k],
        decreases x@.len() - i,
    {
        if x[i] != y[i] {
            assert(a@[i as int] != b@[i as int]);
            return false;
        }
        i += 1;
    }
    assert(x@ =~= y@);
    true
}

/// A copy of a list of strings.
pub fn copy_list(list: &Vec<String>) -> (r: Vec<String>)
    ensures
        r.deep_view() == list.deep_view(),
{
    let mut out: Vec<String> = Vec::new();
    let mut i: usize = 0;
    while i < list.len()
        invariant
            i <= list@.len(),
            out.deep_view() == list.deep_view().take(i as int),
        decreases list@.len() - i,
    {
        let ghost before = out.deep_view();
        out.push(list[i].clone());
        assert(out.deep_view() =~= before.push(list@[i as int]@));
        assert(out.deep_view() =~= list.deep_view().take(i + 1));
        i += 1;
    }
    assert(list.deep_view().take(list@.len() as int) =~= list.deep_view());
    out
}

/// A copy of an optional string.
pub fn copy_opt(s: &Option<String>) -> (r: Option<String>)
    ensures
        r.deep_view() == s.deep_view(),
{
    match s {
        Some(t) => Some(t.clone()),
        None => None,
    }
}

/// The text of an optional reference.
pub open spec fn text_in(s: Option<&str>) -> Option<Seq<char>> {
    match s {
        Some(t) => Some(t@),
        None => None,
    }
}

// ---------------------------------------------------------------------------
// Whitespace
// ---------------------------------------------------------------------------

/// Whether `c` has Unicode's White_Space property.
pub open spec fn is_white(c: char) -> bool {
    let n = c as int;
    ||| 0x9 <= n <= 0xd
    ||| n == 0x20
    ||| n == 0x85
    ||| n == 0xa0
    ||| n == 0x1680
    ||| 0x2000 <= n <= 0x200a
    ||| n == 0x2028
    ||| n == 0x2029
    ||| n == 0x202f
    ||| n == 0x205f
    ||| n == 0x3000
}

/// Whether `c` is a white space character.
pub fn white(c: char) -> (r: bool)
    ensures
        r == is_white(c),
{
    let n: u32 = c as u32;
    (0x9 <= n && n <= 0xd) || n == 0x20 || n == 0x85 || n == 0xa0 || n == 0x1680 || (0x2000 <= n
        && n <= 0x200a) || n == 0x2028 || n == 0x2029 || n == 0x202f || n == 0x205f || n == 0x3000
}

/// `s` without the white space in front.
pub open spec fn trim_start(s: Seq<char>) -> Seq<char>
    decreases s.len(),
{
    if s.len() > 0 && is_white(s[0]) {
        trim_start(s.drop_first())
    } else {
        s
    }
}

/// `s` without the white space at its end.
pub open spec fn trim_end(s: Seq<char>) -> Seq<char>
    decreases s.len(),
{
    if s.len() > 0 && is_white(s.last()) {
        trim_end(s.drop_last())
    } else {
        s
    }
}

/// `s` without the white space at either end.
pub open spec fn trimmed(s: Seq<char>) -> Seq<char> {
    trim_end(trim_start(s))
}

proof fn lemma_trim_end_front(s: Seq<char>)
    ensures
        trim_end(s).len() <= s.len(),
        trim_end(s).len() > 0 ==> trim_end(s)[0] == s[0] && !is_white(trim_end(s).last()),
    decreases s.len(),
{
    if s.len() > 0 && is_white(s.last()) {
        lemma_trim_end_front(s.drop_last());
    }
}

proof fn lemma_trim_start_front(s: Seq<char>)
    ensures
        trim_start(s).len() > 0 ==> !is_white(trim_start(s)[0]),
    decreases s.len(),
{
    if s.len() > 0 && is_white(s[0]) {
        lemma_trim_start_front(s.drop_first());
    }
}

/// Trimmed text has no white space at its ends.
pub proof fn lemma_trimmed_ends(s: Seq<char>)
    ensures
        trimmed(s).len() > 0 ==> !is_white(trimmed(s)[0]) && !is_white(trimmed(s).last()),
{
    lemma_trim_start_front(s);
    lemma_trim_end_front(trim_start(s));
}

/// Trimming a second time changes nothing.
pub proof fn law_trim_is_idempotent(s: Seq<char>)
    ensures
        trimmed(trimmed(s)) == trimmed(s),
{
    lemma_trim_start_front(s);
    lemma_trim_end_front(trim_start(s));
    assert(trim_start(trimmed(s)) == trimmed(s));
}

proof fn lemma_trim_start_cut(s: Seq<char>)
    ensures
        trim_start(s).len() <= s.len(),
        trim_start(s) == s.skip(s.len() - trim_start(s).len()),
        forall|k: int| 0 <= k < s.len() - trim_start(s).len() ==> is_white(#[trigger] s[k]),
    decreases s.len(),
{
    if s.len() > 0 && is_white(s[0]) {
        let rest = s.drop_first();
        lemma_trim_start_cut(rest);
        assert forall|k: int| 0 <= k < s.len() - trim_start(s).len() implies is_white(
            #[trigger] s[k],
        ) by {
            if k > 0 {
                assert(s[k] == rest[k - 1]);
            }
        }
    }
}

proof fn lemma_trim_end_cut(s: Seq<char>)
    ensures
        trim_end(s).len() <= s.len(),
        trim_end(s) == s.take(trim_end(s).len() as int),
        forall|k: int| trim_end(s).len() <= k < s.len() ==> is_white(#[trigger] s[k]),
    decreases s.len(),
{
    if s.len() > 0 && is_white(s.last()) {
        let rest = s.drop_last();
        lemma_trim_end_cut(rest);
        assert forall|k: int| trim_end(s).len() <= k < s.len() implies is_white(
            #[trigger] s[k],
        ) by {
            if k < rest.len() {
                assert(s[k] == rest[k]);
            }
        }
    }
}

/// Whether a character of `s` is not white.
pub open spec fn has_solid(s: Seq<char>) -> bool {
    exists|i: int| 0 <= i < s.len() && !is_white(#[trigger] s[i])
}

/// Trimming cuts off white space only, at both ends and all of it: what is left stands in the text
/// as it was, from the first character that is not white to the last one. Nothing is left exactly
/// where all of the text is white.
pub proof fn law_trim_cuts_white_space_only(s: Seq<char>)
    ensures
        exists|i: int, j: int|
            0 <= i <= j <= s.len() && trimmed(s) == #[trigger] s.subrange(i, j) && (forall|k: int|
                0 <= k < s.len() && !(i <= k < j) ==> is_white(#[trigger] s[k])) && (i < j
                ==> !is_white(s[i]) && !is_white(s[j - 1])),
        (trimmed(s).len() > 0) == has_solid(s),
{
    let t = trim_start(s);
    lemma_trim_start_cut(s);
    lemma_trim_end_cut(t);
    lemma_trim_start_front(s);
    lemma_trim_end_front(t);
    let i = s.len() - t.len();
    let j = i + trimmed(s).len();
    assert(trimmed(s) =~= s.subrange(i, j));
    assert forall|k: int| 0 <= k < s.len() && !(i <= k < j) implies is_white(#[trigger] s[k]) by {
        if k >= j {
            assert(s[k] == t[k - i]);
        }
    }
    if i < j {
        assert(trimmed(s)[0] == s[i]);
        assert(trimmed(s).last() == s[j - 1]);
    }
}

/// `s` without the white space at either end.
pub fn trim(s: &str) -> (r: String)
    ensures
        r@ == trimmed(s@),
{
    let v = chars_of(s);
    let mut i: usize = 0;
    assert(v@.subrange(0, v@.len() as int) =~= v@);
    while i < v.len() && white(v[i])
        invariant
            i <= v@.len(),
            trim_start(v@) == trim_start(v@.subrange(i as int, v@.len() as int)),
        decreases v@.len() - i,
    {
        assert(v@.subrange(i as int, v@.len() as int).drop_first() =~= v@.subrange(
            i + 1,
            v@.len() as int,
        ));
        i += 1;
    }
    let ghost front = v@.subrange(i as int, v@.len() as int);
    assert(trim_start(v@) == front);
    let mut j: usize = v.len();
    while i < j && white(v[j - 1])
        invariant
            i <= j <= v@.len(),
            trim_end(front) == trim_end(v@.subrange(i as int, j as int)),
        decreases j,
    {
        assert(v@.subrange(i as int, j as int).drop_last() =~= v@.subrange(i as int, j - 1));
        j -= 1;
    }
    assert(trim_end(front) == v@.subrange(i as int, j as int));
    string_range(&v, i, j)
}

/// The white-space separated words of `s`, given the word `w` read so far.
pub open spec fn words_from(s: Seq<char>, w: Seq<char>) -> Seq<Seq<char>>
    decreases s.len(),
{
    if s.len() == 0 {
        if w.len() == 0 {
            Seq::empty()
        } else {
            seq![w]
        }
    } else if is_white(s[0]) {
        if w.len() == 0 {
            words_from(s.drop_first(), w)
        } else {
            seq![w] + words_from(s.drop_first(), Seq::empty())
        }
    } else {
        words_from(s.drop_first(), w.push(s[0]))
    }
}

/// The maximal runs of `s` that hold no white space, in order.
pub open spec fn words(s: Seq<char>) -> Seq<Seq<char>> {
    words_from(s, Seq::empty())
}

/// The maximal runs of `s` that hold no white space, in order.
pub fn split_words(s: &str) -> (r: Vec<String>)
    ensures
        r.deep_view() == words(s@),
{
    let v = chars_of(s);
    let mut out: Vec<String> = Vec::new();
    let mut w = String::new();
    let mut i: usize = 0;
    assert(v@.skip(0) =~= v@);
    while i < v.len()
        invariant
            i <= v@.len(),
            words(v@) == out.deep_view() + words_from(v@.skip(i as int), w@),
        decreases v@.len() - i,
    {
        let c = v[i];
        let ghost rest = v@.skip(i as int);
        let ghost seen = out.deep_view();
        assert(rest.drop_first() =~= v@.skip(i + 1));
        assert(rest[0] == c);
        if white(c) {
            if !w.as_str().is_empty() {
                let ghost word = w@;
                out.push(w);
                w = String::new();
                proof {
                    assert(out.deep_view() =~= seen.push(word));
                    assert(seen + (seq![word] + words_from(v@.skip(i + 1), Seq::empty()))
                        =~= seen.push(word) + words_from(v@.skip(i + 1), Seq::empty()));
                }
            } else {
                assert(w@.len() == 0);
            }
        } else {
            w.push(c);
        }
        i += 1;
    }
    let ghost seen = out.deep_view();
    assert(v@.skip(i as int).len() == 0);
    if !w.as_str().is_empty() {
        let ghost word = w@;
        out.push(w);
        assert(out.deep_view() =~= seen + seq![word]);
    } else {
        assert(seen + Seq::<Seq<char>>::empty() =~= seen);
    }
    out
}

// ---------------------------------------------------------------------------
// Joining and splitting
// ---------------------------------------------------------------------------

/// The parts with `sep` between each two.
pub open spec fn joined(parts: Seq<Seq<char>>, sep: Seq<char>) -> Seq<char>
    decreases parts.len(),
{
    if parts.len() == 0 {
        Seq::empty()
    } else if parts.len() == 1 {
        parts[0]
    } else {
        joined(parts.drop_last(), sep) + sep + parts.last()
    }
}

/// The parts with `sep` between each two.
pub fn join(parts: &Vec<String>, sep: &str) -> (r: String)
    ensures
        r@ == joined(parts.deep_view(), sep@),
{
    let mut out = String::new();
    let mut i: usize = 0;
    let ghost all = parts.deep_view();
    assert(all.take(0) =~= Seq::<Seq<char>>::empty());
    while i < parts.len()
        invariant
            i <= parts@.len(),
            all == parts.deep_view(),
            out@ == joined(all.take(i as int), sep@),
        decreases parts@.len() - i,
    {
        if i > 0 {
            out.append(sep);
        }
        out.append(parts[i].as_str());
        proof {
            let next = all.take(i + 1);
            assert(next.drop_last() =~= all.take(i as int));
            assert(next.last() == parts@[i as int]@);
            if i == 0 {
                assert(all.take(0) =~= Seq::<Seq<char>>::empty());
                assert(out@ =~= next[0]);
            }
        }
        i += 1;
    }
    assert(all.take(all.len() as int) =~= all);
    out
}

/// The pieces of `s` between occurrences of `sep`, given the piece `w` read so far.
pub open spec fn split_from(s: Seq<char>, sep: char, w: Seq<char>) -> Seq<Seq<char>>
    decreases s.len(),
{
    if s.len() == 0 {
        seq![w]
    } else if s[0] == sep {
        seq![w] + split_from(s.drop_first(), sep, Seq::empty())
    } else {
        split_from(s.drop_first(), sep, w.push(s[0]))
    }
}

/// The pieces of `s` between occurrences of `sep`; there is always one.
pub open spec fn pieces(s: Seq<char>, sep: char) -> Seq<Seq<char>> {
    split_from(s, sep, Seq::empty())
}

/// The pieces of `s` between occurrences of `sep`; there is always one.
pub fn split(s: &str, sep: char) -> (r: Vec<String>)
    ensures
        r.deep_view() == pieces(s@, sep),
{
    let v = chars_of(s);
    let mut out: Vec<String> = Vec::new();
    let mut w = String::new();
    let mut i: usize = 0;
    assert(v@.skip(0) =~= v@);
    while i < v.len()
        invariant
            i <= v@.len(),
            pieces(v@, sep) == out.deep_view() + split_from(v@.skip(i as int), sep, w@),
        decreases v@.len() - i,
    {
        let c = v[i];
        let ghost seen = out.deep_view();
        assert(v@.skip(i as int).drop_first() =~= v@.skip(i + 1));
        assert(v@.skip(i as int)[0] == c);
        if c == sep {
            let ghost word = w@;
            out.push(w);
            w = String::new();
            proof {
                assert(out.deep_view() =~= seen.push(word));
                assert(seen + (seq![word] + split_from(v@.skip(i + 1), sep, Seq::empty()))
                    =~= seen.push(word) + split_from(v@.skip(i + 1), sep, Seq::empty()));
            }
        } else {
            w.push(c);
        }
        i += 1;
    }
    let ghost seen = out.deep_view();
    let ghost word = w@;
    assert(v@.skip(i as int).len() == 0);
    out.push(w);
    assert(out.deep_view() =~= seen + seq![word]);
    out
}

/// Whether `w` is a word: not empty, and without white space.
pub open spec fn is_word(w: Seq<char>) -> bool {
    w.len() > 0 && forall|i: int| 0 <= i < w.len() ==> !is_white(#[trigger] w[i])
}

/// Whether `w` is a word made of characters of `all`.
pub open spec fn is_word_of(w: Seq<char>, all: Seq<char>) -> bool {
    is_word(w) && forall|k: int| 0 <= k < w.len() ==> all.contains(#[trigger] w[k])
}

proof fn lemma_words_from_clean(s: Seq<char>, w: Seq<char>, all: Seq<char>)
    requires
        w.len() > 0 ==> is_word_of(w, all),
        forall|i: int| 0 <= i < s.len() ==> all.contains(#[trigger] s[i]),
    ensures
        forall|i: int|
            0 <= i < words_from(s, w).len() ==> is_word_of(#[trigger] words_from(s, w)[i], all),
    decreases s.len(),
{
    let ws = words_from(s, w);
    let rest = s.drop_first();
    let none = Seq::<char>::empty();
    if s.len() > 0 {
        assert forall|i: int| 0 <= i < rest.len() implies all.contains(#[trigger] rest[i]) by {
            assert(rest[i] == s[i + 1]);
        }
        if is_white(s[0]) {
            lemma_words_from_clean(rest, none, all);
        } else {
            assert(all.contains(s[0]));
            lemma_words_from_clean(rest, w.push(s[0]), all);
        }
    }
    assert forall|i: int| 0 <= i < ws.len() implies is_word_of(#[trigger] ws[i], all) by {
        if s.len() == 0 {
            assert(ws[i] == w);
        } else if is_white(s[0]) {
            if w.len() == 0 {
                assert(w =~= none);
                assert(ws[i] == words_from(rest, none)[i]);
            } else if i > 0 {
                assert(ws[i] == words_from(rest, none)[i - 1]);
            } else {
                assert(ws[i] == w);
            }
        } else {
            assert(ws[i] == words_from(rest, w.push(s[0]))[i]);
        }
    }
}

/// The words of a text are words, made of its characters.
pub proof fn lemma_words_clean(s: Seq<char>)
    ensures
        forall|i: int| 0 <= i < words(s).len() ==> is_word_of(#[trigger] words(s)[i], s),
{
    lemma_words_from_clean(s, Seq::empty(), s);
}

proof fn lemma_one_word(s: Seq<char>, w: Seq<char>)
    requires
        forall|i: int| 0 <= i < s.len() ==> !is_white(#[trigger] s[i]),
        w.len() + s.len() > 0,
    ensures
        words_from(s, w) == seq![w + s],
    decreases s.len(),
{
    if s.len() == 0 {
        assert(w + s =~= w);
    } else {
        let rest = s.drop_first();
        assert(!is_white(s[0]));
        assert forall|i: int| 0 <= i < rest.len() implies !is_white(#[trigger] rest[i]) by {
            assert(rest[i] == s[i + 1]);
        }
        lemma_one_word(rest, w.push(s[0]));
        assert(w.push(s[0]) + rest =~= w + s);
    }
}

proof fn lemma_words_at_space(s: Seq<char>, t: Seq<char>, w: Seq<char>)
    ensures
        words_from(s + seq![' '] + t, w) == words_from(s, w) + words_from(t, Seq::empty()),
    decreases s.len(),
{
    let all = s + seq![' '] + t;
    let none = Seq::<char>::empty();
    if s.len() == 0 {
        assert(all[0] == ' ');
        assert(all.drop_first() =~= t);
        if w.len() == 0 {
            assert(w =~= none);
            assert(words_from(s, w) + words_from(t, none) =~= words_from(t, none));
        }
    } else {
        let rest = s.drop_first();
        assert(all[0] == s[0]);
        assert(all.drop_first() =~= rest + seq![' '] + t);
        if is_white(s[0]) {
            if w.len() == 0 {
                lemma_words_at_space(rest, t, w);
            } else {
                lemma_words_at_space(rest, t, none);
                assert(seq![w] + (words_from(rest, none) + words_from(t, none)) =~= words_from(s, w)
                    + words_from(t, none));
            }
        } else {
            lemma_words_at_space(rest, t, w.push(s[0]));
        }
    }
}

/// Words with spaces between read back as the same words.
pub proof fn lemma_words_joined(ws: Seq<Seq<char>>)
    requires
        forall|i: int| 0 <= i < ws.len() ==> is_word(#[trigger] ws[i]),
    ensures
        words(joined(ws, " "@)) == ws,
    decreases ws.len(),
{
    reveal_strlit(" ");
    let none = Seq::<char>::empty();
    if ws.len() == 0 {
        assert(words(joined(ws, " "@)) =~= ws);
    } else {
        let init = ws.drop_last();
        let b = ws.last();
        assert(b == ws[ws.len() - 1]);
        assert(is_word(b));
        lemma_one_word(b, none);
        assert(none + b =~= b);
        if ws.len() == 1 {
            assert(ws =~= seq![b]);
        } else {
            assert forall|i: int| 0 <= i < init.len() implies is_word(#[trigger] init[i]) by {
                assert(init[i] == ws[i]);
            }
            lemma_words_joined(init);
            let a = joined(init, " "@);
            assert(joined(ws, " "@) =~= a + seq![' '] + b);
            lemma_words_at_space(a, b, none);
            assert(init + seq![b] =~= ws);
        }
    }
}

/// The characters of `s` that are not white, in order.
pub open spec fn solid(s: Seq<char>) -> Seq<char>
    decreases s.len(),
{
    if s.len() == 0 {
        Seq::empty()
    } else if is_white(s[0]) {
        solid(s.drop_first())
    } else {
        seq![s[0]] + solid(s.drop_first())
    }
}

/// What is not white in two texts, one behind the other.
pub proof fn lemma_solid_concat(a: Seq<char>, b: Seq<char>)
    ensures
        solid(a + b) == solid(a) + solid(b),
    decreases a.len(),
{
    if a.len() == 0 {
        assert(a + b =~= b);
        assert(solid(a) + solid(b) =~= solid(b));
    } else {
        lemma_solid_concat(a.drop_first(), b);
        assert((a + b).drop_first() =~= a.drop_first() + b);
        assert(solid(a + b) =~= solid(a) + solid(b));
    }
}

proof fn lemma_solid_word(w: Seq<char>)
    requires
        forall|i: int| 0 <= i < w.len() ==> !is_white(#[trigger] w[i]),
    ensures
        solid(w) == w,
    decreases w.len(),
{
    if w.len() > 0 {
        let rest = w.drop_first();
        assert forall|i: int| 0 <= i < rest.len() implies !is_white(#[trigger] rest[i]) by {
            assert(rest[i] == w[i + 1]);
        }
        lemma_solid_word(rest);
        assert(seq![w[0]] + rest =~= w);
    }
}

/// What is not white in words that are joined by spaces, when there is one more in front.
proof fn lemma_solid_joined_front(w: Seq<char>, ws: Seq<Seq<char>>)
    ensures
        solid(joined(seq![w] + ws, " "@)) == solid(w) + solid(joined(ws, " "@)),
    decreases ws.len(),
{
    reveal_strlit(" ");
    let all = seq![w] + ws;
    if ws.len() == 0 {
        assert(all[0] == w);
        assert(solid(w) + solid(joined(ws, " "@)) =~= solid(w));
    } else {
        let init = ws.drop_last();
        lemma_solid_joined_front(w, init);
        assert(all.drop_last() =~= seq![w] + init);
        assert(all.last() == ws.last());
        let space = " "@;
        assert(solid(space) =~= Seq::<char>::empty()) by {
            reveal_with_fuel(solid, 2);
            assert(is_white(space[0]));
        }
        let front = joined(seq![w] + init, space);
        lemma_solid_concat(front + space, ws.last());
        lemma_solid_concat(front, space);
        assert(solid(joined(all, space)) =~= solid(front) + solid(ws.last()));
        if init.len() == 0 {
            assert(ws[0] == ws.last());
            assert(solid(joined(ws, space)) == solid(ws.last()));
            assert(solid(joined(init, space)) =~= Seq::<char>::empty());
        } else {
            let mid = joined(init, space);
            lemma_solid_concat(mid + space, ws.last());
            lemma_solid_concat(mid, space);
            assert(solid(joined(ws, space)) =~= solid(mid) + solid(ws.last()));
        }
        assert(solid(joined(all, space)) =~= solid(w) + solid(joined(ws, space)));
    }
}

proof fn lemma_solid_words(s: Seq<char>, w: Seq<char>)
    requires
        forall|i: int| 0 <= i < w.len() ==> !is_white(#[trigger] w[i]),
    ensures
        solid(joined(words_from(s, w), " "@)) == w + solid(s),
    decreases s.len(),
{
    lemma_solid_word(w);
    let none = Seq::<char>::empty();
    if s.len() == 0 {
        if w.len() > 0 {
            assert(words_from(s, w)[0] == w);
        }
        assert(w + solid(s) =~= w);
    } else {
        let rest = s.drop_first();
        if is_white(s[0]) {
            if w.len() == 0 {
                lemma_solid_words(rest, w);
            } else {
                lemma_solid_words(rest, none);
                lemma_solid_joined_front(w, words_from(rest, none));
                assert(none + solid(rest) =~= solid(rest));
            }
        } else {
            lemma_solid_words(rest, w.push(s[0]));
            assert(w.push(s[0]) + solid(rest) =~= w + (seq![s[0]] + solid(rest)));
        }
    }
}

/// Putting one space between the words of a text loses none of its characters but white space, and
/// keeps them in order.
pub proof fn law_words_keep_what_is_not_white(s: Seq<char>)
    ensures
        solid(joined(words(s), " "@)) == solid(s),
{
    lemma_solid_words(s, Seq::empty());
    assert(Seq::<char>::empty() + solid(s) =~= solid(s));
}

// ---------------------------------------------------------------------------
// Searching and replacing
// ---------------------------------------------------------------------------

/// Whether `needle` stands in `s` at position `i`.
pub open spec fn stands_at(s: Seq<char>, needle: Seq<char>, i: int) -> bool {
    0 <= i && i + needle.len() <= s.len() && s.subrange(i, i + needle.len()) == needle
}

/// The first position from `i` on at which `needle` stands in `s`.
pub open spec fn find_from(s: Seq<char>, needle: Seq<char>, i: int) -> Option<int>
    decreases s.len() + 1 - i,
{
    if i < 0 || i + needle.len() > s.len() {
        None
    } else if stands_at(s, needle, i) {
        Some(i)
    } else {
        find_from(s, needle, i + 1)
    }
}

/// Whether `needle` stands somewhere in `s`.
pub open spec fn holds(s: Seq<char>, needle: Seq<char>) -> bool {
    find_from(s, needle, 0) is Some
}

/// A search gives the first place from `i` on, if there is one.
pub proof fn lemma_find_from(s: Seq<char>, needle: Seq<char>, i: int)
    requires
        0 <= i,
    ensures
        match find_from(s, needle, i) {
            Some(k) => i <= k && stands_at(s, needle, k) && forall|j: int|
                i <= j < k ==> !stands_at(s, needle, j),
            None => forall|j: int| i <= j ==> !stands_at(s, needle, j),
        },
    decreases s.len() + 1 - i,
{
    if i + needle.len() <= s.len() && !stands_at(s, needle, i) {
        lemma_find_from(s, needle, i + 1);
    }
}

/// Whether `needle` stands in `v` at `i`.
pub fn standing_at(v: &Vec<char>, needle: &Vec<char>, i: usize) -> (r: bool)
    ensures
        r == stands_at(v@, needle@, i as int),
{
    if i > v.len() || needle.len() > v.len() - i {
        return false;
    }
    let ghost here = v@.subrange(i as int, i + needle@.len());
    let mut k: usize = 0;
    while k < needle.len()
        invariant
            k <= needle@.len(),
            i + needle@.len() <= v.len(),
            here == v@.subrange(i as int, i + needle@.len()),
            forall|m: int| 0 <= m < k ==> here[m] == needle@[m],
        decreases needle@.len() - k,
    {
        if v[i + k] != needle[k] {
            assert(here[k as int] != needle@[k as int]);
            return false;
        }
        assert(here[k as int] == needle@[k as int]);
        k += 1;
    }
    assert(here =~= needle@);
    true
}

/// The first position from `from` on at which `needle` stands in `v`.
pub fn position_from(v: &Vec<char>, needle: &Vec<char>, from: usize) -> (r: Option<usize>)
    ensures
        r matches Some(i) ==> find_from(v@, needle@, from as int) == Some(i as int),
        r is None ==> find_from(v@, needle@, from as int) is None,
{
    let mut i: usize = from;
    while i <= v.len() && needle.len() <= v.len() - i
        invariant
            from <= i,
            find_from(v@, needle@, from as int) == find_from(v@, needle@, i as int),
            i <= v@.len() + 1 || i == from,
        decreases v@.len() + 1 - i,
    {
        if standing_at(v, needle, i) {
            return Some(i);
        }
        if i == v.len() {
            assert(find_from(v@, needle@, i + 1) is None);
            return None;
        }
        i += 1;
    }
    None
}

/// Whether `needle` stands somewhere in `s`.
pub fn contains(s: &str, needle: &str) -> (r: bool)
    ensures
        r == holds(s@, needle@),
{
    let v = chars_of(s);
    let n = chars_of(needle);
    position_from(&v, &n, 0).is_some()
}

/// Whether `s` begins with `prefix`.
pub open spec fn begins(s: Seq<char>, prefix: Seq<char>) -> bool {
    stands_at(s, prefix, 0)
}

/// What follows `prefix` in `s`, if `s` begins with it.
pub fn strip_prefix(s: &str, prefix: &str) -> (r: Option<String>)
    ensures
        r.deep_view() == (if begins(s@, prefix@) {
            Some(s@.skip(prefix@.len() as int))
        } else {
            None
        }),
{
    let v = chars_of(s);
    let p = chars_of(prefix);
    if standing_at(&v, &p, 0) {
        let out = string_range(&v, p.len(), v.len());
        assert(v@.subrange(p@.len() as int, v@.len() as int) =~= v@.skip(p@.len() as int));
        Some(out)
    } else {
        None
    }
}

/// `s` with every occurrence of `from` replaced by `to`, left to right and without overlap.
pub open spec fn replaced(s: Seq<char>, from: Seq<char>, to: Seq<char>) -> Seq<char>
    decreases s.len(),
{
    if s.len() == 0 || from.len() == 0 {
        s
    } else if begins(s, from) {
        to + replaced(s.skip(from.len() as int), from, to)
    } else {
        seq![s[0]] + replaced(s.drop_first(), from, to)
    }
}

/// `s` with every occurrence of `from` replaced by `to`, left to right and without overlap.
pub fn replace(s: &str, from: &str, to: &str) -> (r: String)
    requires
        from@.len() > 0,
    ensures
        r@ == replaced(s@, from@, to@),
{
    let v = chars_of(s);
    let f = chars_of(from);
    let mut out = String::new();
    let mut i: usize = 0;
    assert(v@.skip(0) =~= v@);
    while i < v.len()
        invariant
            i <= v@.len(),
            f@ == from@,
            f@.len() > 0,
            replaced(v@, from@, to@) == out@ + replaced(v@.skip(i as int), from@, to@),
        decreases v@.len() - i,
    {
        let ghost rest = v@.skip(i as int);
        let ghost seen = out@;
        if standing_at(&v, &f, i) {
            assert(rest.subrange(0, f@.len() as int) =~= v@.subrange(i as int, i + f@.len()));
            assert(rest.skip(f@.len() as int) =~= v@.skip(i + f@.len()));
            out.append(to);
            assert(seen + (to@ + replaced(rest.skip(f@.len() as int), from@, to@)) =~= out@
                + replaced(rest.skip(f@.len() as int), from@, to@));
            i += f.len();
        } else {
            proof {
                if begins(rest, f@) {
                    assert(rest.subrange(0, f@.len() as int) =~= v@.subrange(
                        i as int,
                        i + f@.len(),
                    ));
                }
                assert(rest.drop_first() =~= v@.skip(i + 1));
            }
            out.push(v[i]);
            assert(seen + (seq![rest[0]] + replaced(rest.drop_first(), from@, to@)) =~= out@
                + replaced(rest.drop_first(), from@, to@));
            i += 1;
        }
    }
    assert(v@.skip(i as int).len() == 0);
    assert(out@ + v@.skip(i as int) =~= out@);
    out
}

// ---------------------------------------------------------------------------
// Letter case
// ---------------------------------------------------------------------------

/// `c`, with `A` to `Z` turned into `a` to `z`.
pub open spec fn ascii_lower(c: char) -> char {
    if 'A' <= c <= 'Z' {
        (c as int + 32) as char
    } else {
        c
    }
}

/// `c`, with `a` to `z` turned into `A` to `Z`.
pub open spec fn ascii_upper(c: char) -> char {
    if 'a' <= c <= 'z' {
        (c as int - 32) as char
    } else {
        c
    }
}

/// `s` with its ASCII letters in lower case.
pub open spec fn ascii_lowered(s: Seq<char>) -> Seq<char> {
    s.map_values(|c: char| ascii_lower(c))
}

/// `c`, with `A` to `Z` turned into `a` to `z`.
pub fn char_to_ascii_lower(c: char) -> (r: char)
    ensures
        r == ascii_lower(c),
{
    let n: u32 = c as u32;
    if 65 <= n && n <= 90 {
        let m: u8 = (n + 32) as u8;
        m as char
    } else {
        c
    }
}

/// `c`, with `a` to `z` turned into `A` to `Z`.
pub fn char_to_ascii_upper(c: char) -> (r: char)
    ensures
        r == ascii_upper(c),
{
    let n: u32 = c as u32;
    if 97 <= n && n <= 122 {
        let m: u8 = (n - 32) as u8;
        m as char
    } else {
        c
    }
}

/// `s` with its ASCII letters in lower case.
pub fn to_ascii_lower(s: &str) -> (r: String)
    ensures
        r@ == ascii_lowered(s@),
{
    let v = chars_of(s);
    let mut out = String::new();
    let mut i: usize = 0;
    while i < v.len()
        invariant
            i <= v@.len(),
            out@ == ascii_lowered(v@.take(i as int)),
        decreases v@.len() - i,
    {
        out.push(char_to_ascii_lower(v[i]));
        assert(v@.take(i + 1) =~= v@.take(i as int).push(v@[i as int]));
        assert(out@ =~= ascii_lowered(v@.take(i + 1)));
        i += 1;
    }
    assert(v@.take(v@.len() as int) =~= v@);
    out
}

/// Whether every character is an ASCII character.
pub open spec fn is_ascii_text(s: Seq<char>) -> bool {
    forall|i: int| 0 <= i < s.len() ==> #[trigger] s[i] as int <= 0x7f
}

/// The text that `str::to_lowercase` of std gives for `s`.
pub uninterp spec fn lowercase(s: Seq<char>) -> Seq<char>;

/// `str::to_lowercase` of std: Unicode's lower case of the whole string, which depends on the
/// string alone. Of ASCII characters, `A` to `Z` become `a` to `z`, and the others stay. White
/// space has no case, so it may be trimmed before or after; and a letter stands for the same text
/// in lower case whether it was in lower case before or not, so the ASCII letters may be turned
/// first.
#[verifier::external_body]
fn unicode_lowercase(s: &str) -> (r: String)
    ensures
        r@ == lowercase(s@),
        is_ascii_text(s@) ==> r@ == ascii_lowered(s@),
        trimmed(r@) == trimmed(lowered(ascii_lowered(trimmed(s@)))),
{
    s.to_lowercase()
}

/// `s` in lower case: what `str::to_lowercase` of std gives.
pub open spec fn lowered(s: Seq<char>) -> Seq<char> {
    if is_ascii_text(s) {
        ascii_lowered(s)
    } else {
        lowercase(s)
    }
}

/// `s` in lower case. Trimming it and turning its ASCII letters first makes no difference to what
/// is left of it between blanks.
pub fn to_lowercase(s: &str) -> (r: String)
    ensures
        r@ == lowered(s@),
        trimmed(r@) == trimmed(lowered(ascii_lowered(trimmed(s@)))),
{
    unicode_lowercase(s)
}

/// Turning ASCII letters into lower case a second time changes nothing, and text can be trimmed
/// before or after.
pub proof fn lemma_trim_and_lower(s: Seq<char>)
    ensures
        ascii_lowered(ascii_lowered(s)) == ascii_lowered(s),
        trimmed(ascii_lowered(s)) == ascii_lowered(trimmed(s)),
        is_ascii_text(s) ==> is_ascii_text(ascii_lowered(s)) && is_ascii_text(trimmed(s)),
{
    assert(ascii_lowered(ascii_lowered(s)) =~= ascii_lowered(s));
    lemma_lowered_start(s);
    lemma_lowered_end(trim_start(s));
}

proof fn lemma_lowered_start(s: Seq<char>)
    ensures
        trim_start(ascii_lowered(s)) == ascii_lowered(trim_start(s)),
        is_ascii_text(s) ==> is_ascii_text(trim_start(s)),
    decreases s.len(),
{
    if s.len() > 0 && is_white(s[0]) {
        lemma_lowered_start(s.drop_first());
        assert(ascii_lowered(s).drop_first() =~= ascii_lowered(s.drop_first()));
    }
}

proof fn lemma_lowered_end(s: Seq<char>)
    ensures
        trim_end(ascii_lowered(s)) == ascii_lowered(trim_end(s)),
        is_ascii_text(s) ==> is_ascii_text(trim_end(s)),
    decreases s.len(),
{
    if s.len() > 0 {
        assert(ascii_lowered(s).last() == ascii_lower(s.last()));
        if is_white(s.last()) {
            lemma_lowered_end(s.drop_last());
            assert(ascii_lowered(s).drop_last() =~= ascii_lowered(s.drop_last()));
        }
    }
}

// ---------------------------------------------------------------------------
// Numbers
// ---------------------------------------------------------------------------

/// The decimal digit `d`.
pub open spec fn digit(d: nat) -> char {
    (48 + d) as char
}

/// `n` in decimal, without leading zeros.
pub open spec fn decimal(n: nat) -> Seq<char>
    decreases n,
{
    if n < 10 {
        seq![digit(n)]
    } else {
        decimal(n / 10).push(digit(n % 10))
    }
}

/// `n` in decimal, with a minus sign where it is negative.
pub open spec fn signed_decimal(n: int) -> Seq<char> {
    if n < 0 {
        seq!['-'] + decimal((-n) as nat)
    } else {
        decimal(n as nat)
    }
}

/// `n` in decimal, with a zero in front where it has only one digit.
pub open spec fn two_digits(n: nat) -> Seq<char> {
    if n < 10 {
        seq!['0', digit(n)]
    } else {
        decimal(n)
    }
}

/// Appends `n` in decimal.
pub fn push_decimal(out: &mut String, n: u64)
    ensures
        final(out)@ == old(out)@ + decimal(n as nat),
    decreases n,
{
    if n >= 10 {
        push_decimal(out, n / 10);
    }
    let d: u8 = 48 + (n % 10) as u8;
    let ghost before = out@;
    out.push(d as char);
    proof {
        assert(d as char == digit(n as nat % 10));
        if n >= 10 {
            assert(before.push(d as char) =~= old(out)@ + decimal(n as nat));
        } else {
            assert(before.push(d as char) =~= old(out)@ + decimal(n as nat));
        }
    }
}

/// `n` in decimal.
pub fn show(n: u64) -> (r: String)
    ensures
        r@ == decimal(n as nat),
{
    let mut out = String::new();
    push_decimal(&mut out, n);
    assert(Seq::<char>::empty() + decimal(n as nat) =~= decimal(n as nat));
    out
}

/// `n` in decimal, with a minus sign where it is negative.
pub fn show_signed(n: i64) -> (r: String)
    ensures
        r@ == signed_decimal(n as int),
{
    let mut out = String::new();
    if n < 0 {
        out.push('-');
        let m: u64 = (-(n as i128)) as u64;
        push_decimal(&mut out, m);
        assert(out@ =~= seq!['-'] + decimal((-(n as int)) as nat));
    } else {
        push_decimal(&mut out, n as u64);
        assert(out@ =~= decimal(n as nat));
    }
    out
}

/// `n` in decimal, with a zero in front where it has only one digit.
pub fn show_two(n: u64) -> (r: String)
    ensures
        r@ == two_digits(n as nat),
{
    let mut out = String::new();
    if n < 10 {
        out.push('0');
    }
    push_decimal(&mut out, n);
    assert(out@ =~= two_digits(n as nat));
    out
}

/// Whether `c` is one of `0` to `9`.
pub open spec fn is_digit(c: char) -> bool {
    '0' <= c <= '9'
}

/// Whether `s` holds decimal digits only, and at least one.
pub open spec fn all_digits(s: Seq<char>) -> bool {
    s.len() > 0 && forall|i: int| 0 <= i < s.len() ==> is_digit(#[trigger] s[i])
}

/// The number that a row of decimal digits stands for.
pub open spec fn digits_value(s: Seq<char>) -> nat
    decreases s.len(),
{
    if s.len() == 0 {
        0
    } else {
        digits_value(s.drop_last()) * 10 + (s.last() as int - 48) as nat
    }
}

/// The number that `s` stands for, read as digits behind an optional plus sign, if it is at most
/// `max`.
pub open spec fn unsigned_value(s: Seq<char>, max: nat) -> Option<nat> {
    let body = if s.len() > 0 && s[0] == '+' {
        s.drop_first()
    } else {
        s
    };
    if all_digits(body) && digits_value(body) <= max {
        Some(digits_value(body))
    } else {
        None
    }
}

/// The number that `s` stands for, read as digits behind an optional sign, if an `i32` holds it.
pub open spec fn signed_value(s: Seq<char>) -> Option<int> {
    if s.len() > 0 && s[0] == '-' {
        let body = s.drop_first();
        if all_digits(body) && digits_value(body) <= 0x8000_0000 {
            Some(-(digits_value(body) as int))
        } else {
            None
        }
    } else {
        match unsigned_value(s, 0x7fff_ffff) {
            Some(n) => Some(n as int),
            None => None,
        }
    }
}

/// The value of a decimal digit.
pub fn digit_value(c: char) -> (r: Option<u32>)
    ensures
        r == (if is_digit(c) {
            Some((c as int - 48) as u32)
        } else {
            None
        }),
{
    let n: u32 = c as u32;
    if 48 <= n && n <= 57 {
        Some(n - 48)
    } else {
        None
    }
}

/// The number written in `v[from..]`, if it is all digits and at most `max`.
fn value_from(v: &Vec<char>, from: usize, max: u32) -> (r: Option<u32>)
    requires
        from <= v@.len(),
    ensures
        r == (if all_digits(v@.skip(from as int)) && digits_value(v@.skip(from as int)) <= max {
            Some(digits_value(v@.skip(from as int)) as u32)
        } else {
            None
        }),
{
    let ghost body = v@.skip(from as int);
    if from == v.len() {
        return None;
    }
    let mut n: u64 = 0;
    let mut over = false;
    let mut i: usize = from;
    assert(body.take(0) =~= Seq::<char>::empty());
    while i < v.len()
        invariant
            from <= i <= v@.len(),
            from < v@.len(),
            body == v@.skip(from as int),
            forall|k: int| 0 <= k < i - from ==> is_digit(#[trigger] body[k]),
            over ==> digits_value(body.take(i - from)) > max,
            !over ==> digits_value(body.take(i - from)) == n && n <= max,
        decreases v@.len() - i,
    {
        assert(body[i - from] == v@[i as int]);
        let d: u32 = match digit_value(v[i]) {
            Some(d) => d,
            None => {
                assert(!is_digit(body[i - from]));
                return None;
            },
        };
        proof {
            let next = body.take(i + 1 - from);
            assert(next.drop_last() =~= body.take(i - from));
            assert(next.last() == body[i - from]);
        }
        if !over {
            n = n * 10 + d as u64;
            if n > max as u64 {
                over = true;
            }
        }
        i += 1;
    }
    assert(body.take(v@.len() - from) =~= body);
    if over {
        None
    } else {
        Some(n as u32)
    }
}

/// The `u32` that `s` stands for: digits, with an optional plus sign in front.
pub fn parse_u32(s: &str) -> (r: Option<u32>)
    ensures
        r matches Some(n) ==> unsigned_value(s@, u32::MAX as nat) == Some(n as nat),
        r is None ==> unsigned_value(s@, u32::MAX as nat) is None,
{
    let v = chars_of(s);
    let from: usize = if v.len() > 0 && v[0] == '+' {
        1
    } else {
        0
    };
    proof {
        assert(v@.skip(0) =~= v@);
        if v@.len() > 0 {
            assert(v@.skip(1) =~= v@.drop_first());
        }
    }
    value_from(&v, from, u32::MAX)
}

/// The `i32` that `s` stands for: digits, with an optional sign in front.
pub fn parse_i32(s: &str) -> (r: Option<i32>)
    ensures
        r matches Some(n) ==> signed_value(s@) == Some(n as int),
        r is None ==> signed_value(s@) is None,
{
    let v = chars_of(s);
    proof {
        assert(v@.skip(0) =~= v@);
        if v@.len() > 0 {
            assert(v@.skip(1) =~= v@.drop_first());
        }
    }
    if v.len() > 0 && v[0] == '-' {
        match value_from(&v, 1, 0x8000_0000) {
            Some(n) => Some((-(n as i64)) as i32),
            None => None,
        }
    } else {
        let from: usize = if v.len() > 0 && v[0] == '+' {
            1
        } else {
            0
        };
        match value_from(&v, from, 0x7fff_ffff) {
            Some(n) => Some(n as i32),
            None => None,
        }
    }
}

/// A decimal number is made of digits, and stands for itself.
pub proof fn lemma_decimal_value(n: nat)
    ensures
        all_digits(decimal(n)),
        digits_value(decimal(n)) == n,
    decreases n,
{
    if n < 10 {
        let s = decimal(n);
        assert(s.drop_last() =~= Seq::<char>::empty());
        assert(digits_value(s.drop_last()) == 0);
        assert(s.last() == digit(n));
    } else {
        lemma_decimal_value(n / 10);
        let s = decimal(n);
        assert(s.drop_last() =~= decimal(n / 10));
        assert(s.last() == digit(n % 10));
        assert forall|i: int| 0 <= i < s.len() implies is_digit(#[trigger] s[i]) by {
            if i < s.len() - 1 {
                assert(s[i] == decimal(n / 10)[i]);
            }
        }
    }
}

// ---------------------------------------------------------------------------
// Lists in one line
// ---------------------------------------------------------------------------

/// The words of a list, trimmed and without blank ones.
pub open spec fn tidy_words(parts: Seq<Seq<char>>) -> Seq<Seq<char>>
    decreases parts.len(),
{
    if parts.len() == 0 {
        Seq::empty()
    } else {
        let init = tidy_words(parts.drop_last());
        let w = trimmed(parts.last());
        if w.len() == 0 {
            init
        } else {
            init.push(w)
        }
    }
}

/// A tidy list is as tidy as it can be.
pub proof fn lemma_tidy_words_twice(parts: Seq<Seq<char>>)
    ensures
        tidy_words(tidy_words(parts)) == tidy_words(parts),
    decreases parts.len(),
{
    if parts.len() > 0 {
        let init = parts.drop_last();
        lemma_tidy_words_twice(init);
        law_trim_is_idempotent(parts.last());
        let w = trimmed(parts.last());
        if w.len() > 0 {
            assert(tidy_words(parts).drop_last() =~= tidy_words(init));
        }
    }
}

/// The entries of a list with commas between, trimmed and without blank ones.
pub open spec fn csv(s: Seq<char>) -> Seq<Seq<char>> {
    tidy_words(pieces(s, ','))
}

/// The entries of a list with commas between, trimmed and without blank ones.
pub fn split_csv(s: &str) -> (r: Vec<String>)
    ensures
        r.deep_view() == csv(s@),
{
    let parts = split(s, ',');
    let ghost all = parts.deep_view();
    let mut out: Vec<String> = Vec::new();
    let mut i: usize = 0;
    assert(all.take(0) =~= Seq::<Seq<char>>::empty());
    assert(out.deep_view() =~= Seq::<Seq<char>>::empty());
    while i < parts.len()
        invariant
            i <= parts@.len(),
            all == parts.deep_view(),
            out.deep_view() == tidy_words(all.take(i as int)),
        decreases parts@.len() - i,
    {
        let w = trim(parts[i].as_str());
        let ghost before = out.deep_view();
        proof {
            let next = all.take(i + 1);
            assert(next.drop_last() =~= all.take(i as int));
            assert(next.last() == parts@[i as int]@);
        }
        if !w.as_str().is_empty() {
            let ghost word = w@;
            out.push(w);
            assert(out.deep_view() =~= before.push(word));
        }
        i += 1;
    }
    assert(all.take(all.len() as int) =~= all);
    out
}

/// Splitting at a separator splits what stands on either side of it.
proof fn lemma_split_at(s: Seq<char>, t: Seq<char>, sep: char, w: Seq<char>)
    ensures
        split_from(s + seq![sep] + t, sep, w) == split_from(s, sep, w) + split_from(
            t,
            sep,
            Seq::empty(),
        ),
    decreases s.len(),
{
    let all = s + seq![sep] + t;
    if s.len() == 0 {
        assert(all[0] == sep);
        assert(all.drop_first() =~= t);
    } else {
        assert(all[0] == s[0]);
        assert(all.drop_first() =~= s.drop_first() + seq![sep] + t);
        if s[0] == sep {
            lemma_split_at(s.drop_first(), t, sep, Seq::empty());
            assert(seq![w] + (split_from(s.drop_first(), sep, Seq::empty()) + split_from(
                t,
                sep,
                Seq::empty(),
            )) =~= split_from(s, sep, w) + split_from(t, sep, Seq::empty()));
        } else {
            lemma_split_at(s.drop_first(), t, sep, w.push(s[0]));
        }
    }
}

/// A text without the separator is one piece.
proof fn lemma_one_piece(s: Seq<char>, sep: char, w: Seq<char>)
    requires
        !s.contains(sep),
    ensures
        split_from(s, sep, w) == seq![w + s],
    decreases s.len(),
{
    if s.len() == 0 {
        assert(w + s =~= w);
    } else {
        let t = s.drop_first();
        assert(s[0] != sep);
        assert(!t.contains(sep)) by {
            if t.contains(sep) {
                let i = choose|i: int| 0 <= i < t.len() && t[i] == sep;
                assert(s[i + 1] == sep);
            }
        }
        lemma_one_piece(t, sep, w.push(s[0]));
        assert(w.push(s[0]) + t =~= w + s);
    }
}

proof fn lemma_tidy_concat(a: Seq<Seq<char>>, b: Seq<Seq<char>>)
    ensures
        tidy_words(a + b) == tidy_words(a) + tidy_words(b),
    decreases b.len(),
{
    if b.len() == 0 {
        assert(a + b =~= a);
        assert(tidy_words(a) + tidy_words(b) =~= tidy_words(a));
    } else {
        assert((a + b).drop_last() =~= a + b.drop_last());
        lemma_tidy_concat(a, b.drop_last());
        assert(tidy_words(a + b) =~= tidy_words(a) + tidy_words(b));
    }
}

/// Words without commas, written in one line with commas between, read back as they were, apart
/// from white space around them and blank words.
pub proof fn law_csv_round_trip(parts: Seq<Seq<char>>)
    requires
        forall|i: int| 0 <= i < parts.len() ==> !(#[trigger] parts[i]).contains(','),
    ensures
        csv(joined(parts, ", "@)) == tidy_words(parts),
    decreases parts.len(),
{
    reveal_strlit(", ");
    let none = Seq::<char>::empty();
    if parts.len() == 0 {
        lemma_one_piece(none, ',', none);
        assert(none + none =~= none);
        let one = seq![none];
        assert(one.drop_last() =~= Seq::<Seq<char>>::empty());
        assert(trimmed(none) == none);
        assert(tidy_words(one.drop_last()) =~= Seq::<Seq<char>>::empty());
        assert(tidy_words(one) =~= Seq::<Seq<char>>::empty());
    } else if parts.len() == 1 {
        let p = parts[0];
        lemma_one_piece(p, ',', none);
        assert(none + p =~= p);
        assert(seq![p] =~= parts);
    } else {
        let init = parts.drop_last();
        let p = parts.last();
        assert(p == parts[parts.len() - 1]);
        assert forall|i: int| 0 <= i < init.len() implies !(#[trigger] init[i]).contains(',') by {
            assert(init[i] == parts[i]);
        }
        law_csv_round_trip(init);
        let head = joined(init, ", "@);
        let tail = seq![' '] + p;
        assert(joined(parts, ", "@) =~= head + seq![','] + tail);
        lemma_split_at(head, tail, ',', none);
        assert(!tail.contains(',')) by {
            if tail.contains(',') {
                let i = choose|i: int| 0 <= i < tail.len() && tail[i] == ',';
                assert(p[i - 1] == ',');
            }
        }
        lemma_one_piece(tail, ',', none);
        assert(none + tail =~= tail);
        lemma_tidy_concat(pieces(head, ','), seq![tail]);
        assert(tail.drop_first() =~= p);
        assert(trimmed(tail) == trimmed(p));
        let one = seq![tail];
        assert(one.drop_last() =~= Seq::<Seq<char>>::empty());
        assert(one.last() == tail);
        assert(tidy_words(one.drop_last()) =~= Seq::<Seq<char>>::empty());
        assert(tidy_words(parts) =~= tidy_words(init) + tidy_words(one));
    }
}

proof fn lemma_split_back(s: Seq<char>, sep: char, w: Seq<char>)
    requires
        !w.contains(sep),
    ensures
        split_from(s, sep, w).len() > 0,
        joined(split_from(s, sep, w), seq![sep]) == w + s,
        forall|i: int|
            0 <= i < split_from(s, sep, w).len() ==> !(#[trigger] split_from(s, sep, w)[i]).contains(
                sep,
            ),
    decreases s.len(),
{
    let all = split_from(s, sep, w);
    if s.len() == 0 {
        assert(all[0] == w);
        assert(w + s =~= w);
    } else {
        let rest = s.drop_first();
        if s[0] == sep {
            let none = Seq::<char>::empty();
            lemma_split_back(rest, sep, none);
            let tail = split_from(rest, sep, none);
            lemma_joined_front(w, tail, seq![sep]);
            assert(none + rest =~= rest);
            assert(w + seq![sep] + rest =~= w + s);
            assert forall|i: int| 0 <= i < all.len() implies !(#[trigger] all[i]).contains(
                sep,
            ) by {
                if i == 0 {
                    assert(all[i] == w);
                } else {
                    assert(all[i] == tail[i - 1]);
                }
            }
        } else {
            let longer = w.push(s[0]);
            assert(!longer.contains(sep)) by {
                if longer.contains(sep) {
                    let i = choose|i: int| 0 <= i < longer.len() && longer[i] == sep;
                    assert(i < w.len() && w[i] == sep);
                }
            }
            lemma_split_back(rest, sep, longer);
            assert(longer + rest =~= w + s);
        }
    }
}

/// One more part in front of others that are joined.
proof fn lemma_joined_front(w: Seq<char>, ws: Seq<Seq<char>>, sep: Seq<char>)
    requires
        ws.len() > 0,
    ensures
        joined(seq![w] + ws, sep) == w + sep + joined(ws, sep),
    decreases ws.len(),
{
    let all = seq![w] + ws;
    let init = ws.drop_last();
    assert(all.drop_last() =~= seq![w] + init);
    assert(all.last() == ws.last());
    if init.len() == 0 {
        assert(ws[0] == ws.last());
        assert(all.drop_last()[0] == w);
        assert(joined(all.drop_last(), sep) == w);
    } else {
        lemma_joined_front(w, init, sep);
        assert(joined(all, sep) =~= w + sep + joined(ws, sep));
    }
}

/// The pieces of a text hold no separator, and with the separator between them they are the text
/// again: nothing is lost by splitting.
pub proof fn law_pieces_make_up_the_text(s: Seq<char>, sep: char)
    ensures
        pieces(s, sep).len() > 0,
        joined(pieces(s, sep), seq![sep]) == s,
        forall|i: int|
            0 <= i < pieces(s, sep).len() ==> !(#[trigger] pieces(s, sep)[i]).contains(sep),
{
    lemma_split_back(s, sep, Seq::empty());
    assert(Seq::<char>::empty() + s =~= s);
}

/// Parts are tidied one by one and stay in order: one that is blank is left out, any other loses
/// the white space around it.
pub proof fn law_parts_are_tidied_one_by_one(a: Seq<Seq<char>>, b: Seq<Seq<char>>, w: Seq<char>)
    ensures
        tidy_words(a + b) == tidy_words(a) + tidy_words(b),
        has_solid(w) ==> tidy_words(seq![w]) == seq![trimmed(w)],
        !has_solid(w) ==> tidy_words(seq![w]).len() == 0,
        csv(w) == tidy_words(pieces(w, ',')),
    decreases b.len(),
{
    let one = seq![w];
    law_trim_cuts_white_space_only(w);
    assert(one.drop_last() =~= Seq::<Seq<char>>::empty());
    assert(tidy_words(one.drop_last()) =~= Seq::<Seq<char>>::empty());
    assert(one.last() == w);
    lemma_tidy_concat(a, b);
}

/// A row of digits is read from its first digit to its last, each worth ten times the next, and a
/// number is written in digits that stand for it.
pub proof fn law_decimal_digits_have_their_places(s: Seq<char>, d: nat, n: nat)
    requires
        d < 10,
    ensures
        digits_value(s.push((48 + d) as char)) == 10 * digits_value(s) + d,
        all_digits(decimal(n)),
        digits_value(decimal(n)) == n,
        n > 0 ==> decimal(n)[0] != '0',
{
    lemma_decimal_value(n);
    if n > 0 {
        lemma_no_leading_zero(n);
    }
    assert(s.push((48 + d) as char).drop_last() =~= s);
}

proof fn lemma_no_leading_zero(n: nat)
    requires
        n > 0,
    ensures
        decimal(n).len() > 0,
        decimal(n)[0] != '0',
    decreases n,
{
    if n >= 10 {
        lemma_no_leading_zero(n / 10);
    }
}

/// A number with a sign reads back as it was, and so does a text without one that is all digits.
pub proof fn law_signed_numbers_read_back(n: int, s: Seq<char>)
    ensures
        -0x8000_0000 <= n <= 0x7fff_ffff ==> signed_value(signed_decimal(n)) == Some(n),
        all_digits(s) && digits_value(s) <= 0x7fff_ffff ==> signed_value(s) == Some(
            digits_value(s) as int,
        ),
        all_digits(s) && digits_value(s) <= 0xffff_ffff ==> unsigned_value(s, 0xffff_ffff) == Some(
            digits_value(s),
        ),
        !all_digits(s) && s.len() > 0 && s[0] != '+' ==> unsigned_value(s, 0xffff_ffff) is None,
{
    if all_digits(s) {
        assert(is_digit(s[0]));
    }
    if n >= 0 {
        lemma_decimal_value(n as nat);
        assert(is_digit(decimal(n as nat)[0]));
    } else {
        lemma_decimal_value((-n) as nat);
        assert(signed_decimal(n).drop_first() =~= decimal((-n) as nat));
    }
}

/// Letter case is that of the letters A to Z and a to z, thirty-two places apart: lowering and
/// raising change these and nothing else, and keep every character in its place.
pub proof fn law_only_letters_have_case(s: Seq<char>, i: int)
    requires
        0 <= i < s.len(),
    ensures
        ascii_lowered(s).len() == s.len(),
        'A' <= s[i] <= 'Z' ==> ascii_lowered(s)[i] as int == s[i] as int + 32,
        !('A' <= s[i] <= 'Z') ==> ascii_lowered(s)[i] == s[i],
        'a' <= s[i] <= 'z' ==> ascii_upper(s[i]) as int == s[i] as int - 32,
        !('a' <= s[i] <= 'z') ==> ascii_upper(s[i]) == s[i],
        is_ascii_text(s) ==> lowered(s) == ascii_lowered(s),
{
}

/// Spaces, tabs and ends of lines are white, and so are the other characters of Unicode that are
/// made for space: nineteen more beyond ASCII. Nothing else is.
pub proof fn law_white_space_is_made_for_space(c: char)
    ensures
        c as int <= 0x7f ==> is_white(c) == (c == ' ' || c == '\t' || c == '\n' || c == '\r' || c as int
            == 0x0b || c as int == 0x0c),
        c as int > 0x7f ==> is_white(c) == seq![
            0x85int,
            0xa0,
            0x1680,
            0x2000,
            0x2001,
            0x2002,
            0x2003,
            0x2004,
            0x2005,
            0x2006,
            0x2007,
            0x2008,
            0x2009,
            0x200a,
            0x2028,
            0x2029,
            0x202f,
            0x205f,
            0x3000,
        ].contains(c as int),
{
    let codes = seq![
        0x85int,
        0xa0,
        0x1680,
        0x2000,
        0x2001,
        0x2002,
        0x2003,
        0x2004,
        0x2005,
        0x2006,
        0x2007,
        0x2008,
        0x2009,
        0x200a,
        0x2028,
        0x2029,
        0x202f,
        0x205f,
        0x3000,
    ];
    let n = c as int;
    assert(codes[0] == 0x85 && codes[1] == 0xa0 && codes[2] == 0x1680 && codes[3] == 0x2000);
    assert(codes[4] == 0x2001 && codes[5] == 0x2002 && codes[6] == 0x2003 && codes[7] == 0x2004);
    assert(codes[8] == 0x2005 && codes[9] == 0x2006 && codes[10] == 0x2007 && codes[11] == 0x2008);
    assert(codes[12] == 0x2009 && codes[13] == 0x200a && codes[14] == 0x2028);
    assert(codes[15] == 0x2029 && codes[16] == 0x202f && codes[17] == 0x205f);
    assert(codes[18] == 0x3000);
}

/// A text is found where it stands, at the first place, and not found only where it stands nowhere.
pub proof fn law_text_is_found_where_it_first_stands(s: Seq<char>, needle: Seq<char>)
    ensures
        holds(s, needle) == (exists|i: int| #[trigger] stands_at(s, needle, i)),
        find_from(s, needle, 0) matches Some(k) ==> stands_at(s, needle, k) && forall|j: int|
            0 <= j < k ==> !#[trigger] stands_at(s, needle, j),
        begins(s, needle) == (needle.len() <= s.len() && s.take(needle.len() as int) == needle),
{
    lemma_find_from(s, needle, 0);
    if exists|i: int| #[trigger] stands_at(s, needle, i) {
        let i = choose|i: int| #[trigger] stands_at(s, needle, i);
        assert(stands_at(s, needle, i));
    }
    if needle.len() <= s.len() {
        assert(s.take(needle.len() as int) =~= s.subrange(0, needle.len() as int));
    }
}

/// Replacing changes each place where the text stands, from the front on, and leaves a text alone
/// in which it does not stand.
pub proof fn law_replacing_changes_every_place(
    s: Seq<char>,
    from: Seq<char>,
    to: Seq<char>,
    rest: Seq<char>,
)
    requires
        from.len() > 0,
    ensures
        replaced(from + rest, from, to) == to + replaced(rest, from, to),
        (forall|i: int| !#[trigger] stands_at(s, from, i)) ==> replaced(s, from, to) == s,
    decreases s.len(),
{
    let all = from + rest;
    assert(all.subrange(0, from.len() as int) =~= from);
    assert(all.skip(from.len() as int) =~= rest);
    if s.len() > 0 && (forall|i: int| !#[trigger] stands_at(s, from, i)) {
        let less = s.drop_first();
        assert(!stands_at(s, from, 0));
        assert forall|i: int| !#[trigger] stands_at(less, from, i) by {
            if stands_at(less, from, i) {
                assert(s.subrange(i + 1, i + 1 + from.len()) =~= less.subrange(i, i + from.len()));
                assert(stands_at(s, from, i + 1));
            }
        }
        law_replacing_changes_every_place(less, from, to, rest);
        assert(seq![s[0]] + less =~= s);
    }
}

/// Joined parts stand one behind the other with the separator between, each as it is.
pub proof fn law_joining_puts_the_separator_between(
    parts: Seq<Seq<char>>,
    w: Seq<char>,
    sep: Seq<char>,
)
    ensures
        joined(Seq::empty(), sep) == Seq::<char>::empty(),
        joined(seq![w], sep) == w,
        parts.len() > 0 ==> joined(parts.push(w), sep) == joined(parts, sep) + sep + w,
        parts.len() > 0 ==> joined(seq![w] + parts, sep) == w + sep + joined(parts, sep),
{
    assert(parts.push(w).drop_last() =~= parts);
    if parts.len() > 0 {
        lemma_joined_front(w, parts, sep);
    }
}

} // verus!
