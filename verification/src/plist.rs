//! The property list in which iTunes keeps the people behind a title.

use crate::model::{MediaMetadata, MetadataView, Person, PersonView};
use crate::text::{
    begins, chars_of, find_from, has_solid, is_white, law_trim_cuts_white_space_only,
    law_trim_is_idempotent, lemma_find_from, lemma_trimmed_ends, position_from, replace, replaced,
    stands_at, string_range, trim, trim_end, trim_start, trimmed,
};
use vstd::prelude::*;

verus! {

// ---------------------------------------------------------------------------
// Escaping
// ---------------------------------------------------------------------------

/// How a character is written in XML text.
pub open spec fn escaped_char(c: char) -> Seq<char> {
    if c == '&' {
        "&amp;"@
    } else if c == '<' {
        "&lt;"@
    } else if c == '>' {
        "&gt;"@
    } else if c == '"' {
        "&quot;"@
    } else if c == '\'' {
        "&apos;"@
    } else {
        seq![c]
    }
}

/// `s` with the characters that XML gives a meaning to written as entities.
pub open spec fn escaped(s: Seq<char>) -> Seq<char>
    decreases s.len(),
{
    if s.len() == 0 {
        Seq::empty()
    } else {
        escaped_char(s[0]) + escaped(s.drop_first())
    }
}

/// `s` with the entities resolved, one kind after the other, the ampersand first.
pub open spec fn unescaped(s: Seq<char>) -> Seq<char> {
    replaced(
        replaced(
            replaced(
                replaced(replaced(s, "&amp;"@, "&"@), "&lt;"@, "<"@),
                "&gt;"@,
                ">"@,
            ),
            "&quot;"@,
            "\""@,
        ),
        "&apos;"@,
        "'"@,
    )
}

/// `s` with the characters that XML gives a meaning to written as entities.
pub fn xml_escape(s: &str) -> (r: String)
    ensures
        r@ == escaped(s@),
{
    let v = chars_of(s);
    let mut out = String::new();
    let mut i: usize = 0;
    assert(v@.skip(0) =~= v@);
    assert(out@ + escaped(v@) =~= escaped(v@));
    while i < v.len()
        invariant
            i <= v@.len(),
            out@ + escaped(v@.skip(i as int)) == escaped(v@),
        decreases v@.len() - i,
    {
        let c = v[i];
        let ghost before = out@;
        if c == '&' {
            out.append("&amp;");
        } else if c == '<' {
            out.append("&lt;");
        } else if c == '>' {
            out.append("&gt;");
        } else if c == '"' {
            out.append("&quot;");
        } else if c == '\'' {
            out.append("&apos;");
        } else {
            out.push(c);
        }
        proof {
            let rest = v@.skip(i as int);
            assert(out@ =~= before + escaped_char(c));
            assert(rest.drop_first() =~= v@.skip(i + 1));
            assert(before + (escaped_char(c) + escaped(v@.skip(i + 1))) =~= out@ + escaped(
                v@.skip(i + 1),
            ));
        }
        i += 1;
    }
    assert(out@ + escaped(v@.skip(i as int)) =~= out@);
    out
}

/// `s` with the entities resolved.
pub fn xml_unescape(s: &str) -> (r: String)
    ensures
        r@ == unescaped(s@),
{
    proof {
        reveal_strlit("&amp;");
        reveal_strlit("&lt;");
        reveal_strlit("&gt;");
        reveal_strlit("&quot;");
        reveal_strlit("&apos;");
    }
    let a = replace(s, "&amp;", "&");
    let b = replace(a.as_str(), "&lt;", "<");
    let c = replace(b.as_str(), "&gt;", ">");
    let d = replace(c.as_str(), "&quot;", "\"");
    replace(d.as_str(), "&apos;", "'")
}

/// The place of a character in the order in which entities are resolved; behind all of them for
/// a character that has none.
pub open spec fn rank(c: char) -> int {
    if c == '&' {
        0
    } else if c == '<' {
        1
    } else if c == '>' {
        2
    } else if c == '"' {
        3
    } else if c == '\'' {
        4
    } else {
        5
    }
}

/// The character whose entity is resolved in step `k`.
pub open spec fn ranked(k: int) -> char {
    if k == 0 {
        '&'
    } else if k == 1 {
        '<'
    } else if k == 2 {
        '>'
    } else if k == 3 {
        '"'
    } else {
        '\''
    }
}

/// `s` with the characters from step `k` on still written as entities.
spec fn half_escaped(s: Seq<char>, k: int) -> Seq<char>
    decreases s.len(),
{
    if s.len() == 0 {
        Seq::empty()
    } else {
        (if rank(s[0]) < k {
            seq![s[0]]
        } else {
            escaped_char(s[0])
        }) + half_escaped(s.drop_first(), k)
    }
}

proof fn lemma_half_escaped_ends(s: Seq<char>)
    ensures
        half_escaped(s, 0) == escaped(s),
        half_escaped(s, 5) == s,
    decreases s.len(),
{
    if s.len() > 0 {
        lemma_half_escaped_ends(s.drop_first());
        assert(half_escaped(s, 5) =~= s);
    }
}

/// What each entity looks like.
proof fn lemma_entities()
    ensures
        escaped_char('&') == seq!['&', 'a', 'm', 'p', ';'],
        escaped_char('<') == seq!['&', 'l', 't', ';'],
        escaped_char('>') == seq!['&', 'g', 't', ';'],
        escaped_char('"') == seq!['&', 'q', 'u', 'o', 't', ';'],
        escaped_char('\'') == seq!['&', 'a', 'p', 'o', 's', ';'],
{
    reveal_strlit("&amp;");
    reveal_strlit("&lt;");
    reveal_strlit("&gt;");
    reveal_strlit("&quot;");
    reveal_strlit("&apos;");
    assert(escaped_char('&') =~= seq!['&', 'a', 'm', 'p', ';']);
    assert(escaped_char('<') =~= seq!['&', 'l', 't', ';']);
    assert(escaped_char('>') =~= seq!['&', 'g', 't', ';']);
    assert(escaped_char('"') =~= seq!['&', 'q', 'u', 'o', 't', ';']);
    assert(escaped_char('\'') =~= seq!['&', 'a', 'p', 'o', 's', ';']);
}

/// Replacing passes over a front part in which no match begins.
proof fn lemma_replaced_pass(u: Seq<char>, rest: Seq<char>, from: Seq<char>, to: Seq<char>)
    requires
        from.len() > 0,
        forall|i: int| 0 <= i < u.len() ==> !stands_at(u + rest, from, i),
    ensures
        replaced(u + rest, from, to) == u + replaced(rest, from, to),
    decreases u.len(),
{
    if u.len() == 0 {
        assert(u + rest =~= rest);
        assert(u + replaced(rest, from, to) =~= replaced(rest, from, to));
    } else {
        let s = u + rest;
        let v = u.drop_first();
        assert(s.drop_first() =~= v + rest);
        assert forall|i: int| 0 <= i < v.len() implies !stands_at(v + rest, from, i) by {
            if stands_at(v + rest, from, i) {
                assert(s.subrange(i + 1, i + 1 + from.len()) =~= (v + rest).subrange(
                    i,
                    i + from.len(),
                ));
                assert(stands_at(s, from, i + 1));
            }
        }
        lemma_replaced_pass(v, rest, from, to);
        assert(!stands_at(s, from, 0));
        assert(seq![s[0]] + (v + replaced(rest, from, to)) =~= u + replaced(rest, from, to));
    }
}

/// Plain characters at the front of a half escaped text are at the front of the text itself.
proof fn lemma_plain_front(t: Seq<char>, k: int, w: Seq<char>)
    requires
        begins(half_escaped(t, k), w),
        forall|i: int| 0 <= i < w.len() ==> rank(#[trigger] w[i]) == 5,
    ensures
        begins(t, w),
    decreases w.len(),
{
    if w.len() > 0 {
        lemma_entities();
        let h = half_escaped(t, k);
        assert(h[0] == w[0]) by {
            assert(h.subrange(0, w.len() as int)[0] == w[0]);
        }
        assert(t.len() > 0);
        let rest = half_escaped(t.drop_first(), k);
        assert(rank(w[0]) == 5);
        assert(t[0] == w[0]);
        assert(h.drop_first() =~= rest);
        let w1 = w.drop_first();
        assert(rest.subrange(0, w1.len() as int) =~= w1) by {
            assert forall|i: int| 0 <= i < w1.len() implies rest[i] == w1[i] by {
                assert(h.subrange(0, w.len() as int)[i + 1] == w[i + 1]);
            }
        }
        lemma_plain_front(t.drop_first(), k, w1);
        assert(t.subrange(0, w.len() as int) =~= w) by {
            assert forall|i: int| 0 <= i < w.len() implies t[i] == w[i] by {
                if i > 0 {
                    assert(t.drop_first().subrange(0, w1.len() as int)[i - 1] == w1[i - 1]);
                }
            }
        }
    } else {
        assert(t.subrange(0, 0) =~= w);
    }
}

/// One step of resolving entities undoes one step of escaping.
proof fn lemma_resolve_step(s: Seq<char>, k: int)
    requires
        0 <= k < 5,
        k > 0 ==> forall|i: int| !stands_at(s, escaped_char(ranked(k)), i),
    ensures
        replaced(half_escaped(s, k), escaped_char(ranked(k)), seq![ranked(k)]) == half_escaped(
            s,
            k + 1,
        ),
    decreases s.len(),
{
    lemma_entities();
    let e = escaped_char(ranked(k));
    let to = seq![ranked(k)];
    if s.len() > 0 {
        let c = s[0];
        let t = s.drop_first();
        let rest = half_escaped(t, k);
        let h = half_escaped(s, k);
        if k > 0 {
            assert forall|i: int| !stands_at(t, e, i) by {
                if stands_at(t, e, i) {
                    assert(s.subrange(i + 1, i + 1 + e.len()) =~= t.subrange(i, i + e.len()));
                    assert(stands_at(s, e, i + 1));
                }
            }
        }
        lemma_resolve_step(t, k);
        if rank(c) == k {
            assert(h =~= e + rest);
            assert(h.subrange(0, e.len() as int) =~= e);
            assert(h.skip(e.len() as int) =~= rest);
        } else if k < rank(c) < 5 {
            let u = escaped_char(c);
            assert(h =~= u + rest);
            assert forall|i: int| 0 <= i < u.len() implies !stands_at(u + rest, e, i) by {
                if stands_at(u + rest, e, i) {
                    assert((u + rest).subrange(i, i + e.len())[0] == e[0]);
                    assert((u + rest).subrange(i, i + e.len())[1] == e[1]);
                    assert((u + rest).subrange(i, i + e.len())[2] == e[2]);
                }
            }
            lemma_replaced_pass(u, rest, e, to);
        } else {
            let u = seq![c];
            assert(h =~= u + rest);
            assert(!stands_at(u + rest, e, 0)) by {
                if stands_at(u + rest, e, 0) {
                    assert((u + rest).subrange(0, e.len() as int)[0] == e[0]);
                    assert(c == '&');
                    let w = e.drop_first();
                    assert(rest.subrange(0, w.len() as int) =~= w) by {
                        assert forall|i: int| 0 <= i < w.len() implies rest[i] == w[i] by {
                            assert((u + rest).subrange(0, e.len() as int)[i + 1] == e[i + 1]);
                        }
                    }
                    lemma_plain_front(t, k, w);
                    assert(s.subrange(0, e.len() as int) =~= e) by {
                        assert forall|i: int| 0 <= i < e.len() implies s[i] == e[i] by {
                            if i > 0 {
                                assert(t.subrange(0, w.len() as int)[i - 1] == w[i - 1]);
                            }
                        }
                    }
                    assert(stands_at(s, e, 0));
                }
            }
            lemma_replaced_pass(u, rest, e, to);
        }
    }
}

/// Whether resolving entities gives back what was escaped: the text itself holds none of the four
/// entities that are resolved after the ampersand.
pub open spec fn survives(s: Seq<char>) -> bool {
    forall|k: int, i: int|
        1 <= k < 5 ==> !#[trigger] stands_at(s, escaped_char(ranked(k)), i)
}

/// Escaped text reads back as it was, unless it holds one of the four entities that are resolved
/// after the ampersand: `&lt;` in a name comes back as `<`.
pub proof fn law_escaping_round_trip(s: Seq<char>)
    requires
        survives(s),
    ensures
        unescaped(escaped(s)) == s,
{
    lemma_half_escaped_ends(s);
    lemma_resolve_step(s, 0);
    lemma_resolve_step(s, 1);
    lemma_resolve_step(s, 2);
    lemma_resolve_step(s, 3);
    lemma_resolve_step(s, 4);
    reveal_strlit("&");
    reveal_strlit("<");
    reveal_strlit(">");
    reveal_strlit("\"");
    reveal_strlit("'");
    assert("&"@ =~= seq!['&']);
    assert("<"@ =~= seq!['<']);
    assert(">"@ =~= seq!['>']);
    assert("\""@ =~= seq!['"']);
    assert("'"@ =~= seq!['\'']);
}

// ---------------------------------------------------------------------------
// Writing
// ---------------------------------------------------------------------------

/// What stands in front of a name.
pub open spec fn entry_open() -> Seq<char> {
    "\t\t<dict>\n\t\t\t<key>name</key>\n\t\t\t<string>"@
}

/// What stands behind a name.
pub open spec fn entry_close() -> Seq<char> {
    "</string>\n\t\t</dict>\n"@
}

/// The entries of a list of people: the names, one after the other.
pub open spec fn entries(people: Seq<PersonView>) -> Seq<char>
    decreases people.len(),
{
    if people.len() == 0 {
        Seq::empty()
    } else {
        entry_open() + escaped(people[0].name) + entry_close() + entries(people.drop_first())
    }
}

/// A list of people under its key; nothing where the list is empty.
pub open spec fn person_array(key: Seq<char>, people: Seq<PersonView>) -> Seq<char> {
    if people.len() == 0 {
        Seq::empty()
    } else {
        "\t<key>"@ + key + "</key>\n\t<array>\n"@ + entries(people) + "\t</array>\n"@
    }
}

/// The studio under its key; nothing where there is none.
pub open spec fn studio_entry(studio: Option<Seq<char>>) -> Seq<char> {
    match studio {
        Some(name) => "\t<key>studio</key>\n\t<string>"@ + escaped(name) + "</string>\n"@,
        None => Seq::empty(),
    }
}

/// What every property list begins with.
pub open spec fn list_open() -> Seq<char> {
    "<?xml version=\"1.0\" encoding=\"UTF-8\"?>\n<!DOCTYPE plist PUBLIC \"-//Apple//DTD PLIST 1.0//EN\" \"http://www.apple.com/DTDs/PropertyList-1.0.dtd\">\n<plist version=\"1.0\">\n<dict>\n"@
}

/// What every property list ends with.
pub open spec fn list_close() -> Seq<char> {
    "</dict>\n</plist>\n"@
}

/// The property list with the people and the studio of a title.
pub open spec fn people_list(m: MetadataView) -> Seq<char> {
    list_open() + (person_array("cast"@, m.cast) + (person_array("directors"@, m.directors) + (
    person_array("producers"@, m.producers) + (person_array("screenwriters"@, m.writers) + (
    studio_entry(m.studio) + list_close())))))
}

/// Whether a title has neither people nor a studio.
pub open spec fn nobody(m: MetadataView) -> bool {
    m.cast.len() == 0 && m.directors.len() == 0 && m.producers.len() == 0 && m.writers.len() == 0
        && m.studio is None
}

/// Appends a list of people under its key; nothing where the list is empty.
pub fn push_person_array(out: &mut String, key: &str, people: &Vec<Person>)
    ensures
        final(out)@ == old(out)@ + person_array(key@, people.deep_view()),
{
    let ghost before = out@;
    let ghost all = people.deep_view();
    if people.len() == 0 {
        assert(before + person_array(key@, all) =~= before);
        return;
    }
    out.append("\t<key>");
    out.append(key);
    out.append("</key>\n\t<array>\n");
    let ghost head = out@;
    let mut i: usize = 0;
    assert(all.skip(0) =~= all);
    assert(out@ + entries(all) =~= head + entries(all));
    while i < people.len()
        invariant
            i <= people@.len(),
            all == people.deep_view(),
            out@ + entries(all.skip(i as int)) == head + entries(all),
        decreases people@.len() - i,
    {
        let ghost prior = out@;
        out.append("\t\t<dict>\n\t\t\t<key>name</key>\n\t\t\t<string>");
        let name = xml_escape(people[i].name.as_str());
        out.append(name.as_str());
        out.append("</string>\n\t\t</dict>\n");
        proof {
            let rest = all.skip(i as int);
            assert(rest[0] == people@[i as int].deep_view());
            assert(rest.drop_first() =~= all.skip(i + 1));
            assert(prior + (entry_open() + escaped(rest[0].name) + entry_close() + entries(
                all.skip(i + 1),
            )) =~= out@ + entries(all.skip(i + 1)));
        }
        i += 1;
    }
    assert(out@ + entries(all.skip(i as int)) =~= out@);
    out.append("\t</array>\n");
    assert(out@ =~= before + person_array(key@, all));
}

/// Appends the studio under its key; nothing where there is none.
fn push_studio(out: &mut String, studio: &Option<String>)
    ensures
        final(out)@ == old(out)@ + studio_entry(studio.deep_view()),
{
    let ghost before = out@;
    if let Some(name) = studio {
        out.append("\t<key>studio</key>\n\t<string>");
        let text = xml_escape(name.as_str());
        out.append(text.as_str());
        out.append("</string>\n");
    }
    assert(out@ =~= before + studio_entry(studio.deep_view()));
}

proof fn lemma_regroup(
    a: Seq<char>,
    b: Seq<char>,
    c: Seq<char>,
    d: Seq<char>,
    e: Seq<char>,
    f: Seq<char>,
    g: Seq<char>,
)
    ensures
        a + (b + (c + (d + (e + (f + g))))) == (((((a + b) + c) + d) + e) + f) + g,
{
    assert(a + (b + (c + (d + (e + (f + g))))) =~= (((((a + b) + c) + d) + e) + f) + g);
}

/// The property list with the people and the studio of a title; none where there is nothing to
/// write.
pub fn build_itunmovi_plist(meta: &MediaMetadata) -> (r: Option<String>)
    ensures
        r.deep_view() == (if nobody(meta.deep_view()) {
            None
        } else {
            Some(people_list(meta.deep_view()))
        }),
{
    if meta.cast.len() == 0 && meta.directors.len() == 0 && meta.producers.len() == 0
        && meta.writers.len() == 0 && meta.studio.is_none() {
        return None;
    }
    let mut out =
        "<?xml version=\"1.0\" encoding=\"UTF-8\"?>\n<!DOCTYPE plist PUBLIC \"-//Apple//DTD PLIST 1.0//EN\" \"http://www.apple.com/DTDs/PropertyList-1.0.dtd\">\n<plist version=\"1.0\">\n<dict>\n".to_string();
    push_person_array(&mut out, "cast", &meta.cast);
    push_person_array(&mut out, "directors", &meta.directors);
    push_person_array(&mut out, "producers", &meta.producers);
    push_person_array(&mut out, "screenwriters", &meta.writers);
    push_studio(&mut out, &meta.studio);
    out.append("</dict>\n</plist>\n");
    proof {
        let m = meta.deep_view();
        lemma_regroup(
            list_open(),
            person_array("cast"@, m.cast),
            person_array("directors"@, m.directors),
            person_array("producers"@, m.producers),
            person_array("screenwriters"@, m.writers),
            studio_entry(m.studio),
            list_close(),
        );
    }
    Some(out)
}

// ---------------------------------------------------------------------------
// Reading
// ---------------------------------------------------------------------------

/// `s` from the end of the first `tag` on.
pub open spec fn after(s: Seq<char>, tag: Seq<char>) -> Option<Seq<char>> {
    match find_from(s, tag, 0) {
        Some(i) => Some(s.skip(i + tag.len())),
        None => None,
    }
}

/// A key as it is written.
pub open spec fn key_tag(key: Seq<char>) -> Seq<char> {
    "<key>"@ + key + "</key>"@
}

/// The first array in `s`, from its opening tag up to the first closing tag, or to the end where
/// there is none; nothing where the closing tag comes first.
pub open spec fn array_block(s: Seq<char>) -> Option<Seq<char>> {
    match find_from(s, "<array>"@, 0) {
        None => None,
        Some(start) => {
            let end = match find_from(s, "</array>"@, 0) {
                Some(e) => e,
                None => s.len() as int,
            };
            Some(
                if end < start {
                    Seq::empty()
                } else {
                    s.subrange(start, end)
                },
            )
        },
    }
}

/// The texts between string tags in `s`, in order.
pub open spec fn strings_in(s: Seq<char>) -> Seq<Seq<char>>
    decreases s.len(),
{
    match after(s, "<string>"@) {
        None => Seq::empty(),
        Some(rest) => match find_from(rest, "</string>"@, 0) {
            None => Seq::empty(),
            Some(e) => if 0 <= e && e + 9 <= rest.len() && rest.len() < s.len() {
                seq![rest.take(e)] + strings_in(rest.skip(e + 9))
            } else {
                Seq::empty()
            },
        },
    }
}

/// The people that raw names stand for: each name resolved and trimmed, blank ones left out.
pub open spec fn people_named(raw: Seq<Seq<char>>) -> Seq<PersonView>
    decreases raw.len(),
{
    if raw.len() == 0 {
        Seq::empty()
    } else {
        let name = trimmed(unescaped(raw[0]));
        let rest = people_named(raw.drop_first());
        if name.len() == 0 {
            rest
        } else {
            seq![PersonView { name, role: None }] + rest
        }
    }
}

/// The people in the array behind a key.
pub open spec fn people_after(xml: Seq<char>, key: Seq<char>) -> Seq<PersonView> {
    match after(xml, key_tag(key)) {
        None => Seq::empty(),
        Some(rest) => match array_block(rest) {
            None => Seq::empty(),
            Some(block) => people_named(strings_in(block)),
        },
    }
}

/// The string behind a key, trimmed and resolved; none where it is empty.
pub open spec fn string_after(xml: Seq<char>, key: Seq<char>) -> Option<Seq<char>> {
    match after(xml, key_tag(key)) {
        None => None,
        Some(rest) => match after(rest, "<string>"@) {
            None => None,
            Some(text) => match find_from(text, "</string>"@, 0) {
                None => None,
                Some(e) => {
                    let val = unescaped(trimmed(text.take(e)));
                    if val.len() == 0 {
                        None
                    } else {
                        Some(val)
                    }
                },
            },
        },
    }
}

/// The people and the studio read from a property list.
#[derive(Debug)]
pub struct ItunmoviPeople {
    pub cast: Vec<Person>,
    pub directors: Vec<Person>,
    pub producers: Vec<Person>,
    pub writers: Vec<Person>,
    pub studio: Option<String>,
}

/// `v` from the end of the first `tag` on, as a position.
fn position_after(v: &Vec<char>, tag: &str, from: usize) -> (r: Option<usize>)
    requires
        from <= v@.len(),
        tag@.len() > 0,
    ensures
        match r {
            Some(i) => i <= v@.len() && from + tag@.len() <= i && after(
                v@.skip(from as int),
                tag@,
            ) == Some(v@.skip(i as int)) && find_from(v@.skip(from as int), tag@, 0) == Some(
                i - tag@.len() - from,
            ),
            None => after(v@.skip(from as int), tag@) is None,
        },
{
    let t = chars_of(tag);
    proof {
        lemma_find_skip(v@, tag@, from as int);
        lemma_find_from(v@, tag@, from as int);
    }
    let n: usize = v.len();
    match position_from(v, &t, from) {
        Some(i) => {
            assert(i + t@.len() <= n);
            proof {
                let k = i - from;
                assert(v@.skip(from as int).skip(k + tag@.len()) =~= v@.skip(i + tag@.len()));
            }
            Some(i + t.len())
        },
        None => None,
    }
}

/// Searching from a position is searching what follows it.
proof fn lemma_find_skip(s: Seq<char>, needle: Seq<char>, from: int)
    requires
        0 <= from <= s.len(),
    ensures
        find_from(s, needle, from) == (match find_from(s.skip(from), needle, 0) {
            Some(k) => Some(k + from),
            None => None,
        }),
{
    let rest = s.skip(from);
    lemma_find_from(s, needle, from);
    lemma_find_from(rest, needle, 0);
    assert forall|j: int| 0 <= j implies stands_at(rest, needle, j) == stands_at(
        s,
        needle,
        j + from,
    ) by {
        if j + needle.len() <= rest.len() {
            assert(rest.subrange(j, j + needle.len()) =~= s.subrange(
                j + from,
                j + from + needle.len(),
            ));
        }
    }
    match (find_from(s, needle, from), find_from(rest, needle, 0)) {
        (Some(a), Some(b)) => {
            assert(stands_at(rest, needle, a - from));
            assert(stands_at(s, needle, b + from));
        },
        (Some(a), None) => {
            assert(stands_at(rest, needle, a - from));
        },
        (None, Some(b)) => {
            assert(stands_at(s, needle, b + from));
        },
        (None, None) => {},
    }
}

/// The texts between string tags in `v[from..to]`, in order, as people.
fn people_between(v: &Vec<char>, from: usize, to: usize) -> (r: Vec<Person>)
    requires
        from <= to <= v@.len(),
    ensures
        r.deep_view() == people_named(strings_in(v@.subrange(from as int, to as int))),
{
    proof {
        reveal_strlit("<string>");
        reveal_strlit("</string>");
    }
    let mut block: Vec<char> = Vec::new();
    let mut k: usize = from;
    while k < to
        invariant
            from <= k <= to <= v@.len(),
            block@ == v@.subrange(from as int, k as int),
        decreases to - k,
    {
        block.push(v[k]);
        assert(v@.subrange(from as int, k + 1) =~= v@.subrange(from as int, k as int).push(
            v@[k as int],
        ));
        k += 1;
    }
    let ghost all = people_named(strings_in(block@));
    let mut people: Vec<Person> = Vec::new();
    let mut cursor: usize = 0;
    proof {
        assert(block@.skip(0) =~= block@);
        assert(people.deep_view() + all =~= all);
    }
    loop
        invariant
            cursor <= block@.len(),
            "<string>"@.len() == 8,
            "</string>"@.len() == 9,
            people.deep_view() + people_named(strings_in(block@.skip(cursor as int))) == all,
        ensures
            people.deep_view() == all,
        decreases block@.len() - cursor,
    {
        let ghost here = block@.skip(cursor as int);
        let ghost seen = people.deep_view();
        let start: usize = match position_after(&block, "<string>", cursor) {
            Some(i) => i,
            None => {
                assert(seen + Seq::<PersonView>::empty() =~= seen);
                break;
            },
        };
        let end: usize = match position_after(&block, "</string>", start) {
            Some(i) => i,
            None => {
                assert(seen + Seq::<PersonView>::empty() =~= seen);
                break;
            },
        };
        let raw = string_range(&block, start, end - 9);
        let text = xml_unescape(raw.as_str());
        let name = trim(text.as_str());
        let ghost rest = block@.skip(start as int);
        let ghost next = strings_in(block@.skip(end as int));
        proof {
            let e = end - 9 - start;
            assert(rest.take(e) =~= raw@);
            assert(rest.skip(e + 9) =~= block@.skip(end as int));
            assert(strings_in(here) == seq![raw@] + next);
            assert((seq![raw@] + next).drop_first() =~= next);
        }
        if !name.as_str().is_empty() {
            people.push(Person::new(name.as_str()));
            proof {
                let p = PersonView { name: name@, role: None };
                assert(people.deep_view() =~= seen.push(p));
                assert(seen + (seq![p] + people_named(next)) =~= seen.push(p) + people_named(
                    next,
                ));
            }
        }
        cursor = end;
    }
    people
}

/// The people in the array behind a key.
fn names_after_key(xml: &Vec<char>, key: &str) -> (r: Vec<Person>)
    ensures
        r.deep_view() == people_after(xml@, key@),
{
    proof {
        reveal_strlit("<key>");
        reveal_strlit("<array>");
        reveal_strlit("</array>");
        assert(xml@.skip(0) =~= xml@);
    }
    let tag = "<key>".to_string().concat(key).concat("</key>");
    let none: Vec<Person> = Vec::new();
    assert(none.deep_view() =~= Seq::<PersonView>::empty());
    let rest: usize = match position_after(xml, tag.as_str(), 0) {
        Some(i) => i,
        None => return none,
    };
    let ghost tail = xml@.skip(rest as int);
    let start: usize = match position_after(xml, "<array>", rest) {
        Some(i) => i - 7,
        None => return none,
    };
    let end: usize = match position_after(xml, "</array>", rest) {
        Some(i) => i - 8,
        None => xml.len(),
    };
    if end < start {
        proof {
            let block = Seq::<char>::empty();
            assert(array_block(tail) == Some(block));
            reveal_strlit("<string>");
            lemma_find_from(block, "<string>"@, 0);
            assert(strings_in(block) =~= Seq::empty());
        }
        return none;
    }
    assert(tail.subrange(start - rest, end - rest) =~= xml@.subrange(start as int, end as int));
    people_between(xml, start, end)
}

/// The string behind a key, trimmed and resolved; none where it is empty.
fn string_after_key(xml: &Vec<char>, key: &str) -> (r: Option<String>)
    ensures
        r.deep_view() == string_after(xml@, key@),
{
    proof {
        reveal_strlit("<key>");
        reveal_strlit("<string>");
        reveal_strlit("</string>");
        assert(xml@.skip(0) =~= xml@);
    }
    let tag = "<key>".to_string().concat(key).concat("</key>");
    let rest: usize = match position_after(xml, tag.as_str(), 0) {
        Some(i) => i,
        None => return None,
    };
    let start: usize = match position_after(xml, "<string>", rest) {
        Some(i) => i,
        None => return None,
    };
    let end: usize = match position_after(xml, "</string>", start) {
        Some(i) => i - 9,
        None => return None,
    };
    assert(xml@.skip(start as int).take(end - start) =~= xml@.subrange(start as int, end as int));
    let raw = string_range(xml, start, end);
    let text = trim(raw.as_str());
    let val = xml_unescape(text.as_str());
    if val.as_str().is_empty() {
        None
    } else {
        Some(val)
    }
}

/// The people and the studio in a property list. This is no general reader: it looks for each key,
/// and takes the strings in the array behind it.
pub fn parse_itunmovi_people(xml: &str) -> (r: ItunmoviPeople)
    ensures
        r.cast.deep_view() == people_after(xml@, "cast"@),
        r.directors.deep_view() == people_after(xml@, "directors"@),
        r.producers.deep_view() == people_after(xml@, "producers"@),
        r.writers.deep_view() == people_after(xml@, "screenwriters"@),
        r.studio.deep_view() == string_after(xml@, "studio"@),
{
    let v = chars_of(xml);
    ItunmoviPeople {
        cast: names_after_key(&v, "cast"),
        directors: names_after_key(&v, "directors"),
        producers: names_after_key(&v, "producers"),
        writers: names_after_key(&v, "screenwriters"),
        studio: string_after_key(&v, "studio"),
    }
}

// ---------------------------------------------------------------------------
// Reading back what was written
// ---------------------------------------------------------------------------

/// Whether `s` holds no tag from `i` on.
spec fn untagged_from(s: Seq<char>, i: int) -> bool
    decreases s.len() - i,
{
    i >= s.len() || (s[i] != '<' && untagged_from(s, i + 1))
}

/// Whether `s` holds no tag.
spec fn untagged(s: Seq<char>) -> bool {
    forall|i: int| 0 <= i < s.len() ==> s[i] != '<'
}

/// Whether `s` is one tag with the text behind it.
spec fn tagged(s: Seq<char>) -> bool {
    s.len() > 0 && s[0] == '<' && forall|i: int| 1 <= i < s.len() ==> s[i] != '<'
}

proof fn lemma_untagged_from(s: Seq<char>, i: int)
    requires
        untagged_from(s, i),
        0 <= i,
    ensures
        forall|k: int| i <= k < s.len() ==> s[k] != '<',
    decreases s.len() - i,
{
    if i < s.len() {
        lemma_untagged_from(s, i + 1);
    }
}

/// A search passes over a front part in which the needle does not begin.
proof fn lemma_pass(u: Seq<char>, rest: Seq<char>, p: Seq<char>)
    requires
        forall|i: int| 0 <= i < u.len() ==> !stands_at(u + rest, p, i),
    ensures
        find_from(u + rest, p, 0) == (match find_from(rest, p, 0) {
            Some(k) => Some(k + u.len()),
            None => None,
        }),
        after(u + rest, p) == after(rest, p),
{
    let s = u + rest;
    assert(s.skip(u.len() as int) =~= rest);
    lemma_find_skip(s, p, u.len() as int);
    lemma_find_from(s, p, 0);
    lemma_find_from(s, p, u.len() as int);
    match find_from(rest, p, 0) {
        Some(k) => {
            assert(s.skip(k + u.len() + p.len()) =~= rest.skip(k + p.len()));
        },
        None => {},
    }
}

proof fn lemma_pass_untagged(u: Seq<char>, rest: Seq<char>, p: Seq<char>)
    requires
        untagged(u),
        p.len() > 0,
        p[0] == '<',
    ensures
        find_from(u + rest, p, 0) == (match find_from(rest, p, 0) {
            Some(k) => Some(k + u.len()),
            None => None,
        }),
        after(u + rest, p) == after(rest, p),
{
    assert forall|i: int| 0 <= i < u.len() implies !stands_at(u + rest, p, i) by {
        if stands_at(u + rest, p, i) {
            assert((u + rest).subrange(i, i + p.len())[0] == p[0]);
            assert(u[i] != '<');
        }
    }
    lemma_pass(u, rest, p);
}

/// A search passes over a tag that differs from the needle at `d`.
proof fn lemma_pass_tagged(u: Seq<char>, rest: Seq<char>, p: Seq<char>, d: int)
    requires
        tagged(u),
        p.len() > 0,
        p[0] == '<',
        0 <= d < p.len(),
        d < u.len(),
        u[d] != p[d],
    ensures
        find_from(u + rest, p, 0) == (match find_from(rest, p, 0) {
            Some(k) => Some(k + u.len()),
            None => None,
        }),
        after(u + rest, p) == after(rest, p),
{
    assert forall|i: int| 0 <= i < u.len() implies !stands_at(u + rest, p, i) by {
        if stands_at(u + rest, p, i) {
            let w = (u + rest).subrange(i, i + p.len());
            assert(w[0] == p[0]);
            if i > 0 {
                assert(u[i] != '<');
            } else {
                assert(w[d] == p[d]);
                assert((u + rest)[d] == u[d]);
            }
        }
    }
    lemma_pass(u, rest, p);
}

/// Escaped text holds no tag.
proof fn lemma_escaped_untagged(s: Seq<char>)
    ensures
        untagged(escaped(s)),
    decreases s.len(),
{
    lemma_entities();
    if s.len() > 0 {
        lemma_escaped_untagged(s.drop_first());
        let e = escaped_char(s[0]);
        let r = escaped(s.drop_first());
        assert forall|i: int| 0 <= i < (e + r).len() implies (e + r)[i] != '<' by {
            if i < e.len() {
                assert((e + r)[i] == e[i]);
            } else {
                assert((e + r)[i] == r[i - e.len()]);
            }
        }
    }
}

/// The tags of an entry.
proof fn lemma_entry_tags()
    ensures
        entry_open() == "\t\t"@ + ("<dict>\n\t\t\t"@ + ("<key>name"@ + ("</key>\n\t\t\t"@
            + "<string>"@))),
        entry_close() == "</string>\n\t\t"@ + "</dict>\n"@,
        untagged("\t\t"@),
        tagged("<dict>\n\t\t\t"@),
        tagged("<key>name"@),
        tagged("</key>\n\t\t\t"@),
        tagged("<string>"@),
        tagged("</string>\n\t\t"@),
        tagged("</dict>\n"@),
        "<dict>\n\t\t\t"@.len() == 10,
        "<key>name"@.len() == 9,
        "</key>\n\t\t\t"@.len() == 10,
        "<string>"@.len() == 8,
        "</string>\n\t\t"@.len() == 12,
        "</dict>\n"@.len() == 8,
        "<dict>\n\t\t\t"@[1] == 'd',
        "<key>name"@[1] == 'k' && "<key>name"@[5] == 'n',
        "</key>\n\t\t\t"@[1] == '/' && "</key>\n\t\t\t"@[2] == 'k',
        "<string>"@[1] == 's',
        "</string>\n\t\t"@[1] == '/' && "</string>\n\t\t"@[2] == 's',
        "</dict>\n"@[1] == '/' && "</dict>\n"@[2] == 'd',
{
    reveal_strlit("\t\t<dict>\n\t\t\t<key>name</key>\n\t\t\t<string>");
    reveal_strlit("</string>\n\t\t</dict>\n");
    reveal_strlit("\t\t");
    reveal_strlit("<dict>\n\t\t\t");
    reveal_strlit("<key>name");
    reveal_strlit("</key>\n\t\t\t");
    reveal_strlit("<string>");
    reveal_strlit("</string>\n\t\t");
    reveal_strlit("</dict>\n");
    reveal_with_fuel(untagged_from, 13);
    assert(untagged_from("\t\t"@, 0));
    assert(untagged_from("<dict>\n\t\t\t"@, 1));
    assert(untagged_from("<key>name"@, 1));
    assert(untagged_from("</key>\n\t\t\t"@, 1));
    assert(untagged_from("<string>"@, 1));
    assert(untagged_from("</string>\n\t\t"@, 1));
    assert(untagged_from("</dict>\n"@, 1));
    lemma_untagged_from("\t\t"@, 0);
    lemma_untagged_from("<dict>\n\t\t\t"@, 1);
    lemma_untagged_from("<key>name"@, 1);
    lemma_untagged_from("</key>\n\t\t\t"@, 1);
    lemma_untagged_from("<string>"@, 1);
    lemma_untagged_from("</string>\n\t\t"@, 1);
    lemma_untagged_from("</dict>\n"@, 1);
    assert(entry_open() =~= "\t\t"@ + ("<dict>\n\t\t\t"@ + ("<key>name"@ + ("</key>\n\t\t\t"@
        + "<string>"@))));
    assert(entry_close() =~= "</string>\n\t\t"@ + "</dict>\n"@);
}

/// Whether a needle is no tag of an entry: the tag of a key other than `name`, or one that closes
/// an array.
spec fn foreign(p: Seq<char>) -> bool {
    p.len() >= 7 && p[0] == '<' && ((p[1] == 'k' && p[5] != 'n') || (p[1] == '/' && p[2] == 'a'))
}

/// A search for something else passes over an entry.
proof fn lemma_pass_entry(name: Seq<char>, rest: Seq<char>, p: Seq<char>)
    requires
        foreign(p),
    ensures
        ({
            let s = entry_open() + name + entry_close() + rest;
            untagged(name) ==> find_from(s, p, 0) == (match find_from(rest, p, 0) {
                Some(k) => Some(k + (entry_open() + name + entry_close()).len()),
                None => None,
            }) && after(s, p) == after(rest, p)
        }),
{
    if untagged(name) {
        lemma_entry_tags();
        let r8 = "</dict>\n"@ + rest;
        let r7 = "</string>\n\t\t"@ + r8;
        let r6 = name + r7;
        let r5 = "<string>"@ + r6;
        let r4 = "</key>\n\t\t\t"@ + r5;
        let r3 = "<key>name"@ + r4;
        let r2 = "<dict>\n\t\t\t"@ + r3;
        let r1 = "\t\t"@ + r2;
        assert(r1 =~= entry_open() + name + entry_close() + rest);
        lemma_pass_untagged("\t\t"@, r2, p);
        lemma_pass_tagged("<dict>\n\t\t\t"@, r3, p, 1);
        lemma_pass_tagged("<key>name"@, r4, p, if p[1] == 'k' { 5 } else { 1 });
        lemma_pass_tagged("</key>\n\t\t\t"@, r5, p, if p[1] == 'k' { 1 } else { 2 });
        lemma_pass_tagged("<string>"@, r6, p, 1);
        lemma_pass_untagged(name, r7, p);
        lemma_pass_tagged("</string>\n\t\t"@, r8, p, if p[1] == 'k' { 1 } else { 2 });
        lemma_pass_tagged("</dict>\n"@, rest, p, if p[1] == 'k' { 1 } else { 2 });
    }
}

proof fn lemma_pass_entries(people: Seq<PersonView>, rest: Seq<char>, p: Seq<char>)
    requires
        foreign(p),
    ensures
        find_from(entries(people) + rest, p, 0) == (match find_from(rest, p, 0) {
            Some(k) => Some(k + entries(people).len()),
            None => None,
        }),
        after(entries(people) + rest, p) == after(rest, p),
    decreases people.len(),
{
    if people.len() == 0 {
        assert(entries(people) + rest =~= rest);
    } else {
        let name = escaped(people[0].name);
        let more = entries(people.drop_first());
        lemma_escaped_untagged(people[0].name);
        lemma_pass_entry(name, more + rest, p);
        lemma_pass_entries(people.drop_first(), rest, p);
        assert(entries(people) + rest =~= entry_open() + name + entry_close() + (more + rest));
    }
}

/// The tags around the entries of an array.
proof fn lemma_array_tags()
    ensures
        "\t<key>"@ == "\t"@ + "<key>"@,
        "</key>\n\t<array>\n"@ == "</key>"@ + ("\n\t"@ + ("<array>"@ + "\n"@)),
        "\t</array>\n"@ == "\t"@ + ("</array>"@ + "\n"@),
        untagged("\t"@),
        untagged("\n\t"@),
        untagged("\n"@),
        tagged("<key>"@),
        tagged("</key>"@),
        tagged("<array>"@),
        tagged("</array>"@),
        "<key>"@.len() == 5,
        "</key>"@.len() == 6,
        "<array>"@.len() == 7,
        "</array>"@.len() == 8,
        "<key>"@[1] == 'k',
        "</key>"@[1] == '/' && "</key>"@[2] == 'k',
        "<array>"@[1] == 'a',
        "</array>"@[1] == '/' && "</array>"@[2] == 'a',
        "\t"@.len() == 1,
        "\n"@.len() == 1,
        "\n\t"@.len() == 2,
{
    reveal_strlit("\t<key>");
    reveal_strlit("</key>\n\t<array>\n");
    reveal_strlit("\t</array>\n");
    reveal_strlit("\t");
    reveal_strlit("\n\t");
    reveal_strlit("\n");
    reveal_strlit("<key>");
    reveal_strlit("</key>");
    reveal_strlit("<array>");
    reveal_strlit("</array>");
    reveal_with_fuel(untagged_from, 10);
    assert(untagged_from("\t"@, 0) && untagged_from("\n\t"@, 0) && untagged_from("\n"@, 0));
    assert(untagged_from("<key>"@, 1) && untagged_from("</key>"@, 1));
    assert(untagged_from("<array>"@, 1) && untagged_from("</array>"@, 1));
    lemma_untagged_from("\t"@, 0);
    lemma_untagged_from("\n\t"@, 0);
    lemma_untagged_from("\n"@, 0);
    lemma_untagged_from("<key>"@, 1);
    lemma_untagged_from("</key>"@, 1);
    lemma_untagged_from("<array>"@, 1);
    lemma_untagged_from("</array>"@, 1);
    assert("\t<key>"@ =~= "\t"@ + "<key>"@);
    assert("</key>\n\t<array>\n"@ =~= "</key>"@ + ("\n\t"@ + ("<array>"@ + "\n"@)));
    assert("\t</array>\n"@ =~= "\t"@ + ("</array>"@ + "\n"@));
}

/// Two keys that differ in one of their first two letters; neither is `name`.
spec fn apart(a: Seq<char>, b: Seq<char>) -> bool {
    untagged(a) && untagged(b) && a.len() >= 2 && b.len() >= 2 && a[0] != 'n' && b[0] != 'n' && (
    a[0] != b[0] || a[1] != b[1])
}

proof fn lemma_key_tag(key: Seq<char>)
    requires
        key.len() >= 2,
        key[0] != 'n',
    ensures
        foreign(key_tag(key)),
        key_tag(key)[1] == 'k',
        key_tag(key)[5] == key[0],
        key_tag(key)[6] == key[1],
{
    lemma_array_tags();
}

/// A search for one key passes over the array of another.
proof fn lemma_pass_array(
    key: Seq<char>,
    people: Seq<PersonView>,
    rest: Seq<char>,
    wanted: Seq<char>,
)
    requires
        apart(key, wanted),
    ensures
        after(person_array(key, people) + rest, key_tag(wanted)) == after(rest, key_tag(wanted)),
{
    let p = key_tag(wanted);
    lemma_key_tag(wanted);
    if people.len() == 0 {
        assert(person_array(key, people) + rest =~= rest);
    } else {
        lemma_array_tags();
        let u = "<key>"@ + key;
        assert(tagged(u)) by {
            assert forall|i: int| 1 <= i < u.len() implies u[i] != '<' by {
                if i >= 5 {
                    assert(u[i] == key[i - 5]);
                }
            }
        }
        let r9 = "\n"@ + rest;
        let r8 = "</array>"@ + r9;
        let r7 = "\t"@ + r8;
        let r6 = entries(people) + r7;
        let r5 = "\n"@ + r6;
        let r4 = "<array>"@ + r5;
        let r3 = "\n\t"@ + r4;
        let r2 = "</key>"@ + r3;
        let r1 = u + r2;
        assert(person_array(key, people) + rest =~= "\t"@ + r1);
        lemma_pass_untagged("\t"@, r1, p);
        lemma_pass_tagged(u, r2, p, if key[0] != wanted[0] { 5 } else { 6 });
        lemma_pass_tagged("</key>"@, r3, p, 1);
        lemma_pass_untagged("\n\t"@, r4, p);
        lemma_pass_tagged("<array>"@, r5, p, 1);
        lemma_pass_untagged("\n"@, r6, p);
        lemma_pass_entries(people, r7, p);
        lemma_pass_untagged("\t"@, r8, p);
        lemma_pass_tagged("</array>"@, r9, p, 1);
        lemma_pass_untagged("\n"@, rest, p);
    }
}

/// The names of people as they are written.
pub open spec fn written_names(people: Seq<PersonView>) -> Seq<Seq<char>> {
    people.map_values(|p: PersonView| escaped(p.name))
}

/// Where a needle is found that stands at the front.
proof fn lemma_found_front(p: Seq<char>, rest: Seq<char>)
    ensures
        find_from(p + rest, p, 0) == Some(0int),
        after(p + rest, p) == Some(rest),
{
    assert((p + rest).subrange(0, p.len() as int) =~= p);
    assert((p + rest).skip(p.len() as int) =~= rest);
}

/// The strings of written entries are the names.
proof fn lemma_strings_of_entries(people: Seq<PersonView>, tail: Seq<char>)
    requires
        untagged(tail),
    ensures
        strings_in(entries(people) + tail) == written_names(people),
    decreases people.len(),
{
    let tag = "<string>"@;
    lemma_entry_tags();
    reveal_strlit("</string>");
    if people.len() == 0 {
        assert(entries(people) + tail =~= tail + Seq::<char>::empty());
        let none = Seq::<char>::empty();
        lemma_find_from(none, tag, 0);
        lemma_pass_untagged(tail, none, tag);
        assert(strings_in(tail + none) =~= written_names(people));
    } else {
        let name = escaped(people[0].name);
        let more = entries(people.drop_first()) + tail;
        lemma_escaped_untagged(people[0].name);
        lemma_strings_of_entries(people.drop_first(), tail);
        let r8 = "</dict>\n"@ + more;
        let r7 = "</string>\n\t\t"@ + r8;
        let r6 = name + r7;
        let r5 = tag + r6;
        let r4 = "</key>\n\t\t\t"@ + r5;
        let r3 = "<key>name"@ + r4;
        let r2 = "<dict>\n\t\t\t"@ + r3;
        let s = "\t\t"@ + r2;
        assert(s =~= entries(people) + tail);
        lemma_pass_untagged("\t\t"@, r2, tag);
        lemma_pass_tagged("<dict>\n\t\t\t"@, r3, tag, 1);
        lemma_pass_tagged("<key>name"@, r4, tag, 1);
        lemma_pass_tagged("</key>\n\t\t\t"@, r5, tag, 1);
        lemma_found_front(tag, r6);
        let close = "</string>"@;
        let gap = "\n\t\t"@;
        reveal_strlit("</string>\n\t\t");
        reveal_strlit("\n\t\t");
        assert("</string>\n\t\t"@ =~= close + gap);
        assert(r7 =~= close + (gap + r8));
        lemma_found_front(close, gap + r8);
        lemma_pass_untagged(name, r7, close);
        assert(find_from(r6, close, 0) == Some(name.len() as int));
        assert(r6.take(name.len() as int) =~= name);
        assert(r6.skip(name.len() as int + 9) =~= gap + r8);
        reveal_with_fuel(untagged_from, 4);
        assert(untagged_from(gap, 0));
        lemma_untagged_from(gap, 0);
        lemma_pass_untagged(gap, r8, tag);
        lemma_pass_tagged("</dict>\n"@, more, tag, 1);
        assert(strings_in(gap + r8) == strings_in(more)) by {
            lemma_strings_pass(gap + r8, more);
        }
        assert(strings_in(s) == seq![name] + strings_in(more));
        assert(seq![name] + written_names(people.drop_first()) =~= written_names(people));
    }
}

/// Texts in which the same follows the first string tag hold the same strings.
proof fn lemma_strings_pass(s: Seq<char>, t: Seq<char>)
    requires
        after(s, "<string>"@) == after(t, "<string>"@),
    ensures
        strings_in(s) == strings_in(t),
{
    reveal_strlit("<string>");
    lemma_find_from(s, "<string>"@, 0);
    lemma_find_from(t, "<string>"@, 0);
}

/// The array behind its own key reads back as the names.
proof fn lemma_read_array(key: Seq<char>, people: Seq<PersonView>, rest: Seq<char>)
    requires
        people.len() > 0,
        untagged(key),
        key.len() >= 2,
        key[0] != 'n',
    ensures
        people_after(person_array(key, people) + rest, key) == people_named(written_names(people)),
{
    let p = key_tag(key);
    lemma_key_tag(key);
    lemma_array_tags();
    let open = "<array>"@;
    let close = "</array>"@;
    let r9 = "\n"@ + rest;
    let r8 = close + r9;
    let r7 = "\t"@ + r8;
    let r6 = entries(people) + r7;
    let r5 = "\n"@ + r6;
    let r4 = open + r5;
    let r3 = "\n\t"@ + r4;
    let r1 = p + r3;
    let s = person_array(key, people) + rest;
    assert(s =~= "\t"@ + r1);
    lemma_pass_untagged("\t"@, r1, p);
    lemma_found_front(p, r3);
    assert(after(s, p) == Some(r3));
    lemma_pass_untagged("\n\t"@, r4, open);
    lemma_found_front(open, r5);
    assert(find_from(r3, open, 0) == Some(2int));
    lemma_pass_untagged("\n\t"@, r4, close);
    lemma_pass_tagged(open, r5, close, 1);
    lemma_pass_untagged("\n"@, r6, close);
    lemma_pass_entries(people, r7, close);
    lemma_pass_untagged("\t"@, r8, close);
    lemma_found_front(close, r9);
    let end = 11 + entries(people).len() as int;
    assert(find_from(r3, close, 0) == Some(end));
    let body = entries(people) + "\t"@;
    let block = open + ("\n"@ + body);
    assert(r3.subrange(2, end) =~= block);
    let tag = "<string>"@;
    lemma_entry_tags();
    lemma_pass_tagged(open, "\n"@ + body, tag, 1);
    lemma_pass_untagged("\n"@, body, tag);
    lemma_strings_pass(block, body);
    lemma_strings_of_entries(people, "\t"@);
}

/// The tags around the entries of a list.
proof fn lemma_list_tags()
    ensures
        list_open() == "<?xml version=\"1.0\" encoding=\"UTF-8\"?>\n"@ + (
        "<!DOCTYPE plist PUBLIC \"-//Apple//DTD PLIST 1.0//EN\" \"http://www.apple.com/DTDs/PropertyList-1.0.dtd\">\n"@
            + ("<plist version=\"1.0\">\n"@ + "<dict>\n"@)),
        list_close() == "</dict>\n"@ + "</plist>\n"@,
        tagged("<?xml version=\"1.0\" encoding=\"UTF-8\"?>\n"@),
        tagged(
            "<!DOCTYPE plist PUBLIC \"-//Apple//DTD PLIST 1.0//EN\" \"http://www.apple.com/DTDs/PropertyList-1.0.dtd\">\n"@,
        ),
        tagged("<plist version=\"1.0\">\n"@),
        tagged("<dict>\n"@),
        tagged("</dict>\n"@),
        tagged("</plist>\n"@),
        "<?xml version=\"1.0\" encoding=\"UTF-8\"?>\n"@.len() > 1
            && "<?xml version=\"1.0\" encoding=\"UTF-8\"?>\n"@[1] == '?',
        "<!DOCTYPE plist PUBLIC \"-//Apple//DTD PLIST 1.0//EN\" \"http://www.apple.com/DTDs/PropertyList-1.0.dtd\">\n"@.len()
            > 1
            && "<!DOCTYPE plist PUBLIC \"-//Apple//DTD PLIST 1.0//EN\" \"http://www.apple.com/DTDs/PropertyList-1.0.dtd\">\n"@[1]
            == '!',
        "<plist version=\"1.0\">\n"@.len() > 1 && "<plist version=\"1.0\">\n"@[1] == 'p',
        "<dict>\n"@.len() > 1 && "<dict>\n"@[1] == 'd',
        "</dict>\n"@.len() > 1 && "</dict>\n"@[1] == '/',
        "</plist>\n"@.len() > 1 && "</plist>\n"@[1] == '/',
{
    let head = "<?xml version=\"1.0\" encoding=\"UTF-8\"?>\n"@;
    let kind =
        "<!DOCTYPE plist PUBLIC \"-//Apple//DTD PLIST 1.0//EN\" \"http://www.apple.com/DTDs/PropertyList-1.0.dtd\">\n"@;
    reveal_strlit(
        "<?xml version=\"1.0\" encoding=\"UTF-8\"?>\n<!DOCTYPE plist PUBLIC \"-//Apple//DTD PLIST 1.0//EN\" \"http://www.apple.com/DTDs/PropertyList-1.0.dtd\">\n<plist version=\"1.0\">\n<dict>\n",
    );
    reveal_strlit("<?xml version=\"1.0\" encoding=\"UTF-8\"?>\n");
    reveal_strlit(
        "<!DOCTYPE plist PUBLIC \"-//Apple//DTD PLIST 1.0//EN\" \"http://www.apple.com/DTDs/PropertyList-1.0.dtd\">\n",
    );
    reveal_strlit("<plist version=\"1.0\">\n");
    reveal_strlit("<dict>\n");
    reveal_strlit("</dict>\n</plist>\n");
    reveal_strlit("</dict>\n");
    reveal_strlit("</plist>\n");
    assert(list_close() =~= "</dict>\n"@ + "</plist>\n"@);
    assert(tagged(head)) by {
        reveal_with_fuel(untagged_from, 42);
        assert(untagged_from(head, 1));
        lemma_untagged_from(head, 1);
    }
    assert(tagged(kind)) by {
        reveal_with_fuel(untagged_from, 36);
        assert(untagged_from(kind, 75));
        assert(untagged_from(kind, 40));
        assert(untagged_from(kind, 5));
        assert(untagged_from(kind, 1));
        lemma_untagged_from(kind, 1);
    }
    assert(tagged("<plist version=\"1.0\">\n"@) && tagged("<dict>\n"@) && tagged("</dict>\n"@)
        && tagged("</plist>\n"@)) by {
        reveal_with_fuel(untagged_from, 25);
        assert(untagged_from("<plist version=\"1.0\">\n"@, 1));
        assert(untagged_from("<dict>\n"@, 1));
        assert(untagged_from("</dict>\n"@, 1));
        assert(untagged_from("</plist>\n"@, 1));
        lemma_untagged_from("<plist version=\"1.0\">\n"@, 1);
        lemma_untagged_from("<dict>\n"@, 1);
        lemma_untagged_from("</dict>\n"@, 1);
        lemma_untagged_from("</plist>\n"@, 1);
    }
    assert(list_open() =~= head + (kind + ("<plist version=\"1.0\">\n"@ + "<dict>\n"@)));
}

proof fn lemma_pass_list_open(rest: Seq<char>, wanted: Seq<char>)
    requires
        wanted.len() >= 2,
        wanted[0] != 'n',
    ensures
        after(list_open() + rest, key_tag(wanted)) == after(rest, key_tag(wanted)),
{
    let p = key_tag(wanted);
    let head = "<?xml version=\"1.0\" encoding=\"UTF-8\"?>\n"@;
    let kind =
        "<!DOCTYPE plist PUBLIC \"-//Apple//DTD PLIST 1.0//EN\" \"http://www.apple.com/DTDs/PropertyList-1.0.dtd\">\n"@;
    let list = "<plist version=\"1.0\">\n"@;
    let dict = "<dict>\n"@;
    lemma_key_tag(wanted);
    lemma_list_tags();
    lemma_pass_tagged(dict, rest, p, 1);
    lemma_pass_tagged(list, dict + rest, p, 1);
    lemma_pass_tagged(kind, list + (dict + rest), p, 1);
    lemma_pass_tagged(head, kind + (list + (dict + rest)), p, 1);
    assert(list_open() + rest =~= head + (kind + (list + (dict + rest))));
}

proof fn lemma_pass_list_close(wanted: Seq<char>)
    requires
        wanted.len() >= 2,
        wanted[0] != 'n',
    ensures
        after(list_close(), key_tag(wanted)) is None,
{
    let p = key_tag(wanted);
    let none = Seq::<char>::empty();
    lemma_key_tag(wanted);
    lemma_list_tags();
    lemma_find_from(none, p, 0);
    lemma_pass_tagged("</plist>\n"@, none, p, 1);
    lemma_pass_tagged("</dict>\n"@, "</plist>\n"@ + none, p, 1);
    assert(list_close() =~= "</dict>\n"@ + ("</plist>\n"@ + none));
}

/// The tags around the studio.
proof fn lemma_studio_tags()
    ensures
        "\t<key>studio</key>\n\t<string>"@ == "\t"@ + (key_tag("studio"@) + ("\n\t"@
            + "<string>"@)),
        "</string>\n"@ == "</string>"@ + "\n"@,
        tagged("</string>"@),
        tagged("<key>studio"@),
        "<key>studio"@.len() == 11,
        "<key>studio"@[5] == 's' && "<key>studio"@[6] == 't',
        "<key>studio"@ + "</key>"@ == key_tag("studio"@),
        "</string>"@.len() == 9,
        "</string>"@[1] == '/',
        untagged("studio"@),
        "studio"@.len() == 6,
        "studio"@[0] == 's' && "studio"@[1] == 't',
{
    reveal_strlit("\t<key>studio</key>\n\t<string>");
    reveal_strlit("</string>\n");
    reveal_strlit("</string>");
    reveal_strlit("<string>");
    reveal_strlit("\t");
    reveal_strlit("\n\t");
    reveal_strlit("\n");
    reveal_strlit("<key>");
    reveal_strlit("</key>");
    reveal_strlit("studio");
    reveal_strlit("<key>studio");
    reveal_with_fuel(untagged_from, 12);
    assert(untagged_from("</string>"@, 1));
    assert(untagged_from("<key>studio"@, 1));
    assert(untagged_from("studio"@, 0));
    lemma_untagged_from("</string>"@, 1);
    lemma_untagged_from("<key>studio"@, 1);
    lemma_untagged_from("studio"@, 0);
    assert("<key>studio"@ + "</key>"@ =~= key_tag("studio"@));
    assert("\t<key>studio</key>\n\t<string>"@ =~= "\t"@ + (key_tag("studio"@) + ("\n\t"@
        + "<string>"@)));
    assert("</string>\n"@ =~= "</string>"@ + "\n"@);
}

proof fn lemma_pass_studio(studio: Option<Seq<char>>, rest: Seq<char>, wanted: Seq<char>)
    requires
        apart("studio"@, wanted),
    ensures
        after(studio_entry(studio) + rest, key_tag(wanted)) == after(rest, key_tag(wanted)),
{
    let p = key_tag(wanted);
    lemma_key_tag(wanted);
    match studio {
        None => {
            assert(studio_entry(studio) + rest =~= rest);
        },
        Some(name) => {
            lemma_studio_tags();
            lemma_array_tags();
            lemma_entry_tags();
            lemma_escaped_untagged(name);
            let r7 = "\n"@ + rest;
            let r6 = "</string>"@ + r7;
            let r5 = escaped(name) + r6;
            let r4 = "<string>"@ + r5;
            let r3 = "\n\t"@ + r4;
            let r2 = "</key>"@ + r3;
            let r1 = "<key>studio"@ + r2;
            assert(studio_entry(studio) + rest =~= "\t"@ + r1);
            lemma_pass_untagged("\t"@, r1, p);
            lemma_pass_tagged("<key>studio"@, r2, p, if wanted[0] != 's' { 5 } else { 6 });
            lemma_pass_tagged("</key>"@, r3, p, 1);
            lemma_pass_untagged("\n\t"@, r4, p);
            lemma_pass_tagged("<string>"@, r5, p, 1);
            lemma_pass_untagged(escaped(name), r6, p);
            lemma_pass_tagged("</string>"@, r7, p, 1);
            lemma_pass_untagged("\n"@, rest, p);
        },
    }
}

proof fn lemma_read_studio(name: Seq<char>, rest: Seq<char>)
    ensures
        string_after(studio_entry(Some(name)) + rest, "studio"@) == ({
            let val = unescaped(trimmed(escaped(name)));
            if val.len() == 0 {
                None
            } else {
                Some(val)
            }
        }),
{
    let p = key_tag("studio"@);
    lemma_studio_tags();
    lemma_array_tags();
    lemma_entry_tags();
    lemma_key_tag("studio"@);
    lemma_escaped_untagged(name);
    let tag = "<string>"@;
    let close = "</string>"@;
    let r7 = "\n"@ + rest;
    let r6 = close + r7;
    let r5 = escaped(name) + r6;
    let r4 = tag + r5;
    let r3 = "\n\t"@ + r4;
    let r1 = p + r3;
    let s = studio_entry(Some(name)) + rest;
    assert(s =~= "\t"@ + r1);
    lemma_pass_untagged("\t"@, r1, p);
    lemma_found_front(p, r3);
    lemma_pass_untagged("\n\t"@, r4, tag);
    lemma_found_front(tag, r5);
    lemma_pass_untagged(escaped(name), r6, close);
    lemma_found_front(close, r7);
    assert(r5.take(escaped(name).len() as int) =~= escaped(name));
}

/// The keys are apart from each other.
proof fn lemma_keys_apart()
    ensures
        apart("cast"@, "directors"@) && apart("cast"@, "producers"@) && apart(
            "cast"@,
            "screenwriters"@,
        ) && apart("cast"@, "studio"@),
        apart("directors"@, "cast"@) && apart("directors"@, "producers"@) && apart(
            "directors"@,
            "screenwriters"@,
        ) && apart("directors"@, "studio"@),
        apart("producers"@, "cast"@) && apart("producers"@, "directors"@) && apart(
            "producers"@,
            "screenwriters"@,
        ) && apart("producers"@, "studio"@),
        apart("screenwriters"@, "cast"@) && apart("screenwriters"@, "directors"@) && apart(
            "screenwriters"@,
            "producers"@,
        ) && apart("screenwriters"@, "studio"@),
        apart("studio"@, "cast"@) && apart("studio"@, "directors"@) && apart(
            "studio"@,
            "producers"@,
        ) && apart("studio"@, "screenwriters"@),
{
    reveal_strlit("cast");
    reveal_strlit("directors");
    reveal_strlit("producers");
    reveal_strlit("screenwriters");
    reveal_strlit("studio");
    reveal_with_fuel(untagged_from, 14);
    assert(untagged_from("cast"@, 0) && untagged_from("directors"@, 0) && untagged_from(
        "producers"@,
        0,
    ) && untagged_from("screenwriters"@, 0) && untagged_from("studio"@, 0));
    lemma_untagged_from("cast"@, 0);
    lemma_untagged_from("directors"@, 0);
    lemma_untagged_from("producers"@, 0);
    lemma_untagged_from("screenwriters"@, 0);
    lemma_untagged_from("studio"@, 0);
}

/// What is read for a key, given what follows its first place.
proof fn lemma_people_pass(s: Seq<char>, t: Seq<char>, key: Seq<char>)
    requires
        after(s, key_tag(key)) == after(t, key_tag(key)),
    ensures
        people_after(s, key) == people_after(t, key),
        string_after(s, key) == string_after(t, key),
{
}

/// A list of people reads back as the written names, whether it is empty or not, if nothing behind
/// it has the same key.
proof fn lemma_read_list(key: Seq<char>, people: Seq<PersonView>, rest: Seq<char>)
    requires
        untagged(key),
        key.len() >= 2,
        key[0] != 'n',
        after(rest, key_tag(key)) is None,
    ensures
        people_after(person_array(key, people) + rest, key) == people_named(written_names(people)),
{
    if people.len() > 0 {
        lemma_read_array(key, people, rest);
    } else {
        assert(person_array(key, people) + rest =~= rest);
        assert(written_names(people).len() == 0);
    }
}

/// What is read from a written list, in terms of the names as they were written.
proof fn lemma_list_read_back(m: MetadataView)
    ensures
        people_after(people_list(m), "cast"@) == people_named(written_names(m.cast)),
        people_after(people_list(m), "directors"@) == people_named(written_names(m.directors)),
        people_after(people_list(m), "producers"@) == people_named(written_names(m.producers)),
        people_after(people_list(m), "screenwriters"@) == people_named(written_names(m.writers)),
        string_after(people_list(m), "studio"@) == (match m.studio {
            None => None,
            Some(name) => {
                let val = unescaped(trimmed(escaped(name)));
                if val.len() == 0 {
                    None
                } else {
                    Some(val)
                }
            },
        }),
{
    lemma_keys_apart();
    let t5 = list_close();
    let t4 = studio_entry(m.studio) + t5;
    let t3 = person_array("screenwriters"@, m.writers) + t4;
    let t2 = person_array("producers"@, m.producers) + t3;
    let t1 = person_array("directors"@, m.directors) + t2;
    let t0 = person_array("cast"@, m.cast) + t1;
    let x = list_open() + t0;
    assert(x == people_list(m));
    // cast
    lemma_pass_list_open(t0, "cast"@);
    lemma_pass_array("directors"@, m.directors, t2, "cast"@);
    lemma_pass_array("producers"@, m.producers, t3, "cast"@);
    lemma_pass_array("screenwriters"@, m.writers, t4, "cast"@);
    lemma_pass_studio(m.studio, t5, "cast"@);
    lemma_pass_list_close("cast"@);
    lemma_read_list("cast"@, m.cast, t1);
    lemma_people_pass(x, t0, "cast"@);
    // directors
    lemma_pass_list_open(t0, "directors"@);
    lemma_pass_array("cast"@, m.cast, t1, "directors"@);
    lemma_pass_array("producers"@, m.producers, t3, "directors"@);
    lemma_pass_array("screenwriters"@, m.writers, t4, "directors"@);
    lemma_pass_studio(m.studio, t5, "directors"@);
    lemma_pass_list_close("directors"@);
    lemma_read_list("directors"@, m.directors, t2);
    lemma_people_pass(x, t1, "directors"@);
    // producers
    lemma_pass_list_open(t0, "producers"@);
    lemma_pass_array("cast"@, m.cast, t1, "producers"@);
    lemma_pass_array("directors"@, m.directors, t2, "producers"@);
    lemma_pass_array("screenwriters"@, m.writers, t4, "producers"@);
    lemma_pass_studio(m.studio, t5, "producers"@);
    lemma_pass_list_close("producers"@);
    lemma_read_list("producers"@, m.producers, t3);
    lemma_people_pass(x, t2, "producers"@);
    // writers
    lemma_pass_list_open(t0, "screenwriters"@);
    lemma_pass_array("cast"@, m.cast, t1, "screenwriters"@);
    lemma_pass_array("directors"@, m.directors, t2, "screenwriters"@);
    lemma_pass_array("producers"@, m.producers, t3, "screenwriters"@);
    lemma_pass_studio(m.studio, t5, "screenwriters"@);
    lemma_pass_list_close("screenwriters"@);
    lemma_read_list("screenwriters"@, m.writers, t4);
    lemma_people_pass(x, t3, "screenwriters"@);
    // studio
    lemma_pass_list_open(t0, "studio"@);
    lemma_pass_array("cast"@, m.cast, t1, "studio"@);
    lemma_pass_array("directors"@, m.directors, t2, "studio"@);
    lemma_pass_array("producers"@, m.producers, t3, "studio"@);
    lemma_pass_array("screenwriters"@, m.writers, t4, "studio"@);
    lemma_people_pass(x, t4, "studio"@);
    match m.studio {
        Some(name) => {
            lemma_read_studio(name, t5);
        },
        None => {
            assert(t4 =~= t5);
            lemma_pass_list_close("studio"@);
        },
    }
}

/// The people of a list with their names trimmed, without roles and without blank names.
pub open spec fn tidy(people: Seq<PersonView>) -> Seq<PersonView>
    decreases people.len(),
{
    if people.len() == 0 {
        Seq::empty()
    } else {
        let name = trimmed(people[0].name);
        let rest = tidy(people.drop_first());
        if name.len() == 0 {
            rest
        } else {
            seq![PersonView { name, role: None }] + rest
        }
    }
}

/// A tidy list is as tidy as it can be.
pub proof fn lemma_tidy_twice(people: Seq<PersonView>)
    ensures
        tidy(tidy(people)) == tidy(people),
    decreases people.len(),
{
    if people.len() > 0 {
        let rest = people.drop_first();
        lemma_tidy_twice(rest);
        law_trim_is_idempotent(people[0].name);
        let name = trimmed(people[0].name);
        if name.len() > 0 {
            assert(tidy(people).drop_first() =~= tidy(rest));
        }
    }
}

/// Whether every name survives escaping.
pub open spec fn all_survive(people: Seq<PersonView>) -> bool {
    forall|i: int| 0 <= i < people.len() ==> survives((#[trigger] people[i]).name)
}

proof fn lemma_tidy(people: Seq<PersonView>)
    requires
        all_survive(people),
    ensures
        people_named(written_names(people)) == tidy(people),
    decreases people.len(),
{
    if people.len() > 0 {
        let rest = people.drop_first();
        assert(all_survive(rest)) by {
            assert forall|i: int| 0 <= i < rest.len() implies survives((#[trigger] rest[i]).name) by {
                assert(rest[i] == people[i + 1]);
            }
        }
        lemma_tidy(rest);
        law_escaping_round_trip(people[0].name);
        assert(written_names(people).drop_first() =~= written_names(rest));
    }
}

/// Escaping and trimming can be done in either order.
proof fn lemma_escape_trim(s: Seq<char>)
    ensures
        trimmed(escaped(s)) == escaped(trimmed(s)),
{
    lemma_escape_trim_start(s);
    lemma_escape_trim_end(trim_start(s));
}

proof fn lemma_escape_trim_start(s: Seq<char>)
    ensures
        trim_start(escaped(s)) == escaped(trim_start(s)),
    decreases s.len(),
{
    lemma_entities();
    if s.len() > 0 {
        let e = escaped(s);
        let rest = escaped(s.drop_first());
        assert(e[0] == escaped_char(s[0])[0]);
        assert(is_white(s[0]) ==> escaped_char(s[0]) == seq![s[0]]);
        if is_white(s[0]) {
            lemma_escape_trim_start(s.drop_first());
            assert(e.drop_first() =~= rest);
        }
    }
}

proof fn lemma_escaped_push(s: Seq<char>, c: char)
    ensures
        escaped(s.push(c)) == escaped(s) + escaped_char(c),
    decreases s.len(),
{
    let t = s.push(c);
    if s.len() == 0 {
        let none = Seq::<char>::empty();
        assert(t.drop_first() =~= none);
        assert(escaped(none) == none);
        assert(escaped(t) == escaped_char(t[0]) + escaped(t.drop_first()));
        assert(escaped(t) =~= escaped(s) + escaped_char(c));
    } else {
        assert(t.drop_first() =~= s.drop_first().push(c));
        lemma_escaped_push(s.drop_first(), c);
        assert(escaped(t) =~= escaped(s) + escaped_char(c));
    }
}

proof fn lemma_escape_trim_end(s: Seq<char>)
    ensures
        trim_end(escaped(s)) == escaped(trim_end(s)),
    decreases s.len(),
{
    lemma_entities();
    if s.len() > 0 {
        let c = s.last();
        let init = s.drop_last();
        assert(s =~= init.push(c));
        lemma_escaped_push(init, c);
        let e = escaped(s);
        let ec = escaped_char(c);
        assert(ec.len() > 0);
        assert(e.last() == ec.last());
        if is_white(c) {
            lemma_escape_trim_end(init);
            assert(e.drop_last() =~= escaped(init));
        } else {
            assert(!is_white(ec.last()));
        }
    }
}

/// A trimmed text is a part of the text.
proof fn lemma_trimmed_part(s: Seq<char>)
    ensures
        exists|a: int, b: int|
            0 <= a <= b <= s.len() && trimmed(s) == #[trigger] s.subrange(a, b),
{
    let a = lemma_trim_start_part(s);
    let t = trim_start(s);
    let b = lemma_trim_end_part(t);
    assert(trimmed(s) =~= s.subrange(a, a + b));
}

proof fn lemma_trim_start_part(s: Seq<char>) -> (a: int)
    ensures
        0 <= a <= s.len(),
        trim_start(s) == s.skip(a),
    decreases s.len(),
{
    if s.len() > 0 && is_white(s[0]) {
        let a = lemma_trim_start_part(s.drop_first());
        assert(s.drop_first().skip(a) =~= s.skip(a + 1));
        a + 1
    } else {
        assert(s.skip(0) =~= s);
        0
    }
}

proof fn lemma_trim_end_part(s: Seq<char>) -> (b: int)
    ensures
        0 <= b <= s.len(),
        trim_end(s) == s.take(b),
    decreases s.len(),
{
    if s.len() > 0 && is_white(s.last()) {
        let b = lemma_trim_end_part(s.drop_last());
        assert(s.drop_last().take(b) =~= s.take(b));
        b
    } else {
        assert(s.take(s.len() as int) =~= s);
        s.len() as int
    }
}

/// A part of a text that survives escaping survives it too.
proof fn lemma_part_survives(s: Seq<char>, a: int, b: int)
    requires
        survives(s),
        0 <= a <= b <= s.len(),
    ensures
        survives(s.subrange(a, b)),
{
    let t = s.subrange(a, b);
    assert forall|k: int, i: int| 1 <= k < 5 implies !#[trigger] stands_at(
        t,
        escaped_char(ranked(k)),
        i,
    ) by {
        let e = escaped_char(ranked(k));
        if stands_at(t, e, i) {
            assert(s.subrange(a + i, a + i + e.len()) =~= t.subrange(i, i + e.len()));
            assert(stands_at(s, e, a + i));
        }
    }
}

/// The people and the studio of a title read back from the property list that was written for it:
/// the names in order, trimmed, without roles and without blank ones, and the studio trimmed. (A
/// name with an entity in it such as `&lt;` comes back changed.)
pub proof fn law_people_read_back(m: MetadataView)
    requires
        all_survive(m.cast),
        all_survive(m.directors),
        all_survive(m.producers),
        all_survive(m.writers),
        m.studio matches Some(name) ==> survives(name),
    ensures
        people_after(people_list(m), "cast"@) == tidy(m.cast),
        people_after(people_list(m), "directors"@) == tidy(m.directors),
        people_after(people_list(m), "producers"@) == tidy(m.producers),
        people_after(people_list(m), "screenwriters"@) == tidy(m.writers),
        string_after(people_list(m), "studio"@) == (match m.studio {
            Some(name) => if trimmed(name).len() == 0 {
                None
            } else {
                Some(trimmed(name))
            },
            None => None,
        }),
{
    lemma_list_read_back(m);
    lemma_tidy(m.cast);
    lemma_tidy(m.directors);
    lemma_tidy(m.producers);
    lemma_tidy(m.writers);
    if let Some(name) = m.studio {
        lemma_escape_trim(name);
        lemma_trimmed_part(name);
        let (a, b) = choose|a: int, b: int|
            0 <= a <= b <= name.len() && trimmed(name) == #[trigger] name.subrange(a, b);
        lemma_part_survives(name, a, b);
        law_escaping_round_trip(trimmed(name));
    }
}

proof fn lemma_named_people_are_tidy(raw: Seq<Seq<char>>)
    ensures
        tidy(people_named(raw)) == people_named(raw),
    decreases raw.len(),
{
    if raw.len() > 0 {
        let rest = raw.drop_first();
        lemma_named_people_are_tidy(rest);
        law_trim_is_idempotent(unescaped(raw[0]));
        if trimmed(unescaped(raw[0])).len() > 0 {
            assert(people_named(raw).drop_first() =~= people_named(rest));
        }
    }
}

/// People that are read have trimmed names, no roles, and none is blank.
pub proof fn lemma_read_people_are_tidy(xml: Seq<char>, key: Seq<char>)
    ensures
        tidy(people_after(xml, key)) == people_after(xml, key),
{
    if let Some(rest) = after(xml, key_tag(key)) {
        if let Some(block) = array_block(rest) {
            lemma_named_people_are_tidy(strings_in(block));
        }
    }
}

/// Replacing text by text that is not blank at its ends leaves ends that are not blank.
proof fn lemma_replaced_ends(s: Seq<char>, from: Seq<char>, to: Seq<char>)
    requires
        from.len() > 0,
        to.len() > 0,
        !is_white(to[0]),
        !is_white(to.last()),
    ensures
        s.len() == 0 <==> replaced(s, from, to).len() == 0,
        s.len() > 0 && !is_white(s[0]) ==> !is_white(replaced(s, from, to)[0]),
        s.len() > 0 && !is_white(s.last()) ==> !is_white(replaced(s, from, to).last()),
    decreases s.len(),
{
    if s.len() > 0 {
        let rest = if begins(s, from) {
            s.skip(from.len() as int)
        } else {
            s.drop_first()
        };
        lemma_replaced_ends(rest, from, to);
        let head = if begins(s, from) {
            to
        } else {
            seq![s[0]]
        };
        assert(replaced(s, from, to) == head + replaced(rest, from, to));
        if rest.len() > 0 {
            assert(rest.last() == s.last());
            assert((head + replaced(rest, from, to)).last() == replaced(rest, from, to).last());
        } else {
            assert(head + replaced(rest, from, to) =~= head);
        }
    }
}

/// A string that is read has no white space at its ends.
pub proof fn lemma_read_string_is_trimmed(xml: Seq<char>, key: Seq<char>)
    ensures
        string_after(xml, key) matches Some(v) ==> trimmed(v) == v,
{
    if let Some(v) = string_after(xml, key) {
        let rest = after(xml, key_tag(key))->0;
        let text = after(rest, "<string>"@)->0;
        let t = trimmed(text.take(find_from(text, "</string>"@, 0)->0));
        lemma_trimmed_ends(text.take(find_from(text, "</string>"@, 0)->0));
        reveal_strlit("&amp;");
        reveal_strlit("&lt;");
        reveal_strlit("&gt;");
        reveal_strlit("&quot;");
        reveal_strlit("&apos;");
        reveal_strlit("&");
        reveal_strlit("<");
        reveal_strlit(">");
        reveal_strlit("\"");
        reveal_strlit("'");
        let r1 = replaced(t, "&amp;"@, "&"@);
        let r2 = replaced(r1, "&lt;"@, "<"@);
        let r3 = replaced(r2, "&gt;"@, ">"@);
        let r4 = replaced(r3, "&quot;"@, "\""@);
        lemma_replaced_ends(t, "&amp;"@, "&"@);
        lemma_replaced_ends(r1, "&lt;"@, "<"@);
        lemma_replaced_ends(r2, "&gt;"@, ">"@);
        lemma_replaced_ends(r3, "&quot;"@, "\""@);
        lemma_replaced_ends(r4, "&apos;"@, "'"@);
        assert(v == replaced(r4, "&apos;"@, "'"@));
        assert(trim_start(v) == v);
    }
}

/// Text is escaped character by character: five characters are written as entities, every other
/// one as it is.
pub proof fn law_escaping_goes_by_character(a: Seq<char>, b: Seq<char>, c: char)
    ensures
        escaped(a + b) == escaped(a) + escaped(b),
        escaped(seq!['&']) == "&amp;"@,
        escaped(seq!['<']) == "&lt;"@,
        escaped(seq!['>']) == "&gt;"@,
        escaped(seq!['"']) == "&quot;"@,
        escaped(seq!['\'']) == "&apos;"@,
        c != '&' && c != '<' && c != '>' && c != '"' && c != '\'' ==> escaped(seq![c]) == seq![c],
    decreases a.len(),
{
    lemma_escaped_one('&');
    lemma_escaped_one('<');
    lemma_escaped_one('>');
    lemma_escaped_one('"');
    lemma_escaped_one('\'');
    lemma_escaped_one(c);
    if a.len() == 0 {
        assert(a + b =~= b);
        assert(escaped(a) + escaped(b) =~= escaped(b));
    } else {
        law_escaping_goes_by_character(a.drop_first(), b, c);
        assert((a + b).drop_first() =~= a.drop_first() + b);
        assert(escaped(a + b) =~= escaped(a) + escaped(b));
    }
}

proof fn lemma_escaped_one(c: char)
    ensures
        escaped(seq![c]) == escaped_char(c),
{
    let s = seq![c];
    assert(s.drop_first() =~= Seq::<char>::empty());
    assert(escaped(s.drop_first()) =~= Seq::<char>::empty());
    assert(escaped(s) =~= escaped_char(c));
}

/// No character of escaped text can be taken for the beginning or the end of a tag.
pub proof fn law_escaped_text_holds_no_tag(s: Seq<char>)
    ensures
        forall|i: int| 0 <= i < escaped(s).len() ==> #[trigger] escaped(s)[i] != '<' && escaped(s)[i]
            != '>',
    decreases s.len(),
{
    if s.len() > 0 {
        law_escaped_text_holds_no_tag(s.drop_first());
        reveal_strlit("&amp;");
        reveal_strlit("&lt;");
        reveal_strlit("&gt;");
        reveal_strlit("&quot;");
        reveal_strlit("&apos;");
        let head = escaped_char(s[0]);
        let rest = escaped(s.drop_first());
        assert forall|i: int| 0 <= i < escaped(s).len() implies #[trigger] escaped(s)[i] != '<'
            && escaped(s)[i] != '>' by {
            if i < head.len() {
                assert(escaped(s)[i] == head[i]);
            } else {
                assert(escaped(s)[i] == rest[i - head.len()]);
            }
        }
    }
}

/// The people under a key are written one behind the other, each with the name in a dictionary of
/// its own, and nothing is written where there is nobody.
pub proof fn law_people_are_written_one_by_one(
    key: Seq<char>,
    a: Seq<PersonView>,
    b: Seq<PersonView>,
    p: PersonView,
)
    ensures
        entries(a + b) == entries(a) + entries(b),
        entries(seq![p]) == "\t\t<dict>\n\t\t\t<key>name</key>\n\t\t\t<string>"@ + escaped(
            p.name,
        ) + "</string>\n\t\t</dict>\n"@,
        a.len() > 0 ==> person_array(key, a) == "\t<key>"@ + key + "</key>\n\t<array>\n"@ + entries(a)
            + "\t</array>\n"@,
        a.len() == 0 ==> person_array(key, a).len() == 0,
    decreases a.len(),
{
    let one = seq![p];
    assert(one.drop_first() =~= Seq::<PersonView>::empty());
    assert(entries(one.drop_first()) =~= Seq::<char>::empty());
    assert(entries(one) =~= entry_open() + escaped(p.name) + entry_close());
    if a.len() == 0 {
        assert(a + b =~= b);
        assert(entries(a) + entries(b) =~= entries(b));
    } else {
        law_people_are_written_one_by_one(key, a.drop_first(), b, p);
        assert((a + b).drop_first() =~= a.drop_first() + b);
        assert(entries(a + b) =~= entries(a) + entries(b));
    }
}

/// The list is a property list: a header, the people under their keys, the studio, and the end.
pub proof fn law_list_is_a_property_list(m: MetadataView)
    ensures
        people_list(m) == "<?xml version=\"1.0\" encoding=\"UTF-8\"?>\n<!DOCTYPE plist PUBLIC \"-//Apple//DTD PLIST 1.0//EN\" \"http://www.apple.com/DTDs/PropertyList-1.0.dtd\">\n<plist version=\"1.0\">\n<dict>\n"@
            + person_array("cast"@, m.cast) + person_array("directors"@, m.directors)
            + person_array("producers"@, m.producers) + person_array("screenwriters"@, m.writers)
            + studio_entry(m.studio) + "</dict>\n</plist>\n"@,
        m.studio matches Some(name) ==> studio_entry(m.studio)
            == "\t<key>studio</key>\n\t<string>"@ + escaped(name) + "</string>\n"@,
        m.studio is None ==> studio_entry(m.studio).len() == 0,
{
    let a = person_array("cast"@, m.cast);
    let b = person_array("directors"@, m.directors);
    let c = person_array("producers"@, m.producers);
    let d = person_array("screenwriters"@, m.writers);
    let e = studio_entry(m.studio);
    assert(people_list(m) =~= list_open() + a + b + c + d + e + list_close());
}

/// People are tidied one by one: someone whose name is blank is left out, and everyone else keeps
/// the name without the white space around it, and no role.
pub proof fn law_people_are_tidied_one_by_one(
    a: Seq<PersonView>,
    b: Seq<PersonView>,
    p: PersonView,
)
    ensures
        tidy(a + b) == tidy(a) + tidy(b),
        has_solid(p.name) ==> tidy(seq![p]) == seq![
            PersonView { name: trimmed(p.name), role: None },
        ],
        !has_solid(p.name) ==> tidy(seq![p]).len() == 0,
    decreases a.len(),
{
    let one = seq![p];
    law_trim_cuts_white_space_only(p.name);
    assert(one.drop_first() =~= Seq::<PersonView>::empty());
    assert(tidy(one.drop_first()) =~= Seq::<PersonView>::empty());
    assert(has_solid(p.name) ==> tidy(one) =~= seq![
        PersonView { name: trimmed(p.name), role: None },
    ]);
    if a.len() == 0 {
        assert(a + b =~= b);
        assert(tidy(a) + tidy(b) =~= tidy(b));
    } else {
        law_people_are_tidied_one_by_one(a.drop_first(), b, p);
        assert((a + b).drop_first() =~= a.drop_first() + b);
        assert(tidy(a + b) =~= tidy(a) + tidy(b));
    }
}

/// A list is written exactly where there is someone in it or a studio.
pub proof fn law_empty_list_is_not_written(m: MetadataView)
    ensures
        !nobody(m) == (m.cast.len() + m.directors.len() + m.producers.len() + m.writers.len() > 0
            || m.studio is Some),
{
}

} // verus!
