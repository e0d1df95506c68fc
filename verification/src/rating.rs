//! Content ratings: the labels to choose from, and how iTunes writes them.

use crate::text::{
    begins, decimal, has_solid, is_digit, is_white, law_trim_cuts_white_space_only,
    lemma_decimal_value, pieces, split, split_from, str_eq, trim, trimmed, unsigned_value,
};
use vstd::prelude::*;

verus! {

/// A rating: the system it belongs to, its label, and its score in that system.
pub struct Rating {
    pub system: &'static str,
    pub label: &'static str,
    pub score: &'static str,
}

/// A rating, as text.
pub struct RatingView {
    pub system: Seq<char>,
    pub label: Seq<char>,
    pub score: Seq<char>,
}

impl DeepView for Rating {
    type V = RatingView;

    open spec fn deep_view(&self) -> RatingView {
        RatingView { system: self.system@, label: self.label@, score: self.score@ }
    }
}

/// A rating of the movie system.
pub open spec fn mpaa(label: Seq<char>, score: Seq<char>) -> RatingView {
    RatingView { system: "mpaa"@, label, score }
}

/// A rating of the television system.
pub open spec fn us_tv(label: Seq<char>, score: Seq<char>) -> RatingView {
    RatingView { system: "us-tv"@, label, score }
}

/// The ratings that are known: those for movies, then those for television.
pub open spec fn ratings() -> Seq<RatingView> {
    seq![
        mpaa("G"@, "100"@),
        mpaa("PG"@, "200"@),
        mpaa("PG-13"@, "300"@),
        mpaa("R"@, "400"@),
        mpaa("NC-17"@, "500"@),
        mpaa("Not Rated"@, "0"@),
        mpaa("Unrated"@, "0"@),
        us_tv("TV-Y"@, "100"@),
        us_tv("TV-Y7"@, "200"@),
        us_tv("TV-G"@, "300"@),
        us_tv("TV-PG"@, "400"@),
        us_tv("TV-14"@, "500"@),
        us_tv("TV-MA"@, "600"@),
    ]
}

/// The index of the first rating from `i` on with this label.
pub open spec fn rating_from(label: Seq<char>, i: int) -> Option<int>
    decreases ratings().len() - i,
{
    if i < 0 || i >= ratings().len() {
        None
    } else if ratings()[i].label == label {
        Some(i)
    } else {
        rating_from(label, i + 1)
    }
}

/// The index of the rating with this label.
pub open spec fn rating_named(label: Seq<char>) -> Option<int> {
    rating_from(label, 0)
}

/// How iTunes writes a rating: system, label and score, each with a bar behind it.
pub open spec fn written(r: RatingView) -> Seq<char> {
    r.system + "|"@ + r.label + "|"@ + r.score + "|"@
}

/// What is written for a label; nothing for one that is not known.
pub open spec fn encoded(rating: Seq<char>) -> Option<Seq<char>> {
    match rating_named(trimmed(rating)) {
        Some(i) => Some(written(ratings()[i])),
        None => None,
    }
}

/// The label in a written rating: what stands behind the first bar, or all of it where that is
/// blank; nothing where it is all blank.
pub open spec fn decoded(raw: Seq<char>) -> Option<Seq<char>> {
    let text = trimmed(raw);
    let parts = pieces(text, '|');
    if text.len() == 0 {
        None
    } else if parts.len() >= 2 && trimmed(parts[1]).len() > 0 {
        Some(trimmed(parts[1]))
    } else {
        Some(text)
    }
}

/// The ratings that are known.
pub fn rating_table() -> (r: Vec<Rating>)
    ensures
        r.deep_view() == ratings(),
{
    let mut v: Vec<Rating> = Vec::new();
    v.push(Rating { system: "mpaa", label: "G", score: "100" });
    v.push(Rating { system: "mpaa", label: "PG", score: "200" });
    v.push(Rating { system: "mpaa", label: "PG-13", score: "300" });
    v.push(Rating { system: "mpaa", label: "R", score: "400" });
    v.push(Rating { system: "mpaa", label: "NC-17", score: "500" });
    v.push(Rating { system: "mpaa", label: "Not Rated", score: "0" });
    v.push(Rating { system: "mpaa", label: "Unrated", score: "0" });
    v.push(Rating { system: "us-tv", label: "TV-Y", score: "100" });
    v.push(Rating { system: "us-tv", label: "TV-Y7", score: "200" });
    v.push(Rating { system: "us-tv", label: "TV-G", score: "300" });
    v.push(Rating { system: "us-tv", label: "TV-PG", score: "400" });
    v.push(Rating { system: "us-tv", label: "TV-14", score: "500" });
    v.push(Rating { system: "us-tv", label: "TV-MA", score: "600" });
    assert(v.deep_view() =~= ratings());
    v
}

/// The index of the rating with this label.
fn find_rating(table: &Vec<Rating>, label: &str) -> (r: Option<usize>)
    requires
        table.deep_view() == ratings(),
    ensures
        r matches Some(i) ==> i < ratings().len() && rating_named(label@) == Some(i as int),
        r is None ==> rating_named(label@) is None,
{
    let mut i: usize = 0;
    assert(table@.len() == ratings().len());
    while i < table.len()
        invariant
            i <= table@.len(),
            table.deep_view() == ratings(),
            table@.len() == ratings().len(),
            rating_named(label@) == rating_from(label@, i as int),
        decreases table@.len() - i,
    {
        assert(ratings()[i as int] == table@[i as int].deep_view());
        if str_eq(table[i].label, label) {
            return Some(i);
        }
        i += 1;
    }
    None
}

/// What iTunes writes for a rating that is given by its label, such as `mpaa|PG-13|300|`; none for
/// a label that is not known.
pub fn encode_itunextc(rating: &str) -> (r: Option<String>)
    ensures
        r.deep_view() == encoded(rating@),
{
    let label = trim(rating);
    let table = rating_table();
    match find_rating(&table, label.as_str()) {
        Some(i) => {
            assert(ratings()[i as int] == table@[i as int].deep_view());
            let out = table[i].system.to_string().concat("|").concat(table[i].label).concat(
                "|",
            ).concat(table[i].score).concat("|");
            Some(out)
        },
        None => None,
    }
}

/// The label in what iTunes wrote for a rating.
pub fn decode_itunextc(raw: &str) -> (r: Option<String>)
    ensures
        r.deep_view() == decoded(raw@),
{
    let text = trim(raw);
    if text.as_str().is_empty() {
        return None;
    }
    let parts = split(text.as_str(), '|');
    assert(parts.deep_view().len() == parts@.len());
    if parts.len() >= 2 {
        assert(parts.deep_view()[1] == parts@[1]@);
        let label = trim(parts[1].as_str());
        if !label.as_str().is_empty() {
            return Some(label);
        }
    }
    Some(text)
}

/// The labels that are known, in order.
pub open spec fn labels() -> Seq<Seq<char>> {
    ratings().map_values(|r: RatingView| r.label)
}

/// The labels that are known, in order.
pub fn content_ratings() -> (r: Vec<String>)
    ensures
        r.deep_view() == labels(),
{
    let table = rating_table();
    let mut out: Vec<String> = Vec::new();
    let mut i: usize = 0;
    while i < table.len()
        invariant
            i <= table@.len(),
            table.deep_view() == ratings(),
            table@.len() == ratings().len(),
            out.deep_view() == labels().take(i as int),
        decreases table@.len() - i,
    {
        let ghost before = out.deep_view();
        assert(ratings()[i as int] == table@[i as int].deep_view());
        out.push(table[i].label.to_string());
        assert(out.deep_view() =~= before.push(labels()[i as int]));
        assert(labels().take(i + 1) =~= labels().take(i as int).push(labels()[i as int]));
        i += 1;
    }
    assert(labels().take(labels().len() as int) =~= labels());
    out
}

/// Whether a label, apart from white space around it, is known.
pub fn is_valid_content_rating(rating: &str) -> (r: bool)
    ensures
        r == (rating_named(trimmed(rating@)) is Some),
{
    let label = trim(rating);
    let table = rating_table();
    find_rating(&table, label.as_str()).is_some()
}

/// The entries of the rating menu: none, then every label.
pub open spec fn rating_menu() -> Seq<Seq<char>> {
    seq!["(none)"@] + labels()
}

/// The entries of the rating menu: none, then every label.
pub fn rating_options() -> (r: Vec<String>)
    ensures
        r.deep_view() == rating_menu(),
{
    let mut out: Vec<String> = Vec::new();
    out.push("(none)".to_string());
    let mut rest = content_ratings();
    let ghost tail = rest.deep_view();
    out.append(&mut rest);
    assert(out.deep_view() =~= seq!["(none)"@] + tail);
    out
}

/// The label at an index of the rating menu; empty for none.
pub open spec fn rating_at(i: int) -> Seq<char> {
    if 1 <= i < rating_menu().len() {
        rating_menu()[i]
    } else {
        Seq::empty()
    }
}

/// The index of a label in the rating menu; that of none where it is blank or not known.
pub open spec fn rating_place(label: Seq<char>) -> int {
    if trimmed(label).len() == 0 {
        0
    } else {
        match rating_named(label) {
            Some(i) => i + 1,
            None => 0,
        }
    }
}

/// The label at an index of the rating menu; empty for none.
pub fn index_to_rating(i: i32) -> (r: String)
    ensures
        r@ == rating_at(i as int),
{
    let menu = rating_options();
    assert(menu@.len() == rating_menu().len());
    if i <= 0 || i as usize >= menu.len() {
        String::new()
    } else {
        assert(rating_menu()[i as int] == menu@[i as int]@);
        menu[i as usize].clone()
    }
}

/// The index of a label in the rating menu; that of none where it is blank or not known.
pub fn rating_to_index(label: &str) -> (r: i32)
    ensures
        r == rating_place(label@),
{
    let text = trim(label);
    if text.as_str().is_empty() {
        return 0;
    }
    let table = rating_table();
    match find_rating(&table, label) {
        Some(i) => i as i32 + 1,
        None => 0,
    }
}

// ---------------------------------------------------------------------------
// Laws
// ---------------------------------------------------------------------------

/// Whether `s` holds no bar from `i` on.
spec fn barless_from(s: Seq<char>, i: int) -> bool
    decreases s.len() - i,
{
    i >= s.len() || (s[i] != '|' && barless_from(s, i + 1))
}

/// Whether `s` is not empty, holds no bar, and neither begins nor ends with white space.
spec fn clean(s: Seq<char>) -> bool {
    s.len() > 0 && !is_white(s[0]) && !is_white(s.last()) && barless_from(s, 0)
}

proof fn lemma_clean_trimmed(s: Seq<char>)
    requires
        s.len() > 0,
        !is_white(s[0]),
        !is_white(s.last()),
    ensures
        trimmed(s) == s,
{
}

proof fn lemma_barless(s: Seq<char>, i: int, k: int)
    requires
        barless_from(s, i),
        0 <= i <= k < s.len(),
    ensures
        s[k] != '|',
    decreases s.len() - i,
{
    if i < k {
        lemma_barless(s, i + 1, k);
    }
}

/// Splitting reads up to the first bar.
proof fn lemma_split_first(a: Seq<char>, rest: Seq<char>, w: Seq<char>)
    requires
        forall|i: int| 0 <= i < a.len() ==> a[i] != '|',
    ensures
        split_from(a + "|"@ + rest, '|', w) == seq![w + a] + split_from(rest, '|', Seq::empty()),
    decreases a.len(),
{
    reveal_strlit("|");
    let s = a + "|"@ + rest;
    if a.len() == 0 {
        assert(s[0] == '|');
        assert(s.drop_first() =~= rest);
        assert(w + a =~= w);
    } else {
        assert(s[0] == a[0]);
        assert(s.drop_first() =~= a.drop_first() + "|"@ + rest);
        lemma_split_first(a.drop_first(), rest, w.push(a[0]));
        assert(w.push(a[0]) + a.drop_first() =~= w + a);
    }
}

/// Every known rating is clean text.
proof fn lemma_ratings_clean(i: int)
    requires
        0 <= i < ratings().len(),
    ensures
        clean(ratings()[i].label),
        clean(ratings()[i].system),
{
    reveal_strlit("mpaa");
    reveal_strlit("us-tv");
    reveal_strlit("G");
    reveal_strlit("PG");
    reveal_strlit("PG-13");
    reveal_strlit("R");
    reveal_strlit("NC-17");
    reveal_strlit("Not Rated");
    reveal_strlit("Unrated");
    reveal_strlit("TV-Y");
    reveal_strlit("TV-Y7");
    reveal_strlit("TV-G");
    reveal_strlit("TV-PG");
    reveal_strlit("TV-14");
    reveal_strlit("TV-MA");
    reveal_with_fuel(barless_from, 10);
    assert(clean("mpaa"@) && clean("us-tv"@));
    assert(clean("G"@) && clean("PG"@) && clean("PG-13"@) && clean("R"@) && clean("NC-17"@));
    assert(clean("Not Rated"@) && clean("Unrated"@));
    assert(clean("TV-Y"@) && clean("TV-Y7"@) && clean("TV-G"@) && clean("TV-PG"@) && clean(
        "TV-14"@,
    ) && clean("TV-MA"@));
}

/// A written rating reads back as its label.
pub proof fn law_rating_round_trip(rating: Seq<char>)
    ensures
        encoded(rating) matches Some(text) ==> decoded(text) == Some(trimmed(rating)),
{
    lemma_rating_from(trimmed(rating), 0);
    if let Some(i) = rating_named(trimmed(rating)) {
        let r = ratings()[i];
        let text = written(r);
        lemma_ratings_clean(i);
        reveal_strlit("|");
        assert(text.last() == '|');
        assert(text[0] == r.system[0]);
        lemma_clean_trimmed(text);
        assert forall|k: int| 0 <= k < r.system.len() implies r.system[k] != '|' by {
            lemma_barless(r.system, 0, k);
        }
        assert forall|k: int| 0 <= k < r.label.len() implies r.label[k] != '|' by {
            lemma_barless(r.label, 0, k);
        }
        let tail = r.score + "|"@;
        assert(text =~= r.system + "|"@ + (r.label + "|"@ + tail));
        let none = Seq::<char>::empty();
        lemma_split_first(r.system, r.label + "|"@ + tail, none);
        lemma_split_first(r.label, tail, none);
        assert(none + r.label =~= r.label);
        assert(pieces(text, '|')[1] == r.label);
        lemma_clean_trimmed(r.label);
    }
}

proof fn lemma_rating_from(label: Seq<char>, i: int)
    requires
        0 <= i,
    ensures
        match rating_from(label, i) {
            Some(k) => i <= k < ratings().len() && ratings()[k].label == label && forall|j: int|
                i <= j < k ==> (#[trigger] ratings()[j]).label != label,
            None => forall|j: int|
                i <= j < ratings().len() ==> (#[trigger] ratings()[j]).label != label,
        },
    decreases ratings().len() - i,
{
    if i < ratings().len() && ratings()[i].label != label {
        lemma_rating_from(label, i + 1);
    }
}

/// A known label is not blank, and has no white space around it.
pub proof fn lemma_known_is_not_blank(label: Seq<char>)
    requires
        rating_named(label) is Some,
    ensures
        label.len() > 0,
        trimmed(label) == label,
{
    lemma_rating_from(label, 0);
    lemma_ratings_clean(rating_named(label).unwrap());
    lemma_clean_trimmed(label);
}

/// No two ratings share a label.
proof fn lemma_labels_differ(i: int, j: int)
    requires
        0 <= i < j < ratings().len(),
    ensures
        ratings()[i].label != ratings()[j].label,
{
    reveal_strlit("G");
    reveal_strlit("PG");
    reveal_strlit("PG-13");
    reveal_strlit("R");
    reveal_strlit("NC-17");
    reveal_strlit("Not Rated");
    reveal_strlit("Unrated");
    reveal_strlit("TV-Y");
    reveal_strlit("TV-Y7");
    reveal_strlit("TV-G");
    reveal_strlit("TV-PG");
    reveal_strlit("TV-14");
    reveal_strlit("TV-MA");
    let a = ratings()[i].label;
    let b = ratings()[j].label;
    if a == b {
        assert(a.len() == b.len());
        if a.len() == 1 {
            assert(a[0] == b[0]);
        } else if a.len() == 4 {
            assert(a[3] == b[3]);
        } else if a.len() == 5 {
            assert(a[0] == b[0] && a[3] == b[3]);
        }
    }
}

/// The rating menu and its indices are inverse to each other: every entry but the first is found
/// at its own index, and every known label is at the index that is given for it.
pub proof fn law_rating_index_round_trip(i: int, label: Seq<char>)
    ensures
        1 <= i < rating_menu().len() ==> rating_place(rating_at(i)) == i,
        rating_named(label) is Some ==> rating_place(label) >= 1 && rating_at(rating_place(label))
            == label,
{
    if 1 <= i < rating_menu().len() {
        let l = ratings()[i - 1].label;
        assert(rating_at(i) == l);
        lemma_ratings_clean(i - 1);
        lemma_clean_trimmed(l);
        lemma_rating_from(l, 0);
        let k = rating_named(l).unwrap();
        if k < i - 1 {
            lemma_labels_differ(k, i - 1);
        } else if k > i - 1 {
            lemma_labels_differ(i - 1, k);
        }
    }
    lemma_rating_from(label, 0);
    if let Some(k) = rating_named(label) {
        lemma_ratings_clean(k);
        lemma_clean_trimmed(label);
    }
}

/// The grades of the movie system, the mildest first.
pub open spec fn movie_grades() -> Seq<Seq<char>> {
    seq!["G"@, "PG"@, "PG-13"@, "R"@, "NC-17"@]
}

/// The grades of the television system, the mildest first.
pub open spec fn television_grades() -> Seq<Seq<char>> {
    seq!["TV-Y"@, "TV-Y7"@, "TV-G"@, "TV-PG"@, "TV-14"@, "TV-MA"@]
}

/// The labels of what has no grade.
pub open spec fn ungraded() -> Seq<Seq<char>> {
    seq!["Not Rated"@, "Unrated"@]
}

/// The number that stands between the last two bars of a written rating.
pub open spec fn score_in(text: Seq<char>) -> Option<nat> {
    let parts = pieces(text, '|');
    if parts.len() == 4 {
        unsigned_value(parts[2], u32::MAX as nat)
    } else {
        None
    }
}

proof fn lemma_hundreds()
    ensures
        decimal(0) == "0"@,
        decimal(100) == "100"@,
        decimal(200) == "200"@,
        decimal(300) == "300"@,
        decimal(400) == "400"@,
        decimal(500) == "500"@,
        decimal(600) == "600"@,
{
    reveal_strlit("0");
    reveal_strlit("100");
    reveal_strlit("200");
    reveal_strlit("300");
    reveal_strlit("400");
    reveal_strlit("500");
    reveal_strlit("600");
    reveal_with_fuel(decimal, 4);
    assert(decimal(0) =~= "0"@);
    assert(decimal(100) =~= "100"@);
    assert(decimal(200) =~= "200"@);
    assert(decimal(300) =~= "300"@);
    assert(decimal(400) =~= "400"@);
    assert(decimal(500) =~= "500"@);
    assert(decimal(600) =~= "600"@);
}

/// What is written for the rating at an index, and for its label.
proof fn lemma_encoded_at(k: int)
    requires
        0 <= k < ratings().len(),
    ensures
        rating_named(ratings()[k].label) == Some(k),
        encoded(ratings()[k].label) == Some(written(ratings()[k])),
{
    let l = ratings()[k].label;
    lemma_ratings_clean(k);
    lemma_clean_trimmed(l);
    lemma_rating_from(l, 0);
    let x = rating_named(l).unwrap();
    if x < k {
        lemma_labels_differ(x, k);
    } else if x > k {
        lemma_labels_differ(k, x);
    }
}

/// Every grade is written in its own system, with a score of a hundred for each step of it: movies
/// as `mpaa`, from `G` up, television as `us-tv`, from `TV-Y` up. What has no grade is written with
/// the movies, at nothing.
pub proof fn law_grades_are_written_by_system(i: int)
    ensures
        0 <= i < 5 ==> encoded(movie_grades()[i]) == Some(
            "mpaa|"@ + movie_grades()[i] + "|"@ + decimal((100 * (i + 1)) as nat) + "|"@,
        ),
        0 <= i < 6 ==> encoded(television_grades()[i]) == Some(
            "us-tv|"@ + television_grades()[i] + "|"@ + decimal((100 * (i + 1)) as nat) + "|"@,
        ),
        0 <= i < 2 ==> encoded(ungraded()[i]) == Some(
            "mpaa|"@ + ungraded()[i] + "|"@ + decimal(0) + "|"@,
        ),
{
    lemma_hundreds();
    reveal_strlit("mpaa|");
    reveal_strlit("us-tv|");
    reveal_strlit("mpaa");
    reveal_strlit("us-tv");
    reveal_strlit("|");
    assert("mpaa|"@ =~= "mpaa"@ + "|"@);
    assert("us-tv|"@ =~= "us-tv"@ + "|"@);
    if 0 <= i < 5 {
        lemma_encoded_at(i);
    }
    if 0 <= i < 6 {
        lemma_encoded_at(i + 7);
    }
    if 0 <= i < 2 {
        lemma_encoded_at(i + 5);
    }
}

/// Nothing is written for any other label; white space around a label makes no difference.
pub proof fn law_no_other_rating_is_written(rating: Seq<char>)
    ensures
        encoded(rating) is Some <==> movie_grades().contains(trimmed(rating))
            || television_grades().contains(trimmed(rating)) || ungraded().contains(
            trimmed(rating),
        ),
        encoded(trimmed(rating)) == encoded(rating),
{
    let l = trimmed(rating);
    crate::text::law_trim_is_idempotent(rating);
    lemma_rating_from(l, 0);
    if let Some(k) = rating_named(l) {
        if k < 5 {
            assert(movie_grades()[k] == l);
        } else if k < 7 {
            assert(ungraded()[k - 5] == l);
        } else {
            assert(television_grades()[k - 7] == l);
        }
    }
    if movie_grades().contains(l) {
        let i = choose|i: int| 0 <= i < 5 && movie_grades()[i] == l;
        lemma_encoded_at(i);
    }
    if television_grades().contains(l) {
        let i = choose|i: int| 0 <= i < 6 && television_grades()[i] == l;
        lemma_encoded_at(i + 7);
    }
    if ungraded().contains(l) {
        let i = choose|i: int| 0 <= i < 2 && ungraded()[i] == l;
        lemma_encoded_at(i + 5);
    }
}

/// Labels of television begin with `TV-` and are written in the television system; all others are
/// written in the movie system.
pub proof fn law_system_follows_the_label(rating: Seq<char>)
    ensures
        encoded(rating) matches Some(text) ==> if begins(trimmed(rating), "TV-"@) {
            begins(text, "us-tv|"@)
        } else {
            begins(text, "mpaa|"@)
        },
{
    let l = trimmed(rating);
    lemma_rating_from(l, 0);
    if let Some(k) = rating_named(l) {
        reveal_strlit("TV-");
        reveal_strlit("us-tv|");
        reveal_strlit("mpaa|");
        reveal_strlit("mpaa");
        reveal_strlit("us-tv");
        reveal_strlit("|");
        reveal_strlit("G");
        reveal_strlit("PG");
        reveal_strlit("PG-13");
        reveal_strlit("R");
        reveal_strlit("NC-17");
        reveal_strlit("Not Rated");
        reveal_strlit("Unrated");
        reveal_strlit("TV-Y");
        reveal_strlit("TV-Y7");
        reveal_strlit("TV-G");
        reveal_strlit("TV-PG");
        reveal_strlit("TV-14");
        reveal_strlit("TV-MA");
        let text = written(ratings()[k]);
        if k < 7 {
            assert(text.subrange(0, 5) =~= "mpaa|"@);
            assert(!begins(l, "TV-"@)) by {
                if begins(l, "TV-"@) {
                    assert(l.subrange(0, 3)[0] == 'T');
                    assert(l[0] == 'T');
                }
            }
        } else {
            assert(text.subrange(0, 6) =~= "us-tv|"@);
            assert(l.subrange(0, 3) =~= "TV-"@);
        }
    }
}

/// The scores of the grades rise strictly within each system.
pub proof fn law_scores_rise(i: int, j: int)
    requires
        0 <= i < j,
    ensures
        j < 5 ==> score_of(movie_grades()[i]) < score_of(movie_grades()[j]),
        j < 6 ==> score_of(television_grades()[i]) < score_of(television_grades()[j]),
{
    if j < 5 {
        lemma_score(movie_grades()[i], i);
        lemma_score(movie_grades()[j], j);
    }
    if j < 6 {
        lemma_score(television_grades()[i], i);
        lemma_score(television_grades()[j], j);
    }
}

/// The score that is written for a label; 0 where none is.
pub open spec fn score_of(label: Seq<char>) -> nat {
    match encoded(label) {
        Some(text) => match score_in(text) {
            Some(n) => n,
            None => 0,
        },
        None => 0,
    }
}

proof fn lemma_score(label: Seq<char>, i: int)
    requires
        0 <= i < 5 && movie_grades()[i] == label || 0 <= i < 6 && television_grades()[i] == label,
    ensures
        score_of(label) == 100 * (i + 1),
{
    law_grades_are_written_by_system(i);
    lemma_hundreds();
    reveal_strlit("|");
    let k = if 0 <= i < 5 && movie_grades()[i] == label {
        i
    } else {
        i + 7
    };
    lemma_encoded_at(k);
    let r = ratings()[k];
    assert(r.score == decimal((100 * (i + 1)) as nat));
    lemma_decimal_value((100 * (i + 1)) as nat);
    lemma_ratings_clean(k);
    let text = written(r);
    let none = Seq::<char>::empty();
    assert forall|x: int| 0 <= x < r.system.len() implies r.system[x] != '|' by {
        lemma_barless(r.system, 0, x);
    }
    assert forall|x: int| 0 <= x < r.label.len() implies r.label[x] != '|' by {
        lemma_barless(r.label, 0, x);
    }
    assert forall|x: int| 0 <= x < r.score.len() implies r.score[x] != '|' by {
        assert(is_digit(r.score[x]));
    }
    assert(text =~= r.system + "|"@ + (r.label + "|"@ + (r.score + "|"@ + none)));
    lemma_split_first(r.system, r.label + "|"@ + (r.score + "|"@ + none), none);
    lemma_split_first(r.label, r.score + "|"@ + none, none);
    lemma_split_first(r.score, none, none);
    assert(split_from(none, '|', none) =~= seq![none]);
    assert(none + r.score =~= r.score);
    assert(pieces(text, '|').len() == 4);
    assert(pieces(text, '|')[2] == r.score);
    assert(r.score[0] != '+') by {
        assert(is_digit(r.score[0]));
    }
}

/// The menu of ratings begins with an entry for none. The grades of movies come next, behind them
/// what is not graded, and behind them the grades of television, each in rising order.
pub proof fn law_menu_lists_movies_before_television(i: int)
    ensures
        rating_menu().len() == 14,
        rating_menu()[0] == "(none)"@,
        rating_at(0).len() == 0,
        0 <= i < 5 ==> rating_at(i + 1) == movie_grades()[i],
        0 <= i < 2 ==> rating_at(i + 6) == ungraded()[i],
        0 <= i < 6 ==> rating_at(i + 8) == television_grades()[i],
        i < 1 || i > 13 ==> rating_at(i).len() == 0,
{
}

/// What is read from a rating atom is what stands between its first two bars, without the white
/// space around it, or all of the text where nothing stands there; and nothing only where the text
/// is blank.
pub proof fn law_rating_is_read_from_between_the_bars(
    system: Seq<char>,
    label: Seq<char>,
    rest: Seq<char>,
)
    requires
        !system.contains('|'),
        !label.contains('|'),
        has_solid(label),
        system.len() > 0 ==> !is_white(system[0]),
    ensures
        decoded(system + seq!['|'] + label + seq!['|'] + rest) == Some(trimmed(label)),
        forall|raw: Seq<char>| (#[trigger] decoded(raw) is None) == !has_solid(raw),
{
    let raw = system + seq!['|'] + label + seq!['|'] + rest;
    assert forall|raw: Seq<char>| (#[trigger] decoded(raw) is None) == !has_solid(raw) by {
        law_trim_cuts_white_space_only(raw);
    }
    law_trim_cuts_white_space_only(raw);
    let (i, j) = choose|i: int, j: int|
        0 <= i <= j <= raw.len() && trimmed(raw) == #[trigger] raw.subrange(i, j) && (forall|k: int|
            0 <= k < raw.len() && !(i <= k < j) ==> is_white(#[trigger] raw[k])) && (i < j
            ==> !is_white(raw[i]) && !is_white(raw[j - 1]));
    let bar = (system.len() + 1 + label.len()) as int;
    assert(raw[bar] == '|');
    assert(!is_white('|'));
    if system.len() > 0 {
        assert(raw[0] == system[0]);
    } else {
        assert(raw[0] == '|');
    }
    assert(i == 0);
    assert(bar < j);
    let tail = raw.subrange(bar + 1, j);
    assert(trimmed(raw) =~= system + seq!['|'] + (label + seq!['|'] + tail));
    lemma_second_piece(system, label, tail);
    law_trim_cuts_white_space_only(label);
}

proof fn lemma_split_past(w: Seq<char>, s: Seq<char>, rest: Seq<char>)
    requires
        !s.contains('|'),
    ensures
        split_from(s + seq!['|'] + rest, '|', w) == seq![w + s] + split_from(
            rest,
            '|',
            Seq::empty(),
        ),
    decreases s.len(),
{
    let all = s + seq!['|'] + rest;
    if s.len() == 0 {
        assert(all[0] == '|');
        assert(all.drop_first() =~= rest);
        assert(w + s =~= w);
    } else {
        assert(s[0] != '|') by {
            if s[0] == '|' {
                assert(s.contains('|'));
            }
        }
        let less = s.drop_first();
        assert(!less.contains('|')) by {
            if less.contains('|') {
                let i = choose|i: int| 0 <= i < less.len() && less[i] == '|';
                assert(s[i + 1] == '|');
            }
        }
        lemma_split_past(w.push(s[0]), less, rest);
        assert(all.drop_first() =~= less + seq!['|'] + rest);
        assert(all[0] == s[0]);
        assert(w.push(s[0]) + less =~= w + s);
    }
}

proof fn lemma_second_piece(system: Seq<char>, label: Seq<char>, tail: Seq<char>)
    requires
        !system.contains('|'),
        !label.contains('|'),
    ensures
        ({
            let parts = pieces(system + seq!['|'] + (label + seq!['|'] + tail), '|');
            parts.len() >= 2 && parts[1] == label
        }),
{
    let none = Seq::<char>::empty();
    lemma_split_past(none, system, label + seq!['|'] + tail);
    lemma_split_past(none, label, tail);
    assert(none + label =~= label);
}

} // verus!
