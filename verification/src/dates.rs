//! Calendar dates, as chrono knows them.

use crate::model::Date;
use crate::text::{
    all_digits, chars_of, decimal, digit, digits_value, is_digit, lemma_decimal_value, parse_i32,
    signed_value, string_range, two_digits,
};
use chrono::{Datelike, NaiveDate};
use vstd::prelude::*;

verus! {

/// Whether a year has a 29th of February.
pub open spec fn is_leap(year: int) -> bool {
    year % 4 == 0 && (year % 100 != 0 || year % 400 == 0)
}

/// The number of days of a month.
pub open spec fn days_in(year: int, month: int) -> int {
    if month == 2 {
        if is_leap(year) {
            29
        } else {
            28
        }
    } else if month == 4 || month == 6 || month == 9 || month == 11 {
        30
    } else {
        31
    }
}

/// Whether a date exists, in the years that chrono can represent.
pub open spec fn valid_date(d: Date) -> bool {
    &&& -262143 <= d.year <= 262142
    &&& 1 <= d.month <= 12
    &&& 1 <= d.day <= days_in(d.year as int, d.month as int)
}

/// `n` in decimal, in four digits at least.
pub open spec fn four_digits(n: nat) -> Seq<char> {
    if n < 10000 {
        seq![
            digit(n / 1000),
            digit(n / 100 % 10),
            digit(n / 10 % 10),
            digit(n % 10),
        ]
    } else {
        decimal(n)
    }
}

/// A year in four digits; with a sign where it is negative or needs more.
pub open spec fn year_text(year: int) -> Seq<char> {
    if 0 <= year < 10000 {
        four_digits(year as nat)
    } else if year < 0 {
        seq!['-'] + four_digits((-year) as nat)
    } else {
        seq!['+'] + four_digits(year as nat)
    }
}

/// A date as year, month and day with hyphens between.
pub open spec fn iso_text(d: Date) -> Seq<char> {
    year_text(d.year as int) + seq!['-'] + two_digits(d.month as nat) + seq!['-'] + two_digits(
        d.day as nat,
    )
}

/// The date that `NaiveDate::parse_from_str` of chrono reads from `s` as year, month and day with
/// hyphens between, if it reads one.
pub uninterp spec fn read_date(s: Seq<char>) -> Option<Date>;

/// `NaiveDate::from_ymd_opt` of chrono: the date, if there is such a date in the years that chrono
/// can represent.
#[verifier::external_body]
pub(crate) fn from_ymd(year: i32, month: u32, day: u32) -> (r: Option<Date>)
    ensures
        r == (if valid_date(Date { year, month, day }) {
            Some(Date { year, month, day })
        } else {
            None
        }),
{
    NaiveDate::from_ymd_opt(year, month, day).map(
        |d| Date { year: d.year(), month: d.month(), day: d.day() },
    )
}

/// `NaiveDate::format` of chrono with the format `%Y-%m-%d`: the year in four digits, with a sign
/// where it is outside of 0 to 9999, and month and day in two.
#[verifier::external_body]
pub(crate) fn format_date(d: Date) -> (r: String)
    requires
        valid_date(d),
    ensures
        r@ == iso_text(d),
{
    NaiveDate::from_ymd_opt(d.year, d.month, d.day).unwrap().format("%Y-%m-%d").to_string()
}

/// Whether `s` is a date as it is written.
pub open spec fn is_iso(s: Seq<char>) -> bool {
    exists|d: Date| valid_date(d) && #[trigger] iso_text(d) == s
}

/// The date in a text: the one that it was written for, none where it is empty, or else what chrono
/// makes of it.
pub open spec fn date_in(s: Seq<char>) -> Option<Date> {
    if s.len() == 0 {
        None
    } else if is_iso(s) {
        Some(choose|d: Date| valid_date(d) && #[trigger] iso_text(d) == s)
    } else {
        read_date(s)
    }
}

/// `NaiveDate::parse_from_str` of chrono with the format `%Y-%m-%d`. What it reads depends on the
/// text alone; it reads only dates that exist, none in an empty text, and it reads back every date
/// that the same format wrote.
#[verifier::external_body]
pub(crate) fn parse_date_text(s: &str) -> (r: Option<Date>)
    ensures
        r == read_date(s@),
        r matches Some(d) ==> valid_date(d),
        s@.len() == 0 ==> r is None,
        forall|d: Date| valid_date(d) && s@ == #[trigger] iso_text(d) ==> r == Some(d),
{
    NaiveDate::parse_from_str(s, "%Y-%m-%d").ok().map(
        |d| Date { year: d.year(), month: d.month(), day: d.day() },
    )
}

/// The year that the first four characters of `s` stand for.
pub open spec fn leading_year(s: Seq<char>) -> Option<int> {
    if s.len() >= 4 {
        signed_value(s.take(4))
    } else {
        None
    }
}

/// The year that the first four characters of `s` stand for.
pub fn parse_year(s: &str) -> (r: Option<i32>)
    ensures
        r matches Some(y) ==> leading_year(s@) == Some(y as int),
        r is None ==> leading_year(s@) is None,
{
    let v = chars_of(s);
    if v.len() < 4 {
        return None;
    }
    let head = string_range(&v, 0, 4);
    assert(head@ =~= s@.take(4));
    parse_i32(head.as_str())
}

/// The date that `s` gives as year, month and day with hyphens between.
pub fn parse_date(s: &str) -> (r: Option<Date>)
    ensures
        r == date_in(s@),
        r matches Some(d) ==> valid_date(d),
{
    parse_date_text(s)
}

/// Whether a date exists.
pub fn date_exists(d: Date) -> (r: bool)
    ensures
        r == valid_date(d),
{
    from_ymd(d.year, d.month, d.day).is_some()
}

/// The date of a release, from the date that is read in the text and the text itself: the date
/// that was read, else the first of January of the year that the text begins with.
pub open spec fn release_date_of(read: Option<Date>, s: Seq<char>) -> Option<Date> {
    match read {
        Some(d) => Some(d),
        None => match leading_year(s) {
            Some(y) => if -262143 <= y <= 262142 {
                Some(Date { year: y as i32, month: 1, day: 1 })
            } else {
                None
            },
            None => None,
        },
    }
}

/// The date of a release: `read` where there is one, else the first of January of the year that
/// the text begins with.
pub fn release_date(read: Option<Date>, s: &str) -> (r: Option<Date>)
    ensures
        r == release_date_of(read, s@),
        (read matches Some(d) ==> valid_date(d)) ==> (r matches Some(d) ==> valid_date(d)),
{
    match read {
        Some(d) => Some(d),
        None => match parse_year(s) {
            Some(y) => from_ymd(y, 1, 1),
            None => None,
        },
    }
}

/// Four digits stand for the number.
proof fn lemma_four_digits(n: nat)
    ensures
        all_digits(four_digits(n)),
        digits_value(four_digits(n)) == n,
{
    if n < 10000 {
        let s = four_digits(n);
        let s3 = s.drop_last();
        let s2 = s3.drop_last();
        let s1 = s2.drop_last();
        assert(s1.drop_last() =~= Seq::<char>::empty());
        assert(digits_value(s1.drop_last()) == 0);
        assert(digits_value(s1) == n / 1000);
        assert(digits_value(s2) == n / 100);
        assert(digits_value(s3) == n / 10);
    } else {
        lemma_decimal_value(n);
    }
}

/// A year of four digits is written as these, which stand for it.
pub proof fn lemma_year_value(n: nat)
    requires
        n < 10000,
    ensures
        year_text(n as int).len() == 4,
        all_digits(year_text(n as int)),
        digits_value(year_text(n as int)) == n,
{
    lemma_four_digits(n);
}

/// Two digits of a small number.
proof fn lemma_two_digits(n: nat)
    requires
        n < 100,
    ensures
        two_digits(n) == seq![digit(n / 10), digit(n % 10)],
{
    if n >= 10 {
        assert(n / 10 < 10);
        assert(decimal(n / 10) == seq![digit(n / 10)]);
        assert(two_digits(n) =~= seq![digit(n / 10), digit(n % 10)]);
    } else {
        assert(two_digits(n) =~= seq![digit(n / 10), digit(n % 10)]);
    }
}

/// Years are written in different ways.
proof fn lemma_year_text(a: int, b: int)
    requires
        year_text(a) == year_text(b),
    ensures
        a == b,
{
    let x = if a < 0 {
        -a
    } else {
        a
    };
    let y = if b < 0 {
        -b
    } else {
        b
    };
    lemma_four_digits(x as nat);
    lemma_four_digits(y as nat);
    let s = four_digits(x as nat);
    let t = four_digits(y as nat);
    assert(is_digit(s[0]) && is_digit(t[0]));
    assert(a < 0 ==> year_text(a)[0] == '-');
    assert(b < 0 ==> year_text(b)[0] == '-');
    assert(a >= 10000 ==> year_text(a)[0] == '+');
    assert(b >= 10000 ==> year_text(b)[0] == '+');
    if 0 <= a < 10000 {
        assert(s == t);
    } else {
        assert(year_text(a).drop_first() =~= s);
        assert(year_text(b).drop_first() =~= t);
        assert(s == t);
    }
}

/// A written date reads back as it was.
pub proof fn law_date_round_trip(d: Date)
    requires
        valid_date(d),
    ensures
        date_in(iso_text(d)) == Some(d),
{
    let s = iso_text(d);
    let e = choose|e: Date| valid_date(e) && #[trigger] iso_text(e) == s;
    assert(valid_date(e) && iso_text(e) == s);
    lemma_two_digits(d.month as nat);
    lemma_two_digits(d.day as nat);
    lemma_two_digits(e.month as nat);
    lemma_two_digits(e.day as nat);
    let n = s.len() as int;
    assert(s.take(n - 6) =~= year_text(d.year as int));
    assert(s.take(n - 6) =~= year_text(e.year as int));
    lemma_year_text(d.year as int, e.year as int);
    assert(s[n - 1] == digit(d.day as nat % 10) && s[n - 1] == digit(e.day as nat % 10));
    assert(s[n - 2] == digit(d.day as nat / 10) && s[n - 2] == digit(e.day as nat / 10));
    assert(s[n - 4] == digit(d.month as nat % 10) && s[n - 4] == digit(e.month as nat % 10));
    assert(s[n - 5] == digit(d.month as nat / 10) && s[n - 5] == digit(e.month as nat / 10));
    assert(d == e);
}

/// A date with a year of four digits is written as ten characters: the year, the month in two
/// digits and the day in two digits, with hyphens between, and each reads back as its number.
pub proof fn law_date_is_year_month_day(d: Date)
    requires
        valid_date(d),
        0 <= d.year <= 9999,
    ensures
        ({
            let s = iso_text(d);
            &&& s.len() == 10
            &&& s[4] == '-' && s[7] == '-'
            &&& all_digits(s.take(4)) && digits_value(s.take(4)) == d.year
            &&& all_digits(s.subrange(5, 7)) && digits_value(s.subrange(5, 7)) == d.month
            &&& all_digits(s.skip(8)) && digits_value(s.skip(8)) == d.day
        }),
{
    let s = iso_text(d);
    let year = year_text(d.year as int);
    lemma_year_value(d.year as nat);
    lemma_two_digits(d.month as nat);
    lemma_two_digits(d.day as nat);
    lemma_pair_value(d.month as nat);
    lemma_pair_value(d.day as nat);
    assert(s.take(4) =~= year);
    assert(s.subrange(5, 7) =~= two_digits(d.month as nat));
    assert(s.skip(8) =~= two_digits(d.day as nat));
}

/// Two digits stand for the number.
proof fn lemma_pair_value(n: nat)
    requires
        n < 100,
    ensures
        all_digits(two_digits(n)),
        digits_value(two_digits(n)) == n,
{
    lemma_two_digits(n);
    let s = two_digits(n);
    reveal_with_fuel(digits_value, 3);
    assert(s.drop_last() =~= seq![digit(n / 10)]);
    assert(s.drop_last().drop_last() =~= Seq::<char>::empty());
    assert(s.drop_last().last() == digit(n / 10));
}

/// A release has the date that was read in the text. Only where none was read is it the first of
/// January of the year that the first four characters are; a text of fewer characters has none.
pub proof fn law_release_falls_back_to_the_year(read: Option<Date>, s: Seq<char>)
    ensures
        read is Some ==> release_date_of(read, s) == read,
        read is None && s.len() < 4 ==> release_date_of(read, s) is None,
        read is None && s.len() >= 4 && all_digits(s.take(4)) ==> release_date_of(read, s) == Some(
            Date { year: digits_value(s.take(4)) as i32, month: 1, day: 1 },
        ) && digits_value(s.take(4)) <= 9999,
{
    if s.len() >= 4 && all_digits(s.take(4)) {
        let t = s.take(4);
        assert(is_digit(t[0]) && is_digit(t[1]) && is_digit(t[2]) && is_digit(t[3]));
        reveal_with_fuel(digits_value, 5);
        assert(t.drop_last().last() == t[2]);
        assert(t.drop_last().drop_last().last() == t[1]);
        assert(t.drop_last().drop_last().drop_last().last() == t[0]);
    }
}

/// The months have their lengths, and February has a twenty-ninth day in every fourth year, but in
/// those of the centuries only in every fourth of these.
pub proof fn law_calendar(d: Date)
    requires
        -262143 <= d.year <= 262142,
    ensures
        d.month < 1 || d.month > 12 || d.day < 1 || d.day > 31 ==> !valid_date(d),
        d.month == 1 || d.month == 3 || d.month == 5 || d.month == 7 || d.month == 8 || d.month == 10
            || d.month == 12 ==> valid_date(d) == (1 <= d.day <= 31),
        d.month == 4 || d.month == 6 || d.month == 9 || d.month == 11 ==> valid_date(d) == (1 <= d.day
            <= 30),
        d.month == 2 && d.day != 29 ==> valid_date(d) == (1 <= d.day <= 28),
        d.month == 2 && d.day == 29 && d.year % 4 != 0 ==> !valid_date(d),
        d.month == 2 && d.day == 29 && d.year % 400 == 0 ==> valid_date(d),
        d.month == 2 && d.day == 29 && d.year % 100 == 0 && d.year % 400 != 0 ==> !valid_date(d),
        d.month == 2 && d.day == 29 && d.year % 4 == 0 && d.year % 100 != 0 ==> valid_date(d),
{
}

/// A year of more than four digits is written with a plus sign, one before the year zero with a
/// minus sign, and neither is mistaken for another.
pub proof fn law_far_years_have_a_sign(a: int, b: int)
    ensures
        a >= 10000 ==> year_text(a)[0] == '+' && year_text(a).drop_first() == decimal(a as nat),
        -9999 <= a < 0 ==> year_text(a)[0] == '-' && year_text(a).len() == 5,
        year_text(a) == year_text(b) ==> a == b,
{
    if a >= 10000 {
        assert(year_text(a).drop_first() =~= decimal(a as nat));
    }
    if year_text(a) == year_text(b) {
        lemma_year_text(a, b);
    }
}

} // verus!
