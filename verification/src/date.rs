//! Calendar dates: day-first birth dates with four-digit years, and ages.

use vstd::prelude::*;
use crate::text::{digit_char, digit_value, is_white_space, strip_end, strip_start, all_ascii_digits, char_views, chars_of, decimal_value, digits_to_u32, is_ascii_digit, strip_chars, trim};

verus! {

/// A calendar date of the proleptic Gregorian calendar.
#[derive(Clone, Copy, PartialEq, Eq, Structural, Debug)]
pub struct Date {
    pub year: i32,
    pub month: u32,
    pub day: u32,
}

/// The first and last years that chrono's `NaiveDate` represents.
pub open spec fn min_year() -> int {
    -262143
}

pub open spec fn max_year() -> int {
    262142
}

pub open spec fn is_leap_year(y: int) -> bool {
    y % 4 == 0 && (y % 100 != 0 || y % 400 == 0)
}

pub open spec fn days_in_month(y: int, m: int) -> int {
    if m == 2 {
        if is_leap_year(y) {
            29
        } else {
            28
        }
    } else if m == 4 || m == 6 || m == 9 || m == 11 {
        30
    } else {
        31
    }
}

/// `(y, m, d)` names a day that `NaiveDate` represents.
pub open spec fn calendar_date(y: int, m: int, d: int) -> bool {
    &&& min_year() <= y <= max_year()
    &&& 1 <= m <= 12
    &&& 1 <= d <= days_in_month(y, m)
}

/// chrono `NaiveDate::from_ymd_opt(year, month, day).is_some()`: as its
/// documentation states, `None` exactly where the day does not exist, the
/// month or day is invalid, or the year is out of range.
#[verifier::external_body]
fn calendar_date_exists(year: i32, month: u32, day: u32) -> (r: bool)
    ensures
        r == calendar_date(year as int, month as int, day as int),
{
    chrono::NaiveDate::from_ymd_opt(year, month, day).is_some()
}

impl Date {
    pub open spec fn is_calendar_date(self) -> bool {
        calendar_date(self.year as int, self.month as int, self.day as int)
    }

    /// The date `year-month-day`, where that day exists.
    pub fn from_ymd(year: i32, month: u32, day: u32) -> (r: Option<Date>)
        ensures
            r matches Some(d) ==> d == (Date { year, month, day }),
            r is Some <==> calendar_date(year as int, month as int, day as int),
    {
        if calendar_date_exists(year, month, day) {
            Some(Date { year, month, day })
        } else {
            None
        }
    }
}

/// Chronological order: `a` is not after `b`.
pub open spec fn date_le(a: Date, b: Date) -> bool {
    ||| a.year < b.year
    ||| a.year == b.year && a.month < b.month
    ||| a.year == b.year && a.month == b.month && a.day <= b.day
}

pub fn date_not_after(a: &Date, b: &Date) -> (r: bool)
    ensures
        r == date_le(*a, *b),
{
    a.year < b.year || (a.year == b.year && a.month < b.month) || (a.year == b.year && a.month
        == b.month && a.day <= b.day)
}

/// `a`'s month and day come before `b`'s within a year.
pub open spec fn month_day_before(a: Date, b: Date) -> bool {
    a.month < b.month || (a.month == b.month && a.day < b.day)
}

/// Age in completed years on `today` of someone born on `born`.
pub open spec fn age_on(born: Date, today: Date) -> int {
    today.year - born.year - (if month_day_before(today, born) {
        1int
    } else {
        0int
    })
}

/// Age in completed years on `today` of someone born on `born`.
pub fn age(born: Date, today: Date) -> (r: i32)
    requires
        i32::MIN + 1 <= today.year - born.year <= i32::MAX,
    ensures
        r == age_on(born, today),
{
    let before: i32 = if today.month < born.month || (today.month == born.month && today.day
        < born.day) {
        1
    } else {
        0
    };
    today.year - born.year - before
}

/// The separators of a written date: `/`, `.` and `-`.
pub open spec fn is_date_separator(c: char) -> bool {
    c == '/' || c == '.' || c == '-'
}

/// The fields of `s` between date separators (what `str::split` with the three
/// separators gives): one more field than there are separators.
pub open spec fn split_fields(s: Seq<char>) -> Seq<Seq<char>>
    decreases s.len(),
{
    if s.len() == 0 {
        seq![Seq::<char>::empty()]
    } else {
        let p = split_fields(s.drop_last());
        if is_date_separator(s.last()) {
            p.push(Seq::<char>::empty())
        } else {
            p.update(p.len() - 1, p.last().push(s.last()))
        }
    }
}

pub proof fn lemma_split_fields_nonempty(s: Seq<char>)
    ensures
        split_fields(s).len() >= 1,
    decreases s.len(),
{
    if s.len() > 0 {
        lemma_split_fields_nonempty(s.drop_last());
    }
}

/// A field of a date: nonempty, ASCII digits only.
pub open spec fn digit_field(f: Seq<char>) -> bool {
    f.len() > 0 && all_ascii_digits(f)
}

/// The date that a birth-date cell writes: after trimming, day, month and a
/// year of exactly four digits, separated by `/`, `.` or `-`; `None` where
/// the text has another shape, a number does not fit in `u32`, or the day
/// does not exist.
pub open spec fn dob_spec(raw: Seq<char>) -> Option<Date> {
    let parts = split_fields(trim(raw));
    if parts.len() == 3 && parts[2].len() == 4 && digit_field(parts[0]) && digit_field(parts[1])
        && digit_field(parts[2]) {
        let y = decimal_value(parts[2]);
        let m = decimal_value(parts[1]);
        let d = decimal_value(parts[0]);
        if m <= u32::MAX && d <= u32::MAX && calendar_date(y as int, m as int, d as int) {
            Some(Date { year: y as i32, month: m as u32, day: d as u32 })
        } else {
            None
        }
    } else {
        None
    }
}

/// The fields of `v` between date separators.
fn split_date_fields(v: &[char]) -> (r: Vec<Vec<char>>)
    ensures
        char_views(r@) == split_fields(v@),
{
    let mut parts: Vec<Vec<char>> = Vec::new();
    let mut cur: Vec<char> = Vec::new();
    let mut i: usize = 0;
    assert(v@.take(0) =~= Seq::<char>::empty());
    while i < v.len()
        invariant
            i <= v@.len(),
            char_views(parts@).push(cur@) == split_fields(v@.take(i as int)),
        decreases v@.len() - i,
    {
        let c = v[i];
        let ghost before = v@.take(i as int);
        assert(v@.take(i + 1).drop_last() =~= before);
        proof {
            lemma_split_fields_nonempty(before);
        }
        if c == '/' || c == '.' || c == '-' {
            let old_cur = cur;
            parts.push(old_cur);
            cur = Vec::new();
            assert(char_views(parts@).push(cur@) =~= split_fields(before).push(Seq::<char>::empty()));
        } else {
            cur.push(c);
            assert(char_views(parts@).push(cur@) =~= split_fields(before).update(
                split_fields(before).len() - 1,
                split_fields(before).last().push(c),
            ));
        }
        i = i + 1;
    }
    assert(v@.take(v@.len() as int) =~= v@);
    parts.push(cur);
    assert(char_views(parts@) =~= split_fields(v@));
    parts
}

/// `f` is nonempty and all ASCII digits.
fn is_digit_field(f: &[char]) -> (r: bool)
    ensures
        r == digit_field(f@),
{
    if f.len() == 0 {
        return false;
    }
    let mut i: usize = 0;
    while i < f.len()
        invariant
            i <= f@.len(),
            forall|j: int| 0 <= j < i ==> is_ascii_digit(#[trigger] f@[j]),
        decreases f@.len() - i,
    {
        if !(f[i] >= '0' && f[i] <= '9') {
            return false;
        }
        i = i + 1;
    }
    true
}

/// Parses a birth date written day first with a four-digit year, such as
/// `25/09/2010`, `29.02.2012` or `26-09-2010`.
pub fn dob(raw: &str) -> (r: Option<Date>)
    ensures
        r == dob_spec(raw@),
        r matches Some(d) ==> d.is_calendar_date(),
{
    let chars = chars_of(raw);
    let t = strip_chars(chars.as_slice(), false);
    let parts = split_date_fields(t.as_slice());
    if parts.len() != 3 {
        return None;
    }
    assert(parts@[0]@ == char_views(parts@)[0]);
    assert(parts@[1]@ == char_views(parts@)[1]);
    assert(parts@[2]@ == char_views(parts@)[2]);
    if parts[2].len() != 4 || !is_digit_field(parts[0].as_slice()) || !is_digit_field(
        parts[1].as_slice(),
    ) || !is_digit_field(parts[2].as_slice()) {
        return None;
    }
    let y = digits_to_u32(parts[2].as_slice());
    let m = digits_to_u32(parts[1].as_slice());
    let d = digits_to_u32(parts[0].as_slice());
    match (y, m, d) {
        (Some(y), Some(m), Some(d)) => {
            proof {
                lemma_four_digits_small(parts@[2]@);
            }
            let year: i32 = y as i32;
            if calendar_date_exists(year, m, d) {
                Some(Date { year, month: m, day: d })
            } else {
                None
            }
        },
        _ => None,
    }
}

pub proof fn lemma_four_digits_small(s: Seq<char>)
    requires
        s.len() == 4,
        all_ascii_digits(s),
    ensures
        decimal_value(s) <= 9999,
{
    let s3 = s.drop_last();
    let s2 = s3.drop_last();
    let s1 = s2.drop_last();
    let s0 = s1.drop_last();
    assert(is_ascii_digit(s[3]) && is_ascii_digit(s[2]) && is_ascii_digit(s[1])
        && is_ascii_digit(s[0]));
    assert(s3.last() == s[2] && s2.last() == s[1] && s1.last() == s[0]);
    assert(decimal_value(s0) == 0);
    assert(decimal_value(s1) <= 9);
    assert(decimal_value(s2) <= 99);
    assert(decimal_value(s3) <= 999);
}

/// A parsed birth date is a calendar date with a year of at most four digits.
pub proof fn lemma_dob_calendar(raw: Seq<char>)
    ensures
        dob_spec(raw) matches Some(d) ==> d.is_calendar_date() && 0 <= d.year <= 9999,
{
    let parts = split_fields(trim(raw));
    if parts.len() == 3 && parts[2].len() == 4 && digit_field(parts[0]) && digit_field(parts[1])
        && digit_field(parts[2]) {
        lemma_four_digits_small(parts[2]);
    }
}

/// No character of `s` is a date separator.
pub open spec fn no_separator(s: Seq<char>) -> bool {
    forall|i: int| 0 <= i < s.len() ==> !is_date_separator(#[trigger] s[i])
}

pub proof fn lemma_split_no_separator(q: Seq<char>)
    requires
        no_separator(q),
    ensures
        split_fields(q) == seq![q],
    decreases q.len(),
{
    if q.len() == 0 {
        assert(q =~= Seq::<char>::empty());
    } else {
        let d = q.drop_last();
        assert(no_separator(d)) by {
            assert forall|i: int| 0 <= i < d.len() implies !is_date_separator(#[trigger] d[i]) by {
                assert(d[i] == q[i]);
            }
        }
        lemma_split_no_separator(d);
        assert(q.last() == q[q.len() - 1]);
        assert(d.push(q.last()) =~= q);
        assert(split_fields(q) =~= seq![q]);
    }
}

pub proof fn lemma_split_append(p: Seq<char>, q: Seq<char>)
    requires
        no_separator(q),
    ensures
        split_fields(p + q) == split_fields(p).update(
            split_fields(p).len() - 1,
            split_fields(p).last() + q,
        ),
    decreases q.len(),
{
    lemma_split_fields_nonempty(p);
    let sp = split_fields(p);
    if q.len() == 0 {
        assert(p + q =~= p);
        assert(sp.last() + q =~= sp.last());
        assert(sp.update(sp.len() - 1, sp.last()) =~= sp);
    } else {
        let d = q.drop_last();
        assert(no_separator(d)) by {
            assert forall|i: int| 0 <= i < d.len() implies !is_date_separator(#[trigger] d[i]) by {
                assert(d[i] == q[i]);
            }
        }
        lemma_split_append(p, d);
        assert((p + q).drop_last() =~= p + d);
        assert((p + q).last() == q[q.len() - 1]);
        lemma_split_fields_nonempty(p + d);
        let s1 = split_fields(p + d);
        assert(s1 =~= sp.update(sp.len() - 1, sp.last() + d));
        assert((sp.last() + d).push(q.last()) =~= sp.last() + q);
        assert(split_fields(p + q) =~= sp.update(sp.len() - 1, sp.last() + q));
    }
}

/// A day or month written with two digits.
pub open spec fn two_digit_text(n: nat) -> Seq<char> {
    seq![digit_char(n / 10), digit_char(n % 10)]
}

/// A year written with four digits.
pub open spec fn four_digit_text(n: nat) -> Seq<char> {
    seq![digit_char(n / 1000), digit_char(n / 100 % 10), digit_char(n / 10 % 10), digit_char(n % 10)]
}

/// A date written day first, with two-digit day and month, a four-digit year
/// and `sep` between them.
pub open spec fn written_date(d: Date, sep: char) -> Seq<char> {
    two_digit_text(d.day as nat) + seq![sep] + two_digit_text(d.month as nat) + seq![sep]
        + four_digit_text(d.year as nat)
}

pub proof fn lemma_digit_char(k: nat)
    requires
        k < 10,
    ensures
        is_ascii_digit(digit_char(k)),
        digit_value(digit_char(k)) == k,
        !is_date_separator(digit_char(k)),
        !is_white_space(digit_char(k)),
{
}

proof fn lemma_two_digit_value(n: nat)
    requires
        n < 100,
    ensures
        all_ascii_digits(two_digit_text(n)),
        decimal_value(two_digit_text(n)) == n,
{
    let s = two_digit_text(n);
    lemma_digit_char(n / 10);
    lemma_digit_char(n % 10);
    assert(s.drop_last() =~= seq![s[0]]);
    assert(seq![s[0]].drop_last() =~= Seq::<char>::empty());
    assert(decimal_value(Seq::<char>::empty()) == 0);
    assert(decimal_value(seq![s[0]]) == digit_value(s[0]));
    assert(decimal_value(s) == decimal_value(seq![s[0]]) * 10 + digit_value(s[1]));
}

proof fn lemma_four_digit_value(n: nat)
    requires
        n < 10000,
    ensures
        all_ascii_digits(four_digit_text(n)),
        decimal_value(four_digit_text(n)) == n,
{
    let yr = four_digit_text(n);
    lemma_digit_char(n / 1000);
    lemma_digit_char(n / 100 % 10);
    lemma_digit_char(n / 10 % 10);
    lemma_digit_char(n % 10);
    let y3 = yr.drop_last();
    let y2 = y3.drop_last();
    let y1 = y2.drop_last();
    assert(y3 =~= seq![yr[0], yr[1], yr[2]]);
    assert(y2 =~= seq![yr[0], yr[1]]);
    assert(y1 =~= seq![yr[0]]);
    assert(y1.drop_last() =~= Seq::<char>::empty());
    assert(decimal_value(Seq::<char>::empty()) == 0);
    assert(decimal_value(y1) == digit_value(yr[0]));
    assert(decimal_value(y1) == n / 1000);
    assert(decimal_value(y2) == n / 100);
    assert(decimal_value(y3) == n / 10);
}

/// A date written day first with four-digit year reads back as that date.
pub proof fn law_written_date_reads_back(d: Date, sep: char)
    requires
        d.is_calendar_date(),
        0 <= d.year <= 9999,
        is_date_separator(sep),
    ensures
        dob_spec(written_date(d, sep)) == Some(d),
{
    let day = two_digit_text(d.day as nat);
    let mon = two_digit_text(d.month as nat);
    let yr = four_digit_text(d.year as nat);
    lemma_digit_char(d.day as nat / 10);
    lemma_digit_char(d.day as nat % 10);
    lemma_digit_char(d.month as nat / 10);
    lemma_digit_char(d.month as nat % 10);
    lemma_digit_char(d.year as nat / 1000);
    lemma_digit_char(d.year as nat / 100 % 10);
    lemma_digit_char(d.year as nat / 10 % 10);
    lemma_digit_char(d.year as nat % 10);
    assert(no_separator(day));
    assert(no_separator(mon));
    assert(no_separator(yr));
    lemma_date_text_fields(day, mon, yr, sep);
    lemma_two_digit_value(d.day as nat);
    lemma_two_digit_value(d.month as nat);
    lemma_four_digit_value(d.year as nat);
}

/// A day or month written with as few digits as it takes: one below ten,
/// else two.
pub open spec fn short_number_text(n: nat) -> Seq<char> {
    if n < 10 {
        seq![digit_char(n)]
    } else {
        two_digit_text(n)
    }
}

/// A date written day first, with day and month in as few digits as they
/// take, a four-digit year and `sep` between them.
pub open spec fn short_written_date(d: Date, sep: char) -> Seq<char> {
    short_number_text(d.day as nat) + seq![sep] + short_number_text(d.month as nat) + seq![sep]
        + four_digit_text(d.year as nat)
}

/// Day, month and year texts without separators, joined by `sep`, split back
/// into themselves, and trimming leaves the joined text as it is.
proof fn lemma_date_text_fields(day: Seq<char>, mon: Seq<char>, yr: Seq<char>, sep: char)
    requires
        day.len() > 0,
        yr.len() > 0,
        no_separator(day),
        no_separator(mon),
        no_separator(yr),
        !is_white_space(day[0]),
        !is_white_space(yr.last()),
        is_date_separator(sep),
    ensures
        trim(day + seq![sep] + mon + seq![sep] + yr) == day + seq![sep] + mon + seq![sep] + yr,
        split_fields(day + seq![sep] + mon + seq![sep] + yr) == seq![day, mon, yr],
{
    let t = day + seq![sep] + mon + seq![sep] + yr;
    assert(t[0] == day[0]);
    assert(t.last() == yr.last());
    assert(strip_start(t, false) == t);
    assert(strip_end(t, false) == t);
    lemma_split_no_separator(day);
    let a = day.push(sep);
    assert(split_fields(a) == seq![day].push(Seq::<char>::empty())) by {
        assert(a.drop_last() =~= day);
    }
    lemma_split_append(a, mon);
    assert(a + mon =~= day + seq![sep] + mon);
    let b = (a + mon).push(sep);
    assert(split_fields(a + mon) =~= seq![day, mon]);
    assert(split_fields(b) == seq![day, mon].push(Seq::<char>::empty())) by {
        assert(b.drop_last() =~= a + mon);
    }
    lemma_split_append(b, yr);
    assert(b + yr =~= t);
    assert(split_fields(t) =~= seq![day, mon, yr]);
}

proof fn lemma_short_number_value(n: nat)
    requires
        n < 100,
    ensures
        digit_field(short_number_text(n)),
        decimal_value(short_number_text(n)) == n,
        no_separator(short_number_text(n)),
        !is_white_space(short_number_text(n)[0]),
{
    lemma_digit_char(n % 10);
    lemma_digit_char(n / 10);
    if n < 10 {
        let s = seq![digit_char(n)];
        assert(s.drop_last() =~= Seq::<char>::empty());
        assert(decimal_value(Seq::<char>::empty()) == 0);
    } else {
        lemma_two_digit_value(n);
    }
}

/// A date written day first with four-digit year and day and month in as
/// few digits as they take (such as `1/2/2010`) reads back as that date.
pub proof fn law_short_written_date_reads_back(d: Date, sep: char)
    requires
        d.is_calendar_date(),
        0 <= d.year <= 9999,
        is_date_separator(sep),
    ensures
        dob_spec(short_written_date(d, sep)) == Some(d),
{
    let day = short_number_text(d.day as nat);
    let mon = short_number_text(d.month as nat);
    let yr = four_digit_text(d.year as nat);
    lemma_short_number_value(d.day as nat);
    lemma_short_number_value(d.month as nat);
    lemma_four_digit_value(d.year as nat);
    lemma_digit_char(d.year as nat / 1000);
    lemma_digit_char(d.year as nat / 100 % 10);
    lemma_digit_char(d.year as nat / 10 % 10);
    lemma_digit_char(d.year as nat % 10);
    assert(no_separator(yr));
    lemma_date_text_fields(day, mon, yr, sep);
}

/// The order in which birthdays are listed: by day of month, then month, then
/// year; no date sorts last.
pub open spec fn birthday_key(d: Option<Date>) -> (int, int, int) {
    match d {
        Some(d) => (d.day as int, d.month as int, d.year as int),
        None => (99, 99, 9999),
    }
}

} // verus!
