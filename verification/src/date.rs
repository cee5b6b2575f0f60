//! A plain Gregorian calendar date: year, month, day.
//!
//! Dates are compared lexicographically by (year, month, day), which for
//! valid calendar dates agrees with chronological order. Years are kept in
//! `[0, MAX_YEAR]` so that every date computation the library performs stays
//! far away from machine overflow.

use vstd::prelude::*;

verus! {

/// Upper bound on the years this library works with.
pub const MAX_YEAR: i32 = 100_000;

/// Dates whose year is below this cap can always take one recurrence step,
/// the plain-days fallback included, without leaving the valid year range.
pub const YEAR_CAP: i32 = MAX_YEAR - 366;

#[derive(Debug, Clone, Copy, PartialEq, Eq, Structural, Hash)]
pub struct Date {
    pub year: i32,
    pub month: u8,
    pub day: u8,
}

pub open spec fn is_leap_year(year: int) -> bool {
    year % 4 == 0 && (year % 100 != 0 || year % 400 == 0)
}

pub open spec fn spec_days_in_month(year: int, month: int) -> int {
    if month == 2 {
        if is_leap_year(year) {
            29
        } else {
            28
        }
    } else if month == 4 || month == 6 || month == 9 || month == 11 {
        30
    } else {
        31
    }
}

/// A real calendar date within the library's year range.
pub open spec fn date_valid(d: Date) -> bool {
    &&& 0 <= d.year <= MAX_YEAR
    &&& 1 <= d.month <= 12
    &&& 1 <= d.day <= spec_days_in_month(d.year as int, d.month as int)
}

/// Chronological order on valid dates: lexicographic by (year, month, day).
pub open spec fn date_lt(a: Date, b: Date) -> bool {
    ||| a.year < b.year
    ||| (a.year == b.year && a.month < b.month)
    ||| (a.year == b.year && a.month == b.month && a.day < b.day)
}

pub open spec fn date_le(a: Date, b: Date) -> bool {
    date_lt(a, b) || a == b
}

impl Date {
    /// Construct a date, accepting only valid calendar dates.
    pub fn new(year: i32, month: u8, day: u8) -> (r: Option<Date>)
        ensures
            r is Some <==> date_valid(Date { year, month, day }),
            r is Some ==> r->0 == (Date { year, month, day }),
    {
        let d = Date { year, month, day };
        if 0 <= year && year <= MAX_YEAR && 1 <= month && month <= 12 && 1 <= day
            && day <= days_in_month(year, month) {
            Some(d)
        } else {
            None
        }
    }

    /// `true` iff `self` is chronologically before `other`.
    pub fn before(&self, other: &Date) -> (r: bool)
        ensures
            r == date_lt(*self, *other),
    {
        self.year < other.year || (self.year == other.year && self.month < other.month) || (
        self.year == other.year && self.month == other.month && self.day < other.day)
    }

    /// `true` iff `self` is `other` or chronologically before it.
    pub fn on_or_before(&self, other: &Date) -> (r: bool)
        ensures
            r == date_le(*self, *other),
    {
        self.before(other) || (self.year == other.year && self.month == other.month && self.day
            == other.day)
    }
}

/// Number of days in the given month.
pub fn days_in_month(year: i32, month: u8) -> (r: u8)
    requires
        0 <= year,
    ensures
        r == spec_days_in_month(year as int, month as int),
        28 <= r <= 31,
{
    if month == 2 {
        if year % 4 == 0 && (year % 100 != 0 || year % 400 == 0) {
            29
        } else {
            28
        }
    } else if month == 4 || month == 6 || month == 9 || month == 11 {
        30
    } else {
        31
    }
}

/// The calendar day right after `d`.
pub open spec fn spec_next_day(d: Date) -> Date {
    if d.day < spec_days_in_month(d.year as int, d.month as int) {
        Date { year: d.year, month: d.month, day: (d.day + 1) as u8 }
    } else if d.month < 12 {
        Date { year: d.year, month: (d.month + 1) as u8, day: 1 }
    } else {
        Date { year: (d.year + 1) as i32, month: 1, day: 1 }
    }
}

pub fn next_day(d: Date) -> (r: Date)
    requires
        date_valid(d),
        d.year < MAX_YEAR,
    ensures
        r == spec_next_day(d),
        date_valid(r),
        date_lt(d, r),
{
    let dim = days_in_month(d.year, d.month);
    if d.day < dim {
        Date { year: d.year, month: d.month, day: d.day + 1 }
    } else if d.month < 12 {
        Date { year: d.year, month: d.month + 1, day: 1 }
    } else {
        Date { year: d.year + 1, month: 1, day: 1 }
    }
}

/// The date `n` days after `d`.
pub open spec fn spec_add_days(d: Date, n: nat) -> Date
    decreases n,
{
    if n == 0 {
        d
    } else {
        spec_add_days(spec_next_day(d), (n - 1) as nat)
    }
}

pub fn add_days(d: Date, n: u32) -> (r: Date)
    requires
        date_valid(d),
        d.year + n < MAX_YEAR,
    ensures
        r == spec_add_days(d, n as nat),
        date_valid(r),
        n > 0 ==> date_lt(d, r),
        r.year <= d.year + n,
{
    let mut cur = d;
    let mut i: u32 = 0;
    while i < n
        invariant
            0 <= i <= n,
            date_valid(d),
            d.year + n < MAX_YEAR,
            date_valid(cur),
            cur.year <= d.year + i,
            cur == spec_add_days(d, i as nat),
            i > 0 ==> date_lt(d, cur),
        decreases n - i,
    {
        proof {
            lemma_add_days_step(d, i as nat);
        }
        let prev = cur;
        cur = next_day(cur);
        proof {
            if date_lt(d, prev) {
                lemma_date_lt_transitive(d, prev, cur);
            }
        }
        i = i + 1;
    }
    cur
}

/// Unfolding `spec_add_days` one step from the far end.
pub proof fn lemma_add_days_step(d: Date, n: nat)
    ensures
        spec_add_days(d, n + 1) == spec_next_day(spec_add_days(d, n)),
    decreases n,
{
    if n > 0 {
        lemma_add_days_step(spec_next_day(d), (n - 1) as nat);
    } else {
        assert(spec_add_days(d, 1) == spec_add_days(spec_next_day(d), 0)) by {
            reveal_with_fuel(spec_add_days, 2);
        }
    }
}

pub proof fn lemma_date_lt_transitive(a: Date, b: Date, c: Date)
    requires
        date_lt(a, b),
        date_lt(b, c),
    ensures
        date_lt(a, c),
{
}

/// The successor day is the least valid date after `d`: any valid date
/// strictly after `d` is on or after `spec_next_day(d)`.
pub proof fn lemma_next_day_least(d: Date, c: Date)
    requires
        date_valid(d),
        date_valid(c),
        date_lt(d, c),
    ensures
        date_le(spec_next_day(d), c),
{
}

pub proof fn lemma_next_day_monotone(a: Date, b: Date)
    requires
        date_valid(a),
        date_valid(b),
        a.year < MAX_YEAR,
        b.year < MAX_YEAR,
        date_le(a, b),
    ensures
        date_le(spec_next_day(a), spec_next_day(b)),
{
    if a == b {
    } else {
        lemma_next_day_least(a, b);
        assert(date_lt(b, spec_next_day(b)));
        if spec_next_day(a) == b {
        } else {
            lemma_date_lt_transitive(spec_next_day(a), b, spec_next_day(b));
        }
    }
}

pub proof fn lemma_add_days_valid(d: Date, n: nat)
    requires
        date_valid(d),
        d.year + n < MAX_YEAR,
    ensures
        date_valid(spec_add_days(d, n)),
        spec_add_days(d, n).year <= d.year + n,
        n > 0 ==> date_lt(d, spec_add_days(d, n)),
    decreases n,
{
    if n > 0 {
        lemma_add_days_valid(spec_next_day(d), (n - 1) as nat);
        if n > 1 {
            lemma_date_lt_transitive(d, spec_next_day(d), spec_add_days(d, n));
        }
    }
}

pub proof fn lemma_add_days_monotone(a: Date, b: Date, n: nat)
    requires
        date_valid(a),
        date_valid(b),
        a.year + n < MAX_YEAR,
        b.year + n < MAX_YEAR,
        date_le(a, b),
    ensures
        date_le(spec_add_days(a, n), spec_add_days(b, n)),
    decreases n,
{
    if n > 0 {
        lemma_next_day_monotone(a, b);
        lemma_add_days_monotone(spec_next_day(a), spec_next_day(b), (n - 1) as nat);
    }
}

/// A coarse day count: strictly monotone over valid dates, used only as a
/// termination measure for walks along successive dates.
pub open spec fn date_measure(d: Date) -> int {
    d.year * 372 + d.month * 31 + d.day
}

/// The calendar day right before `d`.
pub open spec fn spec_prev_day(d: Date) -> Date {
    if d.day > 1 {
        Date { year: d.year, month: d.month, day: (d.day - 1) as u8 }
    } else if d.month > 1 {
        Date {
            year: d.year,
            month: (d.month - 1) as u8,
            day: spec_days_in_month(d.year as int, d.month - 1) as u8,
        }
    } else {
        Date { year: (d.year - 1) as i32, month: 12, day: 31 }
    }
}

pub fn prev_day(d: Date) -> (r: Date)
    requires
        date_valid(d),
        !(d.year == 0 && d.month == 1 && d.day == 1),
    ensures
        r == spec_prev_day(d),
        date_valid(r),
        date_lt(r, d),
{
    if d.day > 1 {
        Date { year: d.year, month: d.month, day: d.day - 1 }
    } else if d.month > 1 {
        Date { year: d.year, month: d.month - 1, day: days_in_month(d.year, d.month - 1) }
    } else {
        Date { year: d.year - 1, month: 12, day: 31 }
    }
}

/// Stepping one day back lowers the coarse day count by at most four.
pub proof fn lemma_prev_day_measure(d: Date)
    requires
        date_valid(d),
        !(d.year == 0 && d.month == 1 && d.day == 1),
    ensures
        date_measure(spec_prev_day(d)) >= date_measure(d) - 4,
        date_measure(spec_prev_day(d)) < date_measure(d),
{
}

/// The date `n` days before `d`.
pub open spec fn spec_back_days(d: Date, n: nat) -> Date
    decreases n,
{
    if n == 0 {
        d
    } else {
        spec_back_days(spec_prev_day(d), (n - 1) as nat)
    }
}

/// Unfolding `spec_back_days` one step from the far end.
pub proof fn lemma_back_days_step(d: Date, n: nat)
    ensures
        spec_back_days(d, n + 1) == spec_prev_day(spec_back_days(d, n)),
    decreases n,
{
    if n > 0 {
        lemma_back_days_step(spec_prev_day(d), (n - 1) as nat);
    } else {
        assert(spec_back_days(d, 1) == spec_back_days(spec_prev_day(d), 0)) by {
            reveal_with_fuel(spec_back_days, 2);
        }
    }
}

/// One digit as a character.
pub open spec fn dc(n: int) -> char {
    (n + '0' as int) as char
}

/// `d` written as `YYYY-MM-DD`, the year zero-padded to four digits.
pub open spec fn spec_date_string(d: Date) -> Seq<char> {
    seq![
        dc(d.year as int / 1000),
        dc((d.year as int / 100) % 10),
        dc((d.year as int / 10) % 10),
        dc(d.year as int % 10),
        '-',
        dc(d.month as int / 10),
        dc(d.month as int % 10),
        '-',
        dc(d.day as int / 10),
        dc(d.day as int % 10),
    ]
}

/// Format a date as `YYYY-MM-DD`.
pub fn format_date(d: Date) -> (r: String)
    requires
        date_valid(d),
        d.year <= 9999,
    ensures
        r@ == spec_date_string(d),
{
    proof {
        reveal_strlit("-");
    }
    let mut out = String::new();
    out.append(crate::text::digit_str((d.year / 1000) as u8));
    out.append(crate::text::digit_str(((d.year / 100) % 10) as u8));
    out.append(crate::text::digit_str(((d.year / 10) % 10) as u8));
    out.append(crate::text::digit_str((d.year % 10) as u8));
    out.append("-");
    out.append(crate::text::digit_str(d.month / 10));
    out.append(crate::text::digit_str(d.month % 10));
    out.append("-");
    out.append(crate::text::digit_str(d.day / 10));
    out.append(crate::text::digit_str(d.day % 10));
    proof {
        assert(out@ =~= spec_date_string(d));
    }
    out
}

/// The ten characters have the shape `YYYY-MM-DD`.
pub open spec fn date_text_shape(s: Seq<char>) -> bool {
    &&& s.len() == 10
    &&& crate::text::is_digit(s[0])
    &&& crate::text::is_digit(s[1])
    &&& crate::text::is_digit(s[2])
    &&& crate::text::is_digit(s[3])
    &&& s[4] == '-'
    &&& crate::text::is_digit(s[5])
    &&& crate::text::is_digit(s[6])
    &&& s[7] == '-'
    &&& crate::text::is_digit(s[8])
    &&& crate::text::is_digit(s[9])
}

/// The date the text denotes, assuming the `YYYY-MM-DD` shape.
pub open spec fn spec_parsed_date(s: Seq<char>) -> Date {
    Date {
        year: (1000 * crate::text::digit_val(s[0]) + 100 * crate::text::digit_val(s[1]) + 10
            * crate::text::digit_val(s[2]) + crate::text::digit_val(s[3])) as i32,
        month: (10 * crate::text::digit_val(s[5]) + crate::text::digit_val(s[6])) as u8,
        day: (10 * crate::text::digit_val(s[8]) + crate::text::digit_val(s[9])) as u8,
    }
}

/// A well-formed date text: the `YYYY-MM-DD` shape denoting a valid date.
pub open spec fn date_text_valid(s: Seq<char>) -> bool {
    date_text_shape(s) && date_valid(spec_parsed_date(s))
}

fn read_digit(s: &str, i: usize) -> (r: Option<u8>)
    requires
        i < s@.len(),
        s@.len() <= usize::MAX,
    ensures
        r is Some <==> crate::text::is_digit(s@[i as int]),
        r matches Some(v) ==> v == crate::text::digit_val(s@[i as int]) && v <= 9,
{
    let c = s.get_char(i);
    if '0' <= c && c <= '9' {
        Some((c as u32 - '0' as u32) as u8)
    } else {
        None
    }
}

/// Parse a `YYYY-MM-DD` text into a date; only valid calendar dates are
/// accepted.
pub fn parse_date(s: &str) -> (r: Option<Date>)
    ensures
        r is Some <==> date_text_valid(s@),
        r matches Some(d) ==> d == spec_parsed_date(s@) && date_valid(d) && d.year <= 9999,
{
    if s.unicode_len() != 10 {
        return None;
    }
    if s.get_char(4) != '-' || s.get_char(7) != '-' {
        return None;
    }
    let d0 = match read_digit(s, 0) { Some(v) => v, None => { return None; } };
    let d1 = match read_digit(s, 1) { Some(v) => v, None => { return None; } };
    let d2 = match read_digit(s, 2) { Some(v) => v, None => { return None; } };
    let d3 = match read_digit(s, 3) { Some(v) => v, None => { return None; } };
    let d5 = match read_digit(s, 5) { Some(v) => v, None => { return None; } };
    let d6 = match read_digit(s, 6) { Some(v) => v, None => { return None; } };
    let d8 = match read_digit(s, 8) { Some(v) => v, None => { return None; } };
    let d9 = match read_digit(s, 9) { Some(v) => v, None => { return None; } };
    let year: i32 = 1000 * (d0 as i32) + 100 * (d1 as i32) + 10 * (d2 as i32) + (d3 as i32);
    let month: u8 = 10 * d5 + d6;
    let day: u8 = 10 * d8 + d9;
    Date::new(year, month, day)
}

pub proof fn lemma_date_measure_monotone(a: Date, b: Date)
    requires
        date_valid(a),
        date_valid(b),
        date_lt(a, b),
    ensures
        date_measure(a) < date_measure(b),
{
    if a.year < b.year {
        assert(b.year * 372 >= (a.year + 1) * 372) by (nonlinear_arith)
            requires a.year + 1 <= b.year;
        assert(a.year * 372 + 372 == (a.year + 1) * 372) by (nonlinear_arith);
    } else if a.month < b.month {
        assert(b.month * 31 >= (a.month + 1) * 31) by (nonlinear_arith)
            requires a.month + 1 <= b.month;
        assert(a.month * 31 + 31 == (a.month + 1) * 31) by (nonlinear_arith);
    }
}

} // verus!
