//! Recurrence intervals and the date of the next occurrence.
//!
//! `next_date` steps one interval forward: a day, a week, or the next month
//! or year with the day-of-month capped at 28 so the result is always a real
//! date. If that capped construction were ever rejected, the step falls back
//! to adding 30 or 365 plain days.

use vstd::prelude::*;
use crate::date::{
    Date, MAX_YEAR, YEAR_CAP, date_valid, date_lt, date_le, spec_add_days, add_days, lemma_add_days_valid,
    lemma_add_days_monotone, lemma_date_lt_transitive,
};
use crate::text::str_eq;

verus! {

#[derive(Debug, Clone, Copy, PartialEq, Eq, Structural)]
pub enum Recurrence {
    Daily,
    Weekly,
    Monthly,
    Yearly,
}

/// The day-of-month used for monthly and yearly steps: capped at 28.
pub open spec fn cap_day(day: u8) -> u8 {
    if day > 28 {
        28
    } else {
        day
    }
}

/// The month right after `d`'s, with the capped day.
pub open spec fn spec_month_step(d: Date) -> Date {
    if d.month == 12 {
        Date { year: (d.year + 1) as i32, month: 1, day: cap_day(d.day) }
    } else {
        Date { year: d.year, month: (d.month + 1) as u8, day: cap_day(d.day) }
    }
}

/// The same month one year later, with the capped day.
pub open spec fn spec_year_step(d: Date) -> Date {
    Date { year: (d.year + 1) as i32, month: d.month, day: cap_day(d.day) }
}

/// The next occurrence after `d` for each interval.
pub open spec fn spec_next_date(r: Recurrence, d: Date) -> Date {
    match r {
        Recurrence::Daily => spec_add_days(d, 1),
        Recurrence::Weekly => spec_add_days(d, 7),
        Recurrence::Monthly => if date_valid(spec_month_step(d)) {
            spec_month_step(d)
        } else {
            spec_add_days(d, 30)
        },
        Recurrence::Yearly => if date_valid(spec_year_step(d)) {
            spec_year_step(d)
        } else {
            spec_add_days(d, 365)
        },
    }
}

impl Recurrence {
    /// The four interval names, in selection order.
    pub fn all_display_names() -> (r: Vec<&'static str>)
        ensures
            r@.len() == 4,
            r@[0]@ == "Daily"@,
            r@[1]@ == "Weekly"@,
            r@[2]@ == "Monthly"@,
            r@[3]@ == "Yearly"@,
    {
        vec!["Daily", "Weekly", "Monthly", "Yearly"]
    }

    /// The interval at a selection index; out-of-range indices select
    /// `Yearly`.
    pub fn from_index(index: usize) -> (r: Recurrence)
        ensures
            r == spec_rec_from_index(index as int),
    {
        match index {
            0 => Recurrence::Daily,
            1 => Recurrence::Weekly,
            2 => Recurrence::Monthly,
            _ => Recurrence::Yearly,
        }
    }

    /// The selection index of this interval.
    pub fn to_index(&self) -> (r: usize)
        ensures
            r == match *self {
                Recurrence::Daily => 0int,
                Recurrence::Weekly => 1,
                Recurrence::Monthly => 2,
                Recurrence::Yearly => 3,
            },
    {
        match self {
            Recurrence::Daily => 0,
            Recurrence::Weekly => 1,
            Recurrence::Monthly => 2,
            Recurrence::Yearly => 3,
        }
    }

    /// The display text of this interval.
    pub fn name(&self) -> (r: String)
        ensures
            r@ == rec_name(*self),
    {
        match self {
            Recurrence::Daily => String::from_str("Daily"),
            Recurrence::Weekly => String::from_str("Weekly"),
            Recurrence::Monthly => String::from_str("Monthly"),
            Recurrence::Yearly => String::from_str("Yearly"),
        }
    }

    /// Parse an interval name; only the four exact names are accepted.
    pub fn from_str_value(s: &str) -> (r: Option<Recurrence>)
        ensures
            r is Some <==> (s@ == "Daily"@ || s@ == "Weekly"@ || s@ == "Monthly"@ || s@
                == "Yearly"@),
            r matches Some(v) ==> s@ == rec_name(v),
    {
        if str_eq(s, "Daily") {
            Some(Recurrence::Daily)
        } else if str_eq(s, "Weekly") {
            Some(Recurrence::Weekly)
        } else if str_eq(s, "Monthly") {
            Some(Recurrence::Monthly)
        } else if str_eq(s, "Yearly") {
            Some(Recurrence::Yearly)
        } else {
            None
        }
    }

    /// The date of the next occurrence after `from`.
    pub fn next_date(&self, from: Date) -> (r: Date)
        requires
            date_valid(from),
            from.year < YEAR_CAP,
        ensures
            r == spec_next_date(*self, from),
            date_valid(r),
            date_lt(from, r),
    {
        proof {
            lemma_next_date_increases(*self, from);
        }
        match self {
            Recurrence::Daily => add_days(from, 1),
            Recurrence::Weekly => add_days(from, 7),
            Recurrence::Monthly => {
                let day = if from.day > 28 {
                    28
                } else {
                    from.day
                };
                let stepped = if from.month == 12 {
                    Date::new(from.year + 1, 1, day)
                } else {
                    Date::new(from.year, from.month + 1, day)
                };
                match stepped {
                    Some(d) => d,
                    None => add_days(from, 30),
                }
            },
            Recurrence::Yearly => {
                let day = if from.day > 28 {
                    28
                } else {
                    from.day
                };
                match Date::new(from.year + 1, from.month, day) {
                    Some(d) => d,
                    None => add_days(from, 365),
                }
            },
        }
    }
}

/// The interval at a selection index.
pub open spec fn spec_rec_from_index(index: int) -> Recurrence {
    if index == 0 {
        Recurrence::Daily
    } else if index == 1 {
        Recurrence::Weekly
    } else if index == 2 {
        Recurrence::Monthly
    } else {
        Recurrence::Yearly
    }
}

/// The display text of an interval.
pub open spec fn rec_name(r: Recurrence) -> Seq<char> {
    match r {
        Recurrence::Daily => "Daily"@,
        Recurrence::Weekly => "Weekly"@,
        Recurrence::Monthly => "Monthly"@,
        Recurrence::Yearly => "Yearly"@,
    }
}

/// Writing an interval out and parsing the text back yields the same
/// interval.
pub proof fn lemma_recurrence_round_trip(a: Recurrence, b: Recurrence)
    requires
        rec_name(a) == rec_name(b),
    ensures
        a == b,
{
    reveal_strlit("Daily");
    reveal_strlit("Weekly");
    reveal_strlit("Monthly");
    reveal_strlit("Yearly");
    assert("Daily"@.len() == 5 && "Weekly"@.len() == 6 && "Monthly"@.len() == 7 && "Yearly"@.len()
        == 6);
    assert("Weekly"@[0] == 'W' && "Yearly"@[0] == 'Y');
}

/// For a valid date below the year cap, the monthly and yearly steps always
/// construct a valid date: the capped day fits every month.
pub proof fn lemma_steps_valid(d: Date)
    requires
        date_valid(d),
        d.year < MAX_YEAR,
    ensures
        date_valid(spec_month_step(d)),
        date_valid(spec_year_step(d)),
{
}

/// The next occurrence is a valid date strictly after the current one, for
/// every interval.
pub proof fn lemma_next_date_increases(r: Recurrence, d: Date)
    requires
        date_valid(d),
        d.year < YEAR_CAP,
    ensures
        date_valid(spec_next_date(r, d)),
        date_lt(d, spec_next_date(r, d)),
{
    lemma_steps_valid(d);
    match r {
        Recurrence::Daily => {
            lemma_add_days_valid(d, 1);
        },
        Recurrence::Weekly => {
            lemma_add_days_valid(d, 7);
        },
        Recurrence::Monthly => {
        },
        Recurrence::Yearly => {
        },
    }
}

/// Stepping preserves chronological order: later dates never step to
/// earlier occurrences.
pub proof fn lemma_next_date_monotone(r: Recurrence, a: Date, b: Date)
    requires
        date_valid(a),
        date_valid(b),
        a.year < YEAR_CAP,
        b.year < YEAR_CAP,
        date_le(a, b),
    ensures
        date_le(spec_next_date(r, a), spec_next_date(r, b)),
{
    lemma_steps_valid(a);
    lemma_steps_valid(b);
    match r {
        Recurrence::Daily => {
            lemma_add_days_monotone(a, b, 1);
        },
        Recurrence::Weekly => {
            lemma_add_days_monotone(a, b, 7);
        },
        Recurrence::Monthly => {
        },
        Recurrence::Yearly => {
        },
    }
}

} // verus!
