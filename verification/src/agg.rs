//! Sums over the record set: monthly, yearly, per category, per day.
//!
//! All sums are over amounts in cents and are exact; an empty selection sums
//! to zero.

use vstd::prelude::*;
use crate::category::cat_name;
use crate::date::Date;
use crate::expense::Expense;

verus! {

/// The record's date falls in the given month of the given year.
pub open spec fn in_month(e: Expense, year: int, month: int) -> bool {
    e.date.year == year && e.date.month == month
}

/// The records of the given month, in record order.
pub open spec fn month_filter(s: Seq<Expense>, year: int, month: int) -> Seq<Expense>
    decreases s.len(),
{
    if s.len() == 0 {
        Seq::empty()
    } else if in_month(s.last(), year, month) {
        month_filter(s.drop_last(), year, month) + seq![s.last()]
    } else {
        month_filter(s.drop_last(), year, month)
    }
}

/// The sum of the records' amounts.
pub open spec fn amount_sum(s: Seq<Expense>) -> int
    decreases s.len(),
{
    if s.len() == 0 {
        0
    } else {
        amount_sum(s.drop_last()) + s.last().amount
    }
}

/// The sum of the amounts of the given month's records.
pub open spec fn month_total(s: Seq<Expense>, year: int, month: int) -> int
    decreases s.len(),
{
    if s.len() == 0 {
        0
    } else {
        month_total(s.drop_last(), year, month) + (if in_month(s.last(), year, month) {
            s.last().amount as int
        } else {
            0
        })
    }
}

/// The sum of the amounts of the given year's records.
pub open spec fn year_total(s: Seq<Expense>, year: int) -> int
    decreases s.len(),
{
    if s.len() == 0 {
        0
    } else {
        year_total(s.drop_last(), year) + (if s.last().date.year == year {
            s.last().amount as int
        } else {
            0
        })
    }
}

/// The sum of the amounts of the given month's records whose category
/// displays as `name`.
pub open spec fn cat_total(s: Seq<Expense>, year: int, month: int, name: Seq<char>) -> int
    decreases s.len(),
{
    if s.len() == 0 {
        0
    } else {
        cat_total(s.drop_last(), year, month, name) + (if in_month(s.last(), year, month)
            && cat_name(s.last().category) == name {
            s.last().amount as int
        } else {
            0
        })
    }
}

/// The sum of the amounts of the records dated exactly `d`.
pub open spec fn day_total(s: Seq<Expense>, d: Date) -> int
    decreases s.len(),
{
    if s.len() == 0 {
        0
    } else {
        day_total(s.drop_last(), d) + (if s.last().date == d {
            s.last().amount as int
        } else {
            0
        })
    }
}

/// The monthly total is the sum over the month's records: summing the
/// filtered subset and filtering while summing agree, and a month with no
/// records sums to zero.
pub proof fn lemma_month_total_is_filtered_sum(s: Seq<Expense>, year: int, month: int)
    ensures
        month_total(s, year, month) == amount_sum(month_filter(s, year, month)),
        month_filter(s, year, month).len() == 0 ==> month_total(s, year, month) == 0,
    decreases s.len(),
{
    if s.len() > 0 {
        lemma_month_total_is_filtered_sum(s.drop_last(), year, month);
        if in_month(s.last(), year, month) {
            let f = month_filter(s, year, month);
            assert(f.drop_last() =~= month_filter(s.drop_last(), year, month));
            assert(f.last() == s.last());
        }
    }
}

/// Every sum of amounts is bounded by the record count times the largest
/// amount a record can hold.
pub proof fn lemma_month_total_bound(s: Seq<Expense>, year: int, month: int)
    ensures
        0 <= month_total(s, year, month) <= s.len() * (u64::MAX as int),
    decreases s.len(),
{
    if s.len() > 0 {
        lemma_month_total_bound(s.drop_last(), year, month);
        assert((s.len() - 1) * (u64::MAX as int) + (u64::MAX as int) == s.len() * (
        u64::MAX as int)) by (nonlinear_arith);
    }
}

pub proof fn lemma_year_total_bound(s: Seq<Expense>, year: int)
    ensures
        0 <= year_total(s, year) <= s.len() * (u64::MAX as int),
    decreases s.len(),
{
    if s.len() > 0 {
        lemma_year_total_bound(s.drop_last(), year);
        assert((s.len() - 1) * (u64::MAX as int) + (u64::MAX as int) == s.len() * (
        u64::MAX as int)) by (nonlinear_arith);
    }
}

pub proof fn lemma_cat_total_bound(s: Seq<Expense>, year: int, month: int, name: Seq<char>)
    ensures
        0 <= cat_total(s, year, month, name) <= s.len() * (u64::MAX as int),
    decreases s.len(),
{
    if s.len() > 0 {
        lemma_cat_total_bound(s.drop_last(), year, month, name);
        assert((s.len() - 1) * (u64::MAX as int) + (u64::MAX as int) == s.len() * (
        u64::MAX as int)) by (nonlinear_arith);
    }
}

pub proof fn lemma_day_total_bound(s: Seq<Expense>, d: Date)
    ensures
        0 <= day_total(s, d) <= s.len() * (u64::MAX as int),
    decreases s.len(),
{
    if s.len() > 0 {
        lemma_day_total_bound(s.drop_last(), d);
        assert((s.len() - 1) * (u64::MAX as int) + (u64::MAX as int) == s.len() * (
        u64::MAX as int)) by (nonlinear_arith);
    }
}

/// A sequence bounded in length by `usize::MAX` keeps all these sums well
/// under the `u128` limit.
pub proof fn lemma_sum_fits_u128(len: int, total: int)
    requires
        0 <= len <= usize::MAX,
        0 <= total <= len * (u64::MAX as int),
    ensures
        total < u128::MAX,
{
    assert(len * (u64::MAX as int) <= (usize::MAX as int) * (u64::MAX as int))
        by (nonlinear_arith)
        requires 0 <= len <= usize::MAX;
    assert((usize::MAX as int) * (u64::MAX as int) < u128::MAX) by (nonlinear_arith);
}

} // verus!
