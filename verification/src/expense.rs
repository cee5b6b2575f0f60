//! The expense record and the per-category budget.
//!
//! Money is held in cents, so amounts are exact integers. A well-formed
//! record has a valid date, a positive amount, and a recurrence interval
//! present exactly when the record is marked recurring.

use vstd::prelude::*;
use crate::category::Category;
use crate::date::{Date, YEAR_CAP, date_valid};
use crate::recurrence::Recurrence;

verus! {

#[derive(Debug, Clone, PartialEq)]
pub struct Expense {
    pub id: u64,
    /// Amount in cents.
    pub amount: u64,
    pub category: Category,
    pub description: String,
    pub date: Date,
    pub is_recurring: bool,
    pub recurrence: Option<Recurrence>,
}

/// The record invariant: a real date with stepping headroom, a positive
/// amount, and a recurrence present exactly when the record is recurring.
pub open spec fn expense_wf(e: Expense) -> bool {
    &&& date_valid(e.date)
    &&& e.date.year < YEAR_CAP
    &&& e.amount > 0
    &&& e.is_recurring == (e.recurrence is Some)
}

/// All records of a sequence are well-formed.
pub open spec fn all_wf(s: Seq<Expense>) -> bool {
    forall|i: int| 0 <= i < s.len() ==> expense_wf(#[trigger] s[i])
}

impl Expense {
    pub fn new(
        id: u64,
        amount: u64,
        category: Category,
        description: String,
        date: Date,
        is_recurring: bool,
        recurrence: Option<Recurrence>,
    ) -> (r: Expense)
        ensures
            r == (Expense { id, amount, category, description, date, is_recurring, recurrence }),
    {
        Expense { id, amount, category, description, date, is_recurring, recurrence }
    }

    /// A copy that compares equal to `self`.
    pub fn duplicate(&self) -> (r: Expense)
        ensures
            r == *self,
    {
        Expense {
            id: self.id,
            amount: self.amount,
            category: self.category.duplicate(),
            description: self.description.clone(),
            date: self.date,
            is_recurring: self.is_recurring,
            recurrence: self.recurrence,
        }
    }
}

#[derive(Debug, Clone, PartialEq)]
pub struct Budget {
    pub category: Category,
    /// Monthly limit in cents.
    pub monthly_limit: u64,
}

/// The largest id among the records, zero when there are none.
pub open spec fn spec_max_id(s: Seq<Expense>) -> int
    decreases s.len(),
{
    if s.len() == 0 {
        0
    } else if spec_max_id(s.drop_last()) >= s.last().id {
        spec_max_id(s.drop_last())
    } else {
        s.last().id as int
    }
}

/// The id the next record gets: one past the largest id in use.
pub open spec fn spec_next_id(s: Seq<Expense>) -> int {
    spec_max_id(s) + 1
}

pub proof fn lemma_max_id_bounds(s: Seq<Expense>)
    ensures
        spec_max_id(s) >= 0,
        forall|i: int| 0 <= i < s.len() ==> #[trigger] s[i].id <= spec_max_id(s),
    decreases s.len(),
{
    if s.len() > 0 {
        lemma_max_id_bounds(s.drop_last());
        assert forall|i: int| 0 <= i < s.len() implies #[trigger] s[i].id <= spec_max_id(s) by {
            if i < s.len() - 1 {
                assert(s.drop_last()[i] == s[i]);
            }
        }
    }
}

/// The next free record id: the largest id in use plus one.
pub fn next_id(expenses: &Vec<Expense>) -> (r: u64)
    requires
        spec_max_id(expenses@) < u64::MAX,
    ensures
        r == spec_next_id(expenses@),
{
    let mut max: u64 = 0;
    let mut i: usize = 0;
    while i < expenses.len()
        invariant
            0 <= i <= expenses@.len(),
            max == spec_max_id(expenses@.subrange(0, i as int)),
            spec_max_id(expenses@) < u64::MAX,
            max <= spec_max_id(expenses@),
        decreases expenses@.len() - i,
    {
        proof {
            lemma_max_id_bounds(expenses@);
            assert(expenses@.subrange(0, i + 1).drop_last() =~= expenses@.subrange(0, i as int));
            assert(expenses@.subrange(0, i + 1).last() == expenses@[i as int]);
            assert(expenses@[i as int].id <= spec_max_id(expenses@));
        }
        if expenses[i].id > max {
            max = expenses[i].id;
        }
        i = i + 1;
    }
    proof {
        assert(expenses@.subrange(0, expenses@.len() as int) =~= expenses@);
    }
    max + 1
}

} // verus!
