//! The filtered, sorted view of the records.
//!
//! A record passes the filter when it is recurring (if only recurring ones
//! are wanted) and the query occurs case-insensitively in its description or
//! its category's display text. The passing indices are ordered by date,
//! most recent first; records with equal dates keep their original order.

use vstd::prelude::*;
use crate::category::cat_name;
use crate::date::date_lt;
use crate::expense::Expense;
use crate::text::{contains_seq, lower_of, to_lowercase, contains_str};
use vstd::multiset::Multiset;

verus! {

/// The filter predicate of the view: the recurring flag, then the
/// case-insensitive query against description or category text.
pub open spec fn matches_query(e: Expense, query: Seq<char>, recurring_only: bool) -> bool {
    if recurring_only && !e.is_recurring {
        false
    } else if query.len() == 0 {
        true
    } else {
        contains_seq(lower_of(e.description@), lower_of(query)) || contains_seq(
            lower_of(cat_name(e.category)),
            lower_of(query),
        )
    }
}

/// Display order of two distinct record indices: later dates first, and
/// equal dates in record order.
pub open spec fn view_before(s: Seq<Expense>, a: int, b: int) -> bool {
    ||| date_lt(s[b].date, s[a].date)
    ||| (s[a].date == s[b].date && a < b)
}

/// `out` is the filtered view of `s`: exactly the indices of the matching
/// records, sorted by display order.
pub open spec fn filtered_ok(
    s: Seq<Expense>,
    query: Seq<char>,
    recurring_only: bool,
    out: Seq<usize>,
) -> bool {
    &&& forall|k: int|
        0 <= k < out.len() ==> (#[trigger] out[k]) < s.len() && matches_query(
            s[out[k] as int],
            query,
            recurring_only,
        )
    &&& forall|i: int|
        0 <= i < s.len() && matches_query(#[trigger] s[i], query, recurring_only) ==> out.contains(
            i as usize,
        )
    &&& forall|k1: int, k2: int|
        0 <= k1 < k2 < out.len() ==> view_before(s, #[trigger] out[k1] as int, #[trigger] out[k2] as int)
}

/// With an empty query and the recurring flag off, every record passes the
/// filter, so the view holds exactly all records.
pub proof fn lemma_empty_query_matches_all(e: Expense)
    ensures
        matches_query(e, Seq::<char>::empty(), false),
{
}

/// With an empty query and the recurring flag off, the view holds every
/// record index.
pub proof fn lemma_empty_query_view_complete(s: Seq<Expense>, out: Seq<usize>)
    requires
        filtered_ok(s, Seq::<char>::empty(), false, out),
    ensures
        forall|i: int| 0 <= i < s.len() ==> out.contains(#[trigger] (i as usize)),
{
    assert forall|i: int| 0 <= i < s.len() implies out.contains(#[trigger] (i as usize)) by {
        lemma_empty_query_matches_all(s[i]);
        assert(matches_query(s[i], Seq::<char>::empty(), false));
    }
}

/// In a correct view, dates never increase from one entry to the next.
pub proof fn lemma_view_dates_descend(
    s: Seq<Expense>,
    query: Seq<char>,
    recurring_only: bool,
    out: Seq<usize>,
    k1: int,
    k2: int,
)
    requires
        filtered_ok(s, query, recurring_only, out),
        0 <= k1 < k2 < out.len(),
    ensures
        crate::date::date_le(s[out[k2] as int].date, s[out[k1] as int].date),
{
    assert(view_before(s, out[k1] as int, out[k2] as int));
}

/// The sort is stable: view entries with equal dates keep the records'
/// original order.
pub proof fn lemma_view_stable_on_equal_dates(
    s: Seq<Expense>,
    query: Seq<char>,
    recurring_only: bool,
    out: Seq<usize>,
    k1: int,
    k2: int,
)
    requires
        filtered_ok(s, query, recurring_only, out),
        0 <= k1 < k2 < out.len(),
        s[out[k1] as int].date == s[out[k2] as int].date,
    ensures
        out[k1] < out[k2],
{
    assert(view_before(s, out[k1] as int, out[k2] as int));
}

/// Does the record pass the filter? `query_lower` must be the lowercased
/// query.
fn record_matches(e: &Expense, query: &str, query_lower: &str, recurring_only: bool) -> (r: bool)
    requires
        query_lower@ == lower_of(query@),
    ensures
        r == matches_query(*e, query@, recurring_only),
{
    if recurring_only && !e.is_recurring {
        return false;
    }
    if query.unicode_len() == 0 {
        return true;
    }
    let desc_lower = to_lowercase(e.description.as_str());
    if contains_str(desc_lower.as_str(), query_lower) {
        return true;
    }
    let cname = e.category.name();
    let cname_lower = to_lowercase(cname.as_str());
    contains_str(cname_lower.as_str(), query_lower)
}

/// Insert index `i` into the view right after every entry whose date is on
/// or after `i`'s: sorted order is kept, and `i` lands after equal dates.
#[verifier::loop_isolation(false)]
fn insert_by_date(out: &mut Vec<usize>, expenses: &Vec<Expense>, i: usize)
    requires
        i < expenses@.len(),
        forall|k: int| 0 <= k < old(out)@.len() ==> (#[trigger] old(out)@[k]) < i,
        forall|k1: int, k2: int|
            0 <= k1 < k2 < old(out)@.len() ==> view_before(
                expenses@,
                #[trigger] old(out)@[k1] as int,
                #[trigger] old(out)@[k2] as int,
            ),
    ensures
        final(out)@.len() == old(out)@.len() + 1,
        final(out)@.to_multiset() == old(out)@.to_multiset().insert(i),
        forall|k: int|
            0 <= k < final(out)@.len() ==> ((#[trigger] final(out)@[k]) == i || old(out)@.contains(
                final(out)@[k],
            )),
        final(out)@.contains(i),
        forall|j: usize| old(out)@.contains(j) ==> final(out)@.contains(j),
        forall|k1: int, k2: int|
            0 <= k1 < k2 < final(out)@.len() ==> view_before(
                expenses@,
                #[trigger] final(out)@[k1] as int,
                #[trigger] final(out)@[k2] as int,
            ),
{
    let d = expenses[i].date;
    let mut pos: usize = 0;
    while pos < out.len()
        invariant
            0 <= pos <= out@.len(),
            out@ == old(out)@,
            forall|w: int|
                0 <= w < pos ==> !date_lt(expenses@[#[trigger] out@[w] as int].date, d),
        decreases out@.len() - pos,
    {
        let c = out[pos];
        if expenses[c].date.before(&d) {
            break;
        }
        pos = pos + 1;
    }
    let ghost before = out@;
    out.insert(pos, i);
    proof {
        assert(out@ == before.insert(pos as int, i));
        assert(out@[pos as int] == i);
        assert(forall|w: int| 0 <= w < pos ==> out@[w] == before[w]);
        assert(forall|w: int| pos < w < out@.len() ==> out@[w] == before[w - 1]);
        assert forall|k1: int, k2: int|
            0 <= k1 < k2 < out@.len() implies view_before(
            expenses@,
            #[trigger] out@[k1] as int,
            #[trigger] out@[k2] as int,
        ) by {
            let a = out@[k1];
            let b = out@[k2];
            if k1 == pos {
                // a == i, b is an old entry past the insertion point.
                assert(b == before[k2 - 1]);
                assert(date_lt(expenses@[b as int].date, d));
            } else if k2 == pos {
                // b == i, a is an old entry before the insertion point.
                assert(a == before[k1]);
                assert(!date_lt(expenses@[a as int].date, d));
                assert(a < i);
            } else {
                let w1: int = if k1 < pos {
                    k1
                } else {
                    k1 - 1
                };
                let w2: int = if k2 < pos {
                    k2
                } else {
                    k2 - 1
                };
                assert(a == before[w1] && b == before[w2] && w1 < w2);
            }
        }
        assert forall|j: usize| before.contains(j) implies out@.contains(j) by {
            let w = choose|w: int| 0 <= w < before.len() && before[w] == j;
            if w < pos {
                assert(out@[w] == j);
            } else {
                assert(out@[w + 1] == j);
            }
        }
        assert forall|k: int|
            0 <= k < out@.len() implies ((#[trigger] out@[k]) == i || before.contains(out@[k])) by {
            if k < pos {
                assert(before[k] == out@[k]);
            } else if k > pos {
                assert(before[k - 1] == out@[k]);
            }
        }
        before.to_multiset_ensures();
        vstd::seq_lib::lemma_multiset_commutative(before.take(pos as int), seq![i] + before.skip(pos as int));
        assert(before.take(pos as int) + (seq![i] + before.skip(pos as int)) =~= out@);
        vstd::seq_lib::lemma_multiset_commutative(seq![i], before.skip(pos as int));
        vstd::seq_lib::lemma_multiset_commutative(before.take(pos as int), before.skip(pos as int));
        assert(before.take(pos as int) + before.skip(pos as int) =~= before);
        assert(seq![i].to_multiset() =~= Multiset::empty().insert(i)) by {
            seq![i].to_multiset_ensures();
            assert(seq![i].drop_last() =~= Seq::<usize>::empty());
        }
        assert(out@.to_multiset() =~= before.to_multiset().insert(i));
    }
}

/// The filtered, sorted view: indices of the records that pass the filter,
/// most recent date first, equal dates in record order.
#[verifier::loop_isolation(false)]
pub fn compute_filtered(expenses: &Vec<Expense>, query: &str, recurring_only: bool) -> (out: Vec<
    usize,
>)
    ensures
        filtered_ok(expenses@, query@, recurring_only, out@),
{
    let query_lower = to_lowercase(query);
    let mut out: Vec<usize> = Vec::new();
    let mut i: usize = 0;
    while i < expenses.len()
        invariant
            0 <= i <= expenses@.len(),
            forall|k: int|
                0 <= k < out@.len() ==> (#[trigger] out@[k]) < i && matches_query(
                    expenses@[out@[k] as int],
                    query@,
                    recurring_only,
                ),
            forall|j: int|
                0 <= j < i && matches_query(#[trigger] expenses@[j], query@, recurring_only)
                    ==> out@.contains(j as usize),
            forall|k1: int, k2: int|
                0 <= k1 < k2 < out@.len() ==> view_before(
                    expenses@,
                    #[trigger] out@[k1] as int,
                    #[trigger] out@[k2] as int,
                ),
        decreases expenses@.len() - i,
    {
        let e = &expenses[i];
        if record_matches(e, query, query_lower.as_str(), recurring_only) {
            let ghost before = out@;
            insert_by_date(&mut out, expenses, i);
            proof {
                assert forall|j: int|
                    0 <= j < i + 1 && matches_query(
                        #[trigger] expenses@[j],
                        query@,
                        recurring_only,
                    ) implies out@.contains(j as usize) by {
                    if j < i {
                        assert(before.contains(j as usize));
                    }
                }
            }
        }
        i = i + 1;
    }
    out
}

} // verus!
