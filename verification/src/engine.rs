//! The recurring-expense materialization engine.
//!
//! A recurring record is a template. For each template the engine finds the
//! most recent existing date among records sharing its (description,
//! category, amount) triple — the anchor — and generates one non-recurring
//! occurrence per recurrence step after the anchor, up to and including
//! `today`. Ids are assigned sequentially from the next free id, shared
//! across templates.

use vstd::prelude::*;
use crate::category::cat_eq;
use crate::date::{
    Date, YEAR_CAP, date_valid, date_le, date_lt, date_measure, lemma_date_measure_monotone,
    lemma_date_lt_transitive,
};
use crate::expense::{Expense, expense_wf, all_wf, spec_next_id, lemma_max_id_bounds, next_id};
use crate::recurrence::{Recurrence, spec_next_date, lemma_next_date_increases, lemma_next_date_monotone};

verus! {

/// A template: a recurring record that drives generation.
pub open spec fn is_template(e: Expense) -> bool {
    e.is_recurring && e.recurrence is Some
}

/// The templates of a record sequence, in order.
pub open spec fn templates_of(s: Seq<Expense>) -> Seq<Expense>
    decreases s.len(),
{
    if s.len() == 0 {
        Seq::empty()
    } else if is_template(s.last()) {
        templates_of(s.drop_last()) + seq![s.last()]
    } else {
        templates_of(s.drop_last())
    }
}

/// Two records share the deduplication triple: description, category and
/// amount.
pub open spec fn same_triple(a: Expense, b: Expense) -> bool {
    &&& a.description@ == b.description@
    &&& cat_eq(a.category, b.category)
    &&& a.amount == b.amount
}

/// The most recent date among records sharing `t`'s triple, if any.
pub open spec fn max_match(s: Seq<Expense>, t: Expense) -> Option<Date>
    decreases s.len(),
{
    if s.len() == 0 {
        None
    } else {
        let prev = max_match(s.drop_last(), t);
        if same_triple(s.last(), t) {
            match prev {
                None => Some(s.last().date),
                Some(d) => if date_lt(d, s.last().date) {
                    Some(s.last().date)
                } else {
                    Some(d)
                },
            }
        } else {
            prev
        }
    }
}

/// The date generation starts from: the most recent matching date, or the
/// template's own date when nothing matches.
pub open spec fn anchor_of(s: Seq<Expense>, t: Expense) -> Date {
    match max_match(s, t) {
        None => t.date,
        Some(d) => d,
    }
}

/// The dates a template generates: successive recurrence steps from `from`,
/// as long as they do not pass `today`.
pub open spec fn due_dates(r: Recurrence, from: Date, today: Date) -> Seq<Date>
    decreases (if date_le(from, today) {
        date_measure(today) - date_measure(from) + 1
    } else {
        0
    })
        via due_dates_decreases
{
    if date_valid(from) && from.year < YEAR_CAP && date_valid(today) && today.year < YEAR_CAP
        && date_le(from, today) {
        seq![from] + due_dates(r, spec_next_date(r, from), today)
    } else {
        Seq::empty()
    }
}

#[via_fn]
proof fn due_dates_decreases(r: Recurrence, from: Date, today: Date) {
    if date_valid(from) && from.year < YEAR_CAP && date_valid(today) && today.year < YEAR_CAP
        && date_le(from, today) {
        let next = spec_next_date(r, from);
        lemma_next_date_increases(r, from);
        lemma_date_measure_monotone(from, next);
        if from != today {
            lemma_date_measure_monotone(from, today);
        }
        if date_le(next, today) {
            if next != today {
                lemma_date_measure_monotone(next, today);
            }
        }
    }
}

/// The occurrence dates of each template in turn, paired with the template.
pub open spec fn pairs_for_template(s: Seq<Expense>, t: Expense, today: Date) -> Seq<
    (Expense, Date),
> {
    due_dates(t.recurrence->0, spec_next_date(t.recurrence->0, anchor_of(s, t)), today).map_values(
        |d: Date| (t, d),
    )
}

/// The occurrence pairs of the templates `ts`, against the record set `s`.
pub open spec fn due_pairs(s: Seq<Expense>, ts: Seq<Expense>, today: Date) -> Seq<(Expense, Date)>
    decreases ts.len(),
{
    if ts.len() == 0 {
        Seq::empty()
    } else {
        due_pairs(s, ts.drop_last(), today) + pairs_for_template(s, ts.last(), today)
    }
}

/// Everything materialization generates for the record set `s`: one pair
/// (template, date) per occurrence, in template order.
pub open spec fn expected_pairs(s: Seq<Expense>, today: Date) -> Seq<(Expense, Date)> {
    due_pairs(s, templates_of(s), today)
}

/// `e` is the occurrence a template `t` generates for date `d` under id
/// `id`: the template's triple, the given date, not recurring.
pub open spec fn occ_of(e: Expense, t: Expense, d: Date, id: int) -> bool {
    &&& e.id == id
    &&& e.amount == t.amount
    &&& cat_eq(e.category, t.category)
    &&& e.description@ == t.description@
    &&& e.date == d
    &&& e.is_recurring == false
    &&& e.recurrence is None
}

/// `occs` are exactly the occurrences of `pairs`, with sequential ids from
/// `base`.
pub open spec fn occs_match(occs: Seq<Expense>, pairs: Seq<(Expense, Date)>, base: int) -> bool {
    &&& occs.len() == pairs.len()
    &&& forall|k: int|
        0 <= k < occs.len() ==> occ_of(#[trigger] occs[k], pairs[k].0, pairs[k].1, base + k)
}

/// Every template is a well-formed record of `s` and recurring.
pub proof fn lemma_templates_of(s: Seq<Expense>)
    ensures
        forall|j: int|
            0 <= j < templates_of(s).len() ==> is_template(#[trigger] templates_of(s)[j])
                && s.contains(templates_of(s)[j]),
    decreases s.len(),
{
    if s.len() > 0 {
        lemma_templates_of(s.drop_last());
        assert forall|j: int|
            0 <= j < templates_of(s).len() implies is_template(#[trigger] templates_of(s)[j])
            && s.contains(templates_of(s)[j]) by {
            if j < templates_of(s.drop_last()).len() {
                let e = templates_of(s.drop_last())[j];
                let i = choose|i: int| 0 <= i < s.drop_last().len() && s.drop_last()[i] == e;
                assert(s[i] == e);
            } else {
                assert(templates_of(s)[j] == s.last());
                assert(s[s.len() - 1] == s.last());
            }
        }
    }
}

/// Every generated date lies in `(from, today]`, is valid, and the chain
/// starts at `from`; past the last date the next step passes `today`.
pub proof fn lemma_due_dates_props(r: Recurrence, from: Date, today: Date)
    ensures
        forall|i: int|
            0 <= i < due_dates(r, from, today).len() ==> date_le(
                #[trigger] due_dates(r, from, today)[i],
                today,
            ) && date_valid(due_dates(r, from, today)[i]) && date_le(from, due_dates(
                r,
                from,
                today,
            )[i]),
        due_dates(r, from, today).len() > 0 ==> due_dates(r, from, today)[0] == from,
        due_dates(r, from, today).len() > 0 ==> !date_le(
            spec_next_date(r, due_dates(r, from, today).last()),
            today,
        ),
        due_dates(r, from, today).len() == 0 && date_valid(from) && from.year < YEAR_CAP
            && date_valid(today) && today.year < YEAR_CAP ==> !date_le(from, today),
    decreases (if date_le(from, today) {
        date_measure(today) - date_measure(from) + 1
    } else {
        0
    }),
{
    if date_valid(from) && from.year < YEAR_CAP && date_valid(today) && today.year < YEAR_CAP
        && date_le(from, today) {
        let next = spec_next_date(r, from);
        lemma_next_date_increases(r, from);
        lemma_date_measure_monotone(from, next);
        if from != today {
            lemma_date_measure_monotone(from, today);
        }
        if date_le(next, today) {
            if next != today {
                lemma_date_measure_monotone(next, today);
            }
        }
        lemma_due_dates_props(r, next, today);
        let tail = due_dates(r, next, today);
        let whole = due_dates(r, from, today);
        assert(whole == seq![from] + tail);
        assert forall|i: int|
            0 <= i < whole.len() implies date_le(#[trigger] whole[i], today) && date_valid(
            whole[i],
        ) && date_le(from, whole[i]) by {
            if i > 0 {
                assert(whole[i] == tail[i - 1]);
                assert(date_le(next, tail[i - 1]));
                if date_lt(from, next) && date_lt(next, tail[i - 1]) {
                    lemma_date_lt_transitive(from, next, tail[i - 1]);
                }
            }
        }
        if tail.len() > 0 {
            assert(whole.last() == tail.last());
        } else {
            assert(whole.last() == from);
            if next.year < YEAR_CAP {
            } else {
                assert(date_le(next, today) ==> next.year <= today.year);
                assert(!date_le(next, today));
            }
        }
    }
}

pub proof fn lemma_cat_eq_refl(c: crate::category::Category)
    ensures
        cat_eq(c, c),
{
}

pub proof fn lemma_same_triple_refl(t: Expense)
    ensures
        same_triple(t, t),
{
    lemma_cat_eq_refl(t.category);
}

pub proof fn lemma_date_le_transitive(a: Date, b: Date, c: Date)
    requires
        date_le(a, b),
        date_le(b, c),
    ensures
        date_le(a, c),
{
}

/// Every date a record set generates lies on or before `today`.
pub proof fn lemma_due_pairs_dates(s: Seq<Expense>, ts: Seq<Expense>, today: Date)
    ensures
        forall|k: int|
            0 <= k < due_pairs(s, ts, today).len() ==> date_le(
                (#[trigger] due_pairs(s, ts, today)[k]).1,
                today,
            ) && date_valid(due_pairs(s, ts, today)[k].1),
    decreases ts.len(),
{
    if ts.len() > 0 {
        lemma_due_pairs_dates(s, ts.drop_last(), today);
        let t = ts.last();
        let r = t.recurrence->0;
        let start = spec_next_date(r, anchor_of(s, t));
        lemma_due_dates_props(r, start, today);
        let prefix = due_pairs(s, ts.drop_last(), today);
        let tp = pairs_for_template(s, t, today);
        assert forall|k: int|
            0 <= k < due_pairs(s, ts, today).len() implies date_le(
            (#[trigger] due_pairs(s, ts, today)[k]).1,
            today,
        ) && date_valid(due_pairs(s, ts, today)[k].1) by {
            if k >= prefix.len() {
                assert(due_pairs(s, ts, today)[k] == tp[k - prefix.len()]);
                assert(tp[k - prefix.len()].1 == due_dates(r, start, today)[k - prefix.len()]);
            }
        }
    }
}

/// Materialization never generates an occurrence dated after `today`.
pub proof fn lemma_materialized_dates(s: Seq<Expense>, today: Date)
    ensures
        forall|k: int|
            0 <= k < expected_pairs(s, today).len() ==> date_le(
                (#[trigger] expected_pairs(s, today)[k]).1,
                today,
            ) && date_valid(expected_pairs(s, today)[k].1),
{
    lemma_due_pairs_dates(s, templates_of(s), today);
}

/// Appending one template to the processed prefix appends its pairs.
pub proof fn lemma_due_pairs_extend(s: Seq<Expense>, ts: Seq<Expense>, j: int, today: Date)
    requires
        0 <= j < ts.len(),
    ensures
        due_pairs(s, ts.subrange(0, j + 1), today) == due_pairs(s, ts.subrange(0, j), today)
            + pairs_for_template(s, ts[j], today),
{
    let p = ts.subrange(0, j + 1);
    assert(p.drop_last() =~= ts.subrange(0, j));
    assert(p.last() == ts[j]);
}

/// A prefix of the templates generates no more pairs than all of them.
pub proof fn lemma_due_pairs_prefix_le(s: Seq<Expense>, ts: Seq<Expense>, k: int, today: Date)
    requires
        0 <= k <= ts.len(),
    ensures
        due_pairs(s, ts.subrange(0, k), today).len() <= due_pairs(s, ts, today).len(),
    decreases ts.len() - k,
{
    if k == ts.len() {
        assert(ts.subrange(0, k) =~= ts);
    } else {
        lemma_due_pairs_extend(s, ts, k, today);
        lemma_due_pairs_prefix_le(s, ts, k + 1, today);
    }
}

/// The later of two optional dates.
pub open spec fn opt_later(x: Option<Date>, y: Option<Date>) -> Option<Date> {
    match (x, y) {
        (None, None) => None,
        (Some(d), None) => Some(d),
        (None, Some(d)) => Some(d),
        (Some(d1), Some(d2)) => if date_lt(d1, d2) {
            Some(d2)
        } else {
            Some(d1)
        },
    }
}

/// The most recent matching date over a concatenation combines the two
/// sides' results.
pub proof fn lemma_max_match_concat(a: Seq<Expense>, b: Seq<Expense>, t: Expense)
    ensures
        max_match(a + b, t) == opt_later(max_match(a, t), max_match(b, t)),
    decreases b.len(),
{
    if b.len() == 0 {
        assert(a + b =~= a);
    } else {
        lemma_max_match_concat(a, b.drop_last(), t);
        assert((a + b).drop_last() =~= a + b.drop_last());
        assert((a + b).last() == b.last());
    }
}

/// A record sharing the triple bounds the most recent matching date from
/// below.
pub proof fn lemma_max_match_ge(s: Seq<Expense>, t: Expense, i: int)
    requires
        0 <= i < s.len(),
        same_triple(s[i], t),
    ensures
        max_match(s, t) is Some,
        date_le(s[i].date, max_match(s, t)->0),
    decreases s.len(),
{
    if i < s.len() - 1 {
        lemma_max_match_ge(s.drop_last(), t, i);
        assert(s.drop_last()[i] == s[i]);
    }
}

/// The most recent matching date is a matching record's own date.
pub proof fn lemma_max_match_in(s: Seq<Expense>, t: Expense)
    ensures
        max_match(s, t) matches Some(d) ==> exists|i: int|
            0 <= i < s.len() && same_triple(#[trigger] s[i], t) && s[i].date == d,
    decreases s.len(),
{
    if s.len() > 0 {
        lemma_max_match_in(s.drop_last(), t);
        if max_match(s, t) is Some {
            let d = max_match(s, t)->0;
            if same_triple(s.last(), t) && s.last().date == d {
                assert(s[s.len() - 1] == s.last());
            } else {
                assert(max_match(s.drop_last(), t) == Some(d));
                let i = choose|i: int|
                    0 <= i < s.drop_last().len() && same_triple(#[trigger] s.drop_last()[i], t)
                        && s.drop_last()[i].date == d;
                assert(s[i] == s.drop_last()[i]);
            }
        }
    }
}

/// Occurrences are never recurring, so appending them leaves the template
/// set unchanged.
pub proof fn lemma_templates_concat(s: Seq<Expense>, occs: Seq<Expense>)
    requires
        forall|k: int| 0 <= k < occs.len() ==> !is_template(#[trigger] occs[k]),
    ensures
        templates_of(s + occs) == templates_of(s),
    decreases occs.len(),
{
    if occs.len() == 0 {
        assert(s + occs =~= s);
    } else {
        assert(forall|k: int|
            0 <= k < occs.drop_last().len() ==> !is_template(#[trigger] occs.drop_last()[k]));
        lemma_templates_concat(s, occs.drop_last());
        assert((s + occs).drop_last() =~= s + occs.drop_last());
        assert((s + occs).last() == occs.last());
        assert(occs[occs.len() - 1] == occs.last());
    }
}

/// Each pair a template generates occurs in the combined pair list.
pub proof fn lemma_due_pairs_contains(
    s: Seq<Expense>,
    ts: Seq<Expense>,
    today: Date,
    j: int,
    i: int,
)
    requires
        0 <= j < ts.len(),
        0 <= i < pairs_for_template(s, ts[j], today).len(),
    ensures
        due_pairs(s, ts, today).contains(pairs_for_template(s, ts[j], today)[i]),
    decreases ts.len(),
{
    let whole = due_pairs(s, ts, today);
    let prefix = due_pairs(s, ts.drop_last(), today);
    if j == ts.len() - 1 {
        assert(ts[j] == ts.last());
        assert(whole[prefix.len() + i] == pairs_for_template(s, ts[j], today)[i]);
    } else {
        assert(ts.drop_last()[j] == ts[j]);
        lemma_due_pairs_contains(s, ts.drop_last(), today, j, i);
        let w = choose|w: int|
            0 <= w < prefix.len() && prefix[w] == pairs_for_template(s, ts[j], today)[i];
        assert(whole[w] == prefix[w]);
    }
}

/// When no template generates anything, the combined pair list is empty.
pub proof fn lemma_due_pairs_all_empty(s: Seq<Expense>, ts: Seq<Expense>, today: Date)
    requires
        forall|j: int|
            0 <= j < ts.len() ==> pairs_for_template(s, #[trigger] ts[j], today).len() == 0,
    ensures
        due_pairs(s, ts, today).len() == 0,
    decreases ts.len(),
{
    if ts.len() > 0 {
        assert(forall|j: int|
            0 <= j < ts.drop_last().len() ==> pairs_for_template(
                s,
                #[trigger] ts.drop_last()[j],
                today,
            ).len() == 0);
        lemma_due_pairs_all_empty(s, ts.drop_last(), today);
        assert(ts[ts.len() - 1] == ts.last());
    }
}

/// Once caught up, materialization has nothing more to generate: appending
/// the generated occurrences and running the engine again against the same
/// `today` produces zero new records.
pub proof fn lemma_materialize_idempotent(s: Seq<Expense>, occs: Seq<Expense>, today: Date)
    requires
        all_wf(s),
        date_valid(today),
        today.year < YEAR_CAP,
        occs_match(occs, expected_pairs(s, today), spec_next_id(s)),
    ensures
        expected_pairs(s + occs, today).len() == 0,
{
    let s2 = s + occs;
    let ts = templates_of(s);
    let pairs = expected_pairs(s, today);
    lemma_materialized_dates(s, today);
    lemma_templates_of(s);
    assert(forall|k: int| 0 <= k < occs.len() ==> !is_template(#[trigger] occs[k]));
    lemma_templates_concat(s, occs);
    assert(templates_of(s2) == ts);

    assert forall|j: int|
        0 <= j < ts.len() implies pairs_for_template(s2, #[trigger] ts[j], today).len() == 0 by {
        let t = ts[j];
        let r = t.recurrence->0;
        let wi = choose|wi: int| 0 <= wi < s.len() && s[wi] == t;
        assert(expense_wf(t));

        // The first-pass anchor and chain for this template.
        lemma_same_triple_refl(t);
        lemma_max_match_ge(s, t, wi);
        lemma_max_match_in(s, t);
        let a = anchor_of(s, t);
        assert(max_match(s, t) is Some);
        let ai = choose|ai: int|
            0 <= ai < s.len() && same_triple(#[trigger] s[ai], t) && s[ai].date == a;
        assert(expense_wf(s[ai]));
        assert(date_valid(a) && a.year < YEAR_CAP);
        let start = spec_next_date(r, a);
        let chain = due_dates(r, start, today);
        lemma_next_date_increases(r, a);
        lemma_due_dates_props(r, start, today);

        // The date whose next step already passes today.
        let e = if chain.len() > 0 {
            chain.last()
        } else {
            a
        };
        assert(!date_le(spec_next_date(r, e), today)) by {
            if chain.len() == 0 {
                if start.year < YEAR_CAP {
                    assert(!date_le(start, today));
                } else {
                    assert(date_le(start, today) ==> start.year <= today.year);
                }
            }
        }
        assert(date_valid(e) && e.year < YEAR_CAP) by {
            if chain.len() > 0 {
                assert(date_le(chain.last(), today));
                assert(chain.last().year <= today.year);
            }
        }

        // The second-pass anchor is at least that date.
        lemma_max_match_concat(s, occs, t);
        let a2 = anchor_of(s2, t);
        assert(max_match(s2, t) is Some);
        assert(date_le(e, a2)) by {
            if chain.len() > 0 {
                // The last occurrence of this template's chain is in occs.
                let tp = pairs_for_template(s, t, today);
                assert(tp[chain.len() - 1] == (t, chain.last()));
                lemma_due_pairs_contains(s, ts, today, j, chain.len() - 1);
                let w = choose|w: int| 0 <= w < pairs.len() && pairs[w] == (t, chain.last());
                assert(occ_of(occs[w], t, chain.last(), spec_next_id(s) + w));
                lemma_cat_eq_refl(t.category);
                assert(same_triple(occs[w], t));
                lemma_max_match_ge(occs, t, w);
                let mb = max_match(occs, t)->0;
                assert(date_le(chain.last(), mb));
                assert(date_le(mb, a2));
                lemma_date_le_transitive(chain.last(), mb, a2);
            } else {
                assert(date_le(a, a2));
            }
        }

        // Validity of the second-pass anchor.
        assert(date_valid(a2) && a2.year < YEAR_CAP) by {
            lemma_max_match_in(s2, t);
            let bi = choose|bi: int|
                0 <= bi < s2.len() && same_triple(#[trigger] s2[bi], t) && s2[bi].date == a2;
            if bi < s.len() {
                assert(s2[bi] == s[bi]);
                assert(expense_wf(s[bi]));
            } else {
                assert(s2[bi] == occs[bi - s.len()]);
                let k = bi - s.len();
                assert(occ_of(occs[k], pairs[k].0, pairs[k].1, spec_next_id(s) + k));
                assert(occs[k].date == pairs[k].1);
                assert(date_le(pairs[k].1, today) && date_valid(pairs[k].1));
                assert(a2.year <= today.year);
            }
        }

        // Its next step passes today too, so the second-pass chain is empty.
        lemma_next_date_monotone(r, e, a2);
        let start2 = spec_next_date(r, a2);
        assert(!date_le(start2, today)) by {
            if date_le(start2, today) {
                lemma_date_le_transitive(spec_next_date(r, e), start2, today);
            }
        }
        assert(due_dates(r, start2, today).len() == 0);
        assert(pairs_for_template(s2, t, today).len() == due_dates(
            r,
            spec_next_date(r, anchor_of(s2, t)),
            today,
        ).len());
    }
    lemma_due_pairs_all_empty(s2, ts, today);
}

/// The anchor: the most recent date among records sharing `t`'s triple, or
/// `t`'s own date.
fn anchor_for(expenses: &Vec<Expense>, t: &Expense) -> (r: Date)
    requires
        all_wf(expenses@),
        expense_wf(*t),
    ensures
        r == anchor_of(expenses@, *t),
        date_valid(r),
        r.year < YEAR_CAP,
{
    let mut best: Option<Date> = None;
    let mut i: usize = 0;
    while i < expenses.len()
        invariant
            0 <= i <= expenses@.len(),
            all_wf(expenses@),
            expense_wf(*t),
            best == max_match(expenses@.subrange(0, i as int), *t),
            best matches Some(d) ==> date_valid(d) && d.year < YEAR_CAP,
        decreases expenses@.len() - i,
    {
        proof {
            assert(expenses@.subrange(0, i + 1).drop_last() =~= expenses@.subrange(0, i as int));
            assert(expenses@.subrange(0, i + 1).last() == expenses@[i as int]);
            assert(expense_wf(expenses@[i as int]));
        }
        let e = &expenses[i];
        let matches_triple = crate::text::str_eq(e.description.as_str(), t.description.as_str())
            && e.category == t.category && e.amount == t.amount;
        if matches_triple {
            let better = match best {
                None => true,
                Some(b) => b.before(&e.date),
            };
            if better {
                best = Some(e.date);
            }
        }
        i = i + 1;
    }
    proof {
        assert(expenses@.subrange(0, expenses@.len() as int) =~= expenses@);
    }
    match best {
        None => t.date,
        Some(d) => d,
    }
}

/// Generate every due occurrence of every template and append them to the
/// records, with sequential ids from the next free id. Returns how many
/// records were generated; the caller persists the set when any were.
#[verifier::loop_isolation(false)]
pub fn materialize_due(expenses: &mut Vec<Expense>, today: Date) -> (count: usize)
    requires
        all_wf(old(expenses)@),
        date_valid(today),
        today.year < YEAR_CAP,
        spec_next_id(old(expenses)@) + expected_pairs(old(expenses)@, today).len() <= u64::MAX,
    ensures
        final(expenses)@.len() == old(expenses)@.len() + expected_pairs(
            old(expenses)@,
            today,
        ).len(),
        final(expenses)@.subrange(0, old(expenses)@.len() as int) == old(expenses)@,
        occs_match(
            final(expenses)@.skip(old(expenses)@.len() as int),
            expected_pairs(old(expenses)@, today),
            spec_next_id(old(expenses)@),
        ),
        all_wf(final(expenses)@),
        count == expected_pairs(old(expenses)@, today).len(),
{
    let ghost s0 = expenses@;
    let ghost total = expected_pairs(s0, today);

    let mut templates: Vec<Expense> = Vec::new();
    let mut i: usize = 0;
    while i < expenses.len()
        invariant
            0 <= i <= expenses@.len(),
            templates@ == templates_of(expenses@.subrange(0, i as int)),
        decreases expenses@.len() - i,
    {
        proof {
            assert(expenses@.subrange(0, i + 1).drop_last() =~= expenses@.subrange(0, i as int));
            assert(expenses@.subrange(0, i + 1).last() == expenses@[i as int]);
        }
        let e = &expenses[i];
        if e.is_recurring && e.recurrence.is_some() {
            templates.push(e.duplicate());
        }
        i = i + 1;
    }
    proof {
        assert(expenses@.subrange(0, expenses@.len() as int) =~= expenses@);
        lemma_templates_of(expenses@);
        lemma_max_id_bounds(expenses@);
    }

    let base = next_id(expenses);
    let mut new_expenses: Vec<Expense> = Vec::new();
    let mut k: usize = 0;
    while k < templates.len()
        invariant
            0 <= k <= templates@.len(),
            occs_match(
                new_expenses@,
                due_pairs(expenses@, templates@.subrange(0, k as int), today),
                base as int,
            ),
            all_wf(new_expenses@),
        decreases templates@.len() - k,
    {
        proof {
            lemma_due_pairs_extend(expenses@, templates@, k as int, today);
            lemma_due_pairs_prefix_le(expenses@, templates@, k + 1, today);
            assert(templates@[k as int] == templates_of(expenses@)[k as int]);
            assert(is_template(templates@[k as int]));
            let w = choose|w: int|
                0 <= w < expenses@.len() && expenses@[w] == templates@[k as int];
            assert(expense_wf(expenses@[w]));
        }
        let t = &templates[k];
        let rec = match t.recurrence {
            Some(r) => r,
            None => {
                proof {
                    assert(false);
                }
                Recurrence::Daily
            },
        };
        let anchor = anchor_for(expenses, t);
        let ghost start = spec_next_date(rec, anchor_of(expenses@, *t));
        let ghost chain = due_dates(rec, start, today);
        let ghost tpairs = pairs_for_template(expenses@, *t, today);
        let ghost prefix_pairs = due_pairs(expenses@, templates@.subrange(0, k as int), today);
        proof {
            lemma_due_dates_props(rec, start, today);
            assert(tpairs =~= chain.map_values(|d: Date| (*t, d)));
        }
        let mut next = rec.next_date(anchor);
        let ghost mut done: int = 0;
        while next.on_or_before(&today)
            invariant
                0 <= done <= chain.len(),
                date_valid(next),
                due_dates(rec, next, today) == chain.skip(done),
                new_expenses@.len() == prefix_pairs.len() + done,
                occs_match(new_expenses@, prefix_pairs + tpairs.take(done), base as int),
                all_wf(new_expenses@),
            decreases (if date_le(next, today) {
                date_measure(today) - date_measure(next) + 1
            } else {
                0
            }),
        {
            proof {
                lemma_due_dates_props(rec, next, today);
                assert(due_dates(rec, next, today).len() > 0);
                assert(chain.skip(done)[0] == next);
                assert(chain[done] == next);
                assert(done < chain.len());
                assert(prefix_pairs.len() + chain.len() == due_pairs(
                    expenses@,
                    templates@.subrange(0, k + 1),
                    today,
                ).len());
                assert(base + prefix_pairs.len() + done < u64::MAX);
            }
            let id = base + (new_expenses.len() as u64);
            new_expenses.push(
                Expense::new(
                    id,
                    t.amount,
                    t.category.duplicate(),
                    t.description.clone(),
                    next,
                    false,
                    None,
                ),
            );
            let prev = next;
            next = rec.next_date(prev);
            proof {
                done = done + 1;
                assert(due_dates(rec, prev, today) == seq![prev] + due_dates(rec, next, today));
                assert(chain.skip(done - 1) == due_dates(rec, prev, today));
                assert forall|w: int|
                    0 <= w < due_dates(rec, next, today).len() implies chain.skip(done)[w]
                    == due_dates(rec, next, today)[w] by {
                    assert(chain.skip(done)[w] == chain[done + w]);
                    assert(chain.skip(done - 1)[w + 1] == chain[done + w]);
                    assert(due_dates(rec, prev, today)[w + 1] == due_dates(rec, next, today)[w]);
                }
                assert(chain.skip(done).len() == due_dates(rec, next, today).len());
                assert(chain.skip(done) =~= due_dates(rec, next, today));
                assert(tpairs[done - 1] == (*t, chain[done - 1]));
                assert((prefix_pairs + tpairs.take(done)) =~= (prefix_pairs + tpairs.take(done - 1))
                    + seq![tpairs[done - 1]]);
                if date_le(next, today) {
                    lemma_date_measure_monotone(prev, next);
                    if next != today {
                        lemma_date_measure_monotone(next, today);
                    }
                }
            }
        }
        proof {
            assert(due_dates(rec, next, today) == Seq::<Date>::empty());
            assert(chain.skip(done).len() == 0);
            assert(done == chain.len());
            assert(tpairs.take(done) =~= tpairs);
            assert((prefix_pairs + tpairs) == due_pairs(
                expenses@,
                templates@.subrange(0, k + 1),
                today,
            ));
        }
        k = k + 1;
    }
    proof {
        assert(templates@.subrange(0, templates@.len() as int) =~= templates@);
        assert(due_pairs(expenses@, templates@, today) == total);
    }
    let count = new_expenses.len();
    let ghost occs = new_expenses@;
    expenses.append(&mut new_expenses);
    proof {
        assert(expenses@.subrange(0, s0.len() as int) =~= s0);
        assert(expenses@.skip(s0.len() as int) =~= occs);
        assert forall|j: int| 0 <= j < expenses@.len() implies expense_wf(#[trigger] expenses@[j]) by {
            if j < s0.len() {
                assert(expenses@[j] == s0[j]);
            } else {
                assert(expenses@[j] == occs[j - s0.len()]);
            }
        }
    }
    count
}

} // verus!
