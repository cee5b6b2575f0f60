//! The application state: the owned record and budget sequences, the
//! filtered/sorted view with its selection cursor, the month selection, and
//! the add/edit form.
//!
//! Every mutation recomputes the filtered view; persistence and rendering
//! happen outside the library, which hands them plain values.

use vstd::prelude::*;
use crate::agg::{
    in_month, month_filter, month_total, year_total, cat_total, day_total, lemma_month_total_bound,
    lemma_year_total_bound, lemma_cat_total_bound, lemma_day_total_bound, lemma_sum_fits_u128,
};
use crate::category::{Category, cat_name, cat_eq, spec_cat_index};
use crate::date::{
    Date, YEAR_CAP, date_valid, date_text_valid, spec_parsed_date, spec_date_string, format_date,
    parse_date,
};
use crate::engine::{expected_pairs, occs_match, materialize_due};
use crate::expense::{
    Expense, Budget, expense_wf, all_wf, spec_next_id, spec_max_id, next_id as records_next_id,
};
use crate::filter::{filtered_ok, compute_filtered};
use crate::recurrence::Recurrence;
use crate::text::{amount_valid, amount_cents, spec_cents_string, cents_to_string, parse_amount};

verus! {

#[derive(Debug, Clone, Copy, PartialEq, Eq, Structural)]
pub enum Tab {
    Dashboard,
    Expenses,
    Monthly,
}

impl Tab {
    /// The tab titles, in tab order.
    pub fn titles() -> (r: Vec<&'static str>)
        ensures
            r@.len() == 3,
            r@[0]@ == "Dashboard [1]"@,
            r@[1]@ == "Expenses [2]"@,
            r@[2]@ == "Monthly [3]"@,
    {
        vec!["Dashboard [1]", "Expenses [2]", "Monthly [3]"]
    }

    /// The position of this tab.
    pub fn index(&self) -> (r: usize)
        ensures
            r == spec_tab_index(*self),
    {
        match self {
            Tab::Dashboard => 0,
            Tab::Expenses => 1,
            Tab::Monthly => 2,
        }
    }

    /// The tab at a position; out-of-range positions select the dashboard.
    pub fn from_index(i: usize) -> (r: Tab)
        ensures
            i == 0 ==> r == Tab::Dashboard,
            i == 1 ==> r == Tab::Expenses,
            i == 2 ==> r == Tab::Monthly,
            i >= 3 ==> r == Tab::Dashboard,
    {
        match i {
            0 => Tab::Dashboard,
            1 => Tab::Expenses,
            2 => Tab::Monthly,
            _ => Tab::Dashboard,
        }
    }
}

pub open spec fn spec_tab_index(t: Tab) -> int {
    match t {
        Tab::Dashboard => 0,
        Tab::Expenses => 1,
        Tab::Monthly => 2,
    }
}

#[derive(Debug, Clone, Copy, PartialEq, Eq, Structural)]
pub enum InputMode {
    Normal,
    Search,
    AddForm,
    EditForm,
    HelpPopup,
    ConfirmDelete,
}

#[derive(Debug, Clone, Copy, PartialEq, Eq, Structural)]
pub enum FormField {
    Amount,
    Category,
    Description,
    Date,
    Recurring,
    RecurrenceType,
}

impl FormField {
    /// The field after this one, wrapping from the last back to the first.
    pub fn next(&self) -> (r: FormField)
        ensures
            r == spec_field_next(*self),
    {
        match self {
            FormField::Amount => FormField::Category,
            FormField::Category => FormField::Description,
            FormField::Description => FormField::Date,
            FormField::Date => FormField::Recurring,
            FormField::Recurring => FormField::RecurrenceType,
            FormField::RecurrenceType => FormField::Amount,
        }
    }

    /// The field before this one, wrapping from the first back to the last.
    pub fn prev(&self) -> (r: FormField)
        ensures
            r == spec_field_prev(*self),
            spec_field_next(r) == *self,
    {
        match self {
            FormField::Amount => FormField::RecurrenceType,
            FormField::Category => FormField::Amount,
            FormField::Description => FormField::Category,
            FormField::Date => FormField::Description,
            FormField::Recurring => FormField::Date,
            FormField::RecurrenceType => FormField::Recurring,
        }
    }
}

pub open spec fn spec_field_next(f: FormField) -> FormField {
    match f {
        FormField::Amount => FormField::Category,
        FormField::Category => FormField::Description,
        FormField::Description => FormField::Date,
        FormField::Date => FormField::Recurring,
        FormField::Recurring => FormField::RecurrenceType,
        FormField::RecurrenceType => FormField::Amount,
    }
}

pub open spec fn spec_field_prev(f: FormField) -> FormField {
    match f {
        FormField::Amount => FormField::RecurrenceType,
        FormField::Category => FormField::Amount,
        FormField::Description => FormField::Category,
        FormField::Date => FormField::Description,
        FormField::Recurring => FormField::Date,
        FormField::RecurrenceType => FormField::Recurring,
    }
}

/// The add/edit form: raw field inputs, converted to a record on submit.
#[derive(Debug, Clone)]
pub struct FormState {
    pub amount_input: String,
    pub category_index: usize,
    pub custom_category: String,
    pub description_input: String,
    pub date_input: String,
    pub is_recurring: bool,
    pub recurrence_index: usize,
    pub active_field: FormField,
    pub editing_id: Option<u64>,
}

impl FormState {
    /// An empty form whose date field starts at `today`.
    pub fn new(today: Date) -> (r: FormState)
        requires
            date_valid(today),
            today.year <= 9999,
        ensures
            r.amount_input@.len() == 0,
            r.category_index == 0,
            r.custom_category@.len() == 0,
            r.description_input@.len() == 0,
            r.date_input@ == spec_date_string(today),
            r.is_recurring == false,
            r.recurrence_index == 0,
            r.active_field == FormField::Amount,
            r.editing_id is None,
    {
        FormState {
            amount_input: String::new(),
            category_index: 0,
            custom_category: String::new(),
            description_input: String::new(),
            date_input: format_date(today),
            is_recurring: false,
            recurrence_index: 0,
            active_field: FormField::Amount,
            editing_id: None,
        }
    }

    /// A form pre-filled from an existing record, for editing it.
    pub fn from_expense(expense: &Expense) -> (r: FormState)
        requires
            date_valid(expense.date),
            expense.date.year <= 9999,
        ensures
            r.amount_input@ == spec_cents_string(expense.amount as int),
            r.category_index == spec_cat_index(expense.category),
            (expense.category matches Category::Other(l) ==> r.custom_category@ == l@),
            r.description_input@ == expense.description@,
            r.date_input@ == spec_date_string(expense.date),
            r.is_recurring == expense.is_recurring,
            r.recurrence_index == (match expense.recurrence {
                Some(rec) => match rec {
                    Recurrence::Daily => 0int,
                    Recurrence::Weekly => 1,
                    Recurrence::Monthly => 2,
                    Recurrence::Yearly => 3,
                },
                None => 0,
            }),
            r.active_field == FormField::Amount,
            r.editing_id == Some(expense.id),
    {
        let custom = match &expense.category {
            Category::Other(s) => s.clone(),
            _ => String::new(),
        };
        let recurrence_index = match expense.recurrence {
            Some(rec) => rec.to_index(),
            None => 0,
        };
        FormState {
            amount_input: cents_to_string(expense.amount),
            category_index: expense.category.to_index(),
            custom_category: custom,
            description_input: expense.description.clone(),
            date_input: format_date(expense.date),
            is_recurring: expense.is_recurring,
            recurrence_index,
            active_field: FormField::Amount,
            editing_id: Some(expense.id),
        }
    }

    /// Convert the form to a record under the given id. Succeeds exactly
    /// when the amount field is a well-formed positive amount that fits in
    /// cents and the date field is a well-formed calendar date; the result
    /// is then a well-formed record.
    pub fn to_expense(&self, id: u64) -> (r: Option<Expense>)
        ensures
            r is Some <==> (amount_valid(self.amount_input@) && amount_cents(self.amount_input@)
                <= u64::MAX && amount_cents(self.amount_input@) > 0 && date_text_valid(
                self.date_input@,
            )),
            r matches Some(e) ==> {
                &&& e.id == id
                &&& e.amount == amount_cents(self.amount_input@)
                &&& (self.category_index == 9 ==> (e.category matches Category::Other(l) && l@
                    == self.custom_category@))
                &&& (self.category_index > 9 ==> (e.category matches Category::Other(l) && l@.len()
                    == 0))
                &&& spec_cat_index(e.category) == (if self.category_index <= 9 {
                    self.category_index as int
                } else {
                    9
                })
                &&& e.description@ == self.description_input@
                &&& e.date == spec_parsed_date(self.date_input@)
                &&& e.is_recurring == self.is_recurring
                &&& (self.is_recurring ==> e.recurrence == Some(
                    crate::recurrence::spec_rec_from_index(self.recurrence_index as int),
                ))
                &&& (!self.is_recurring ==> e.recurrence is None)
                &&& expense_wf(e)
            },
    {
        let amount = match parse_amount(self.amount_input.as_str()) {
            Some(a) => a,
            None => {
                return None;
            },
        };
        if amount == 0 {
            return None;
        }
        let date = match parse_date(self.date_input.as_str()) {
            Some(d) => d,
            None => {
                return None;
            },
        };
        let custom = if self.category_index == 9 {
            Some(self.custom_category.clone())
        } else {
            None
        };
        let category = Category::from_index(self.category_index, custom);
        let recurrence = if self.is_recurring {
            Some(Recurrence::from_index(self.recurrence_index))
        } else {
            None
        };
        Some(
            Expense::new(
                id,
                amount,
                category,
                self.description_input.clone(),
                date,
                self.is_recurring,
                recurrence,
            ),
        )
    }
}

/// The owned application state.
#[derive(Debug)]
pub struct App {
    pub running: bool,
    pub active_tab: Tab,
    pub input_mode: InputMode,
    pub expenses: Vec<Expense>,
    pub budgets: Vec<Budget>,
    /// Selection cursor into the filtered view.
    pub expense_table_index: usize,
    pub search_query: String,
    /// The filtered, sorted view: indices into `expenses`.
    pub filtered_indices: Vec<usize>,
    pub show_recurring_only: bool,
    pub selected_month: u32,
    pub selected_year: i32,
    pub form: FormState,
    pub status_message: Option<String>,
}

/// Every view index points into the record sequence.
pub open spec fn indices_valid(s: Seq<Expense>, idx: Seq<usize>) -> bool {
    forall|k: int| 0 <= k < idx.len() ==> (#[trigger] idx[k]) < s.len()
}

/// Where the cursor lands after the view takes a new length: clamped to the
/// last entry, or zero when the view is empty.
pub open spec fn cursor_after(old_cursor: int, len: int) -> int {
    if len == 0 {
        0
    } else if old_cursor >= len {
        len - 1
    } else {
        old_cursor
    }
}

/// All fields equal except the records and the derived view.
pub open spec fn same_core(a: App, b: App) -> bool {
    &&& a.running == b.running
    &&& a.active_tab == b.active_tab
    &&& a.input_mode == b.input_mode
    &&& a.budgets == b.budgets
    &&& a.search_query == b.search_query
    &&& a.show_recurring_only == b.show_recurring_only
    &&& a.selected_month == b.selected_month
    &&& a.selected_year == b.selected_year
    &&& a.form == b.form
    &&& a.status_message == b.status_message
}

impl App {
    /// The cursor is inside the view, or zero when the view is empty.
    pub open spec fn cursor_ok(self) -> bool {
        if self.filtered_indices@.len() == 0 {
            self.expense_table_index == 0
        } else {
            self.expense_table_index < self.filtered_indices@.len()
        }
    }

    /// The view is current: the filtered, sorted indices of the records
    /// under the active query and flag, with the cursor in range.
    pub open spec fn view_ok(self) -> bool {
        &&& filtered_ok(
            self.expenses@,
            self.search_query@,
            self.show_recurring_only,
            self.filtered_indices@,
        )
        &&& self.cursor_ok()
    }

    /// Build the state from loaded records and budgets: materialize due
    /// recurring occurrences against `today`, then compute the initial view.
    pub fn new(expenses: Vec<Expense>, budgets: Vec<Budget>, today: Date) -> (app: App)
        requires
            all_wf(expenses@),
            date_valid(today),
            today.year <= 9999,
            spec_next_id(expenses@) + expected_pairs(expenses@, today).len() <= u64::MAX,
        ensures
            app.running == true,
            app.active_tab == Tab::Dashboard,
            app.input_mode == InputMode::Normal,
            app.budgets == budgets,
            app.selected_month == today.month,
            app.selected_year == today.year,
            app.search_query@.len() == 0,
            app.show_recurring_only == false,
            app.expense_table_index == 0,
            app.status_message is None,
            app.form.editing_id is None,
            app.expenses@.len() == expenses@.len() + expected_pairs(expenses@, today).len(),
            app.expenses@.subrange(0, expenses@.len() as int) == expenses@,
            occs_match(
                app.expenses@.skip(expenses@.len() as int),
                expected_pairs(expenses@, today),
                spec_next_id(expenses@),
            ),
            all_wf(app.expenses@),
            app.view_ok(),
    {
        let mut app = App {
            running: true,
            active_tab: Tab::Dashboard,
            input_mode: InputMode::Normal,
            expenses,
            budgets,
            expense_table_index: 0,
            search_query: String::new(),
            filtered_indices: Vec::new(),
            show_recurring_only: false,
            selected_month: today.month as u32,
            selected_year: today.year,
            form: FormState::new(today),
            status_message: None,
        };
        materialize_due(&mut app.expenses, today);
        app.update_filtered_indices();
        app
    }

    /// Recompute the filtered, sorted view and clamp the cursor: to the last
    /// entry if the view shrank under it, to zero if the view is empty.
    pub fn update_filtered_indices(&mut self)
        ensures
            same_core(*final(self), *old(self)),
            final(self).expenses == old(self).expenses,
            filtered_ok(
                final(self).expenses@,
                final(self).search_query@,
                final(self).show_recurring_only,
                final(self).filtered_indices@,
            ),
            final(self).expense_table_index == cursor_after(
                old(self).expense_table_index as int,
                final(self).filtered_indices@.len() as int,
            ),
            final(self).view_ok(),
    {
        let filtered = compute_filtered(
            &self.expenses,
            self.search_query.as_str(),
            self.show_recurring_only,
        );
        self.filtered_indices = filtered;
        if self.filtered_indices.len() == 0 {
            self.expense_table_index = 0;
        } else if self.expense_table_index >= self.filtered_indices.len() {
            self.expense_table_index = self.filtered_indices.len() - 1;
        }
    }

    /// The record under the cursor, if the view is non-empty.
    pub fn selected_expense(&self) -> (r: Option<&Expense>)
        requires
            indices_valid(self.expenses@, self.filtered_indices@),
        ensures
            r is Some <==> self.expense_table_index < self.filtered_indices@.len(),
            r matches Some(e) ==> *e == self.expenses@[self.filtered_indices@[self.expense_table_index as int] as int],
    {
        if self.expense_table_index < self.filtered_indices.len() {
            let target = self.filtered_indices[self.expense_table_index];
            Some(&self.expenses[target])
        } else {
            None
        }
    }

    /// Append a record and recompute the view. The caller persists the new
    /// set afterwards.
    pub fn add_expense(&mut self, expense: Expense)
        ensures
            same_core(*final(self), *old(self)),
            final(self).expenses@ == old(self).expenses@.push(expense),
            final(self).view_ok(),
            final(self).expense_table_index == cursor_after(
                old(self).expense_table_index as int,
                final(self).filtered_indices@.len() as int,
            ),
            all_wf(old(self).expenses@) && expense_wf(expense) ==> all_wf(final(self).expenses@),
    {
        self.expenses.push(expense);
        self.update_filtered_indices();
        proof {
            let s0 = old(self).expenses@;
            if all_wf(s0) && expense_wf(expense) {
                assert forall|i: int|
                    0 <= i < self.expenses@.len() implies expense_wf(
                    #[trigger] self.expenses@[i],
                ) by {
                    if i < s0.len() {
                        assert(self.expenses@[i] == s0[i]);
                    }
                }
            }
        }
    }

    /// Replace the first record carrying `id` with `updated`, keeping that
    /// id's position, and recompute the view; without a match nothing
    /// changes. The caller persists the new set afterwards.
    pub fn update_expense(&mut self, id: u64, updated: Expense)
        ensures
            (!exists|p: int| id_found_at(old(self).expenses@, id, p)) ==> *final(self) == *old(self),
            (exists|p: int| id_found_at(old(self).expenses@, id, p)) ==> {
                let p = choose|p: int| id_found_at(old(self).expenses@, id, p);
                &&& same_core(*final(self), *old(self))
                &&& final(self).expenses@ == old(self).expenses@.update(p, updated)
                &&& final(self).view_ok()
                &&& final(self).expense_table_index == cursor_after(
                    old(self).expense_table_index as int,
                    final(self).filtered_indices@.len() as int,
                )
                &&& (all_wf(old(self).expenses@) && expense_wf(updated) ==> all_wf(
                    final(self).expenses@,
                ))
            },
    {
        let ghost s0 = self.expenses@;
        let mut pos: usize = 0;
        let n = self.expenses.len();
        while pos < n
            invariant
                0 <= pos <= n,
                n == self.expenses@.len(),
                self.expenses@ == s0,
                *self == *old(self),
                forall|w: int| 0 <= w < pos ==> s0[w].id != id,
            decreases n - pos,
        {
            if self.expenses[pos].id == id {
                proof {
                    assert(id_found_at(s0, id, pos as int));
                }
                let prev = self.expenses.remove(pos);
                self.expenses.insert(pos, updated);
                proof {
                    assert(self.expenses@ =~= s0.update(pos as int, updated));
                    let q = choose|q: int| id_found_at(s0, id, q);
                    assert(q == pos as int) by {
                        if q < pos as int {
                            assert(s0[q].id != id);
                        }
                        if q > pos as int {
                            assert(s0[pos as int].id != id);
                        }
                    }
                }
                self.update_filtered_indices();
                proof {
                    if all_wf(s0) && expense_wf(updated) {
                        assert forall|i: int|
                            0 <= i < self.expenses@.len() implies expense_wf(
                            #[trigger] self.expenses@[i],
                        ) by {
                            if i != pos as int {
                                assert(self.expenses@[i] == s0[i]);
                            }
                        }
                    }
                }
                return ;
            }
            pos = pos + 1;
        }
        proof {
            assert forall|p: int| !id_found_at(s0, id, p) by {
                if 0 <= p < s0.len() {
                    assert(s0[p].id != id);
                }
            }
        }
    }

    /// Remove the record under the cursor, if any, and recompute the view.
    /// The caller persists the new set afterwards.
    pub fn delete_selected_expense(&mut self)
        requires
            indices_valid(old(self).expenses@, old(self).filtered_indices@),
        ensures
            old(self).expense_table_index >= old(self).filtered_indices@.len() ==> *final(self)
                == *old(self),
            old(self).expense_table_index < old(self).filtered_indices@.len() ==> {
                let target =
                    old(self).filtered_indices@[old(self).expense_table_index as int] as int;
                &&& same_core(*final(self), *old(self))
                &&& final(self).expenses@ == old(self).expenses@.remove(target)
                &&& final(self).view_ok()
                &&& final(self).expense_table_index == cursor_after(
                    old(self).expense_table_index as int,
                    final(self).filtered_indices@.len() as int,
                )
                &&& (all_wf(old(self).expenses@) ==> all_wf(final(self).expenses@))
            },
    {
        if self.expense_table_index < self.filtered_indices.len() {
            let target = self.filtered_indices[self.expense_table_index];
            let ghost s0 = self.expenses@;
            self.expenses.remove(target);
            self.update_filtered_indices();
            proof {
                if all_wf(s0) {
                    assert forall|i: int|
                        0 <= i < self.expenses@.len() implies expense_wf(
                        #[trigger] self.expenses@[i],
                    ) by {
                        if i < target as int {
                            assert(self.expenses@[i] == s0[i]);
                        } else {
                            assert(self.expenses@[i] == s0[i + 1]);
                        }
                    }
                }
            }
        }
    }

    /// The next free record id.
    pub fn next_id(&self) -> (r: u64)
        requires
            spec_max_id(self.expenses@) < u64::MAX,
        ensures
            r == spec_next_id(self.expenses@),
    {
        records_next_id(&self.expenses)
    }

    /// Append imported records, reassigning their ids to a contiguous block
    /// starting at the next free id, and recompute the view. Returns how
    /// many records were imported; the caller persists the new set.
    #[verifier::loop_isolation(false)]
    pub fn import_records(&mut self, records: Vec<Expense>) -> (count: usize)
        requires
            spec_next_id(old(self).expenses@) + records@.len() <= u64::MAX,
        ensures
            count == records@.len(),
            same_core(*final(self), *old(self)),
            final(self).expenses@.len() == old(self).expenses@.len() + records@.len(),
            final(self).expenses@.subrange(0, old(self).expenses@.len() as int) == old(
                self,
            ).expenses@,
            forall|k: int|
                0 <= k < records@.len() ==> final(self).expenses@[old(self).expenses@.len() + k]
                    == (Expense {
                    id: (spec_next_id(old(self).expenses@) + k) as u64,
                    ..(#[trigger] records@[k])
                }),
            final(self).view_ok(),
            final(self).expense_table_index == cursor_after(
                old(self).expense_table_index as int,
                final(self).filtered_indices@.len() as int,
            ),
            (all_wf(old(self).expenses@) && all_wf(records@)) ==> all_wf(final(self).expenses@),
    {
        let ghost s0 = self.expenses@;
        let base = records_next_id(&self.expenses);
        let count = records.len();
        let mut i: usize = 0;
        while i < records.len()
            invariant
                0 <= i <= records@.len(),
                self.expenses@.len() == s0.len() + i,
                self.expenses@.subrange(0, s0.len() as int) == s0,
                forall|k: int|
                    0 <= k < i ==> self.expenses@[s0.len() + k] == (Expense {
                        id: (base + k) as u64,
                        ..(#[trigger] records@[k])
                    }),
                same_core(*self, *old(self)),
                self.filtered_indices == old(self).filtered_indices,
                self.expense_table_index == old(self).expense_table_index,
            decreases records@.len() - i,
        {
            let mut e = records[i].duplicate();
            e.id = base + (i as u64);
            let ghost before = self.expenses@;
            self.expenses.push(e);
            proof {
                assert(self.expenses@.subrange(0, s0.len() as int) =~= s0);
            }
            i = i + 1;
        }
        self.update_filtered_indices();
        proof {
            if all_wf(s0) && all_wf(records@) {
                assert forall|j: int|
                    0 <= j < self.expenses@.len() implies expense_wf(
                    #[trigger] self.expenses@[j],
                ) by {
                    if j < s0.len() {
                        assert(self.expenses@[j] == s0[j]);
                    } else {
                        assert(expense_wf(records@[j - s0.len()]));
                    }
                }
            }
        }
        count
    }

    /// Generate every due recurring occurrence against `today` and append
    /// them to the records. The view is not recomputed here; start-up does
    /// that right after. Returns how many records were generated; the caller
    /// persists the set when any were.
    pub fn generate_recurring_expenses(&mut self, today: Date) -> (count: usize)
        requires
            all_wf(old(self).expenses@),
            date_valid(today),
            today.year < YEAR_CAP,
            spec_next_id(old(self).expenses@) + expected_pairs(old(self).expenses@, today).len()
                <= u64::MAX,
        ensures
            same_core(*final(self), *old(self)),
            final(self).filtered_indices == old(self).filtered_indices,
            final(self).expense_table_index == old(self).expense_table_index,
            final(self).expenses@.len() == old(self).expenses@.len() + expected_pairs(
                old(self).expenses@,
                today,
            ).len(),
            final(self).expenses@.subrange(0, old(self).expenses@.len() as int) == old(
                self,
            ).expenses@,
            occs_match(
                final(self).expenses@.skip(old(self).expenses@.len() as int),
                expected_pairs(old(self).expenses@, today),
                spec_next_id(old(self).expenses@),
            ),
            all_wf(final(self).expenses@),
            count == expected_pairs(old(self).expenses@, today).len(),
    {
        materialize_due(&mut self.expenses, today)
    }

    /// Step the monthly view one month back, across the new year.
    pub fn prev_month(&mut self)
        requires
            1 <= old(self).selected_month <= 12,
            old(self).selected_year > i32::MIN,
        ensures
            *final(self) == (App {
                selected_month: if old(self).selected_month == 1 {
                    12 as u32
                } else {
                    (old(self).selected_month - 1) as u32
                },
                selected_year: if old(self).selected_month == 1 {
                    (old(self).selected_year - 1) as i32
                } else {
                    old(self).selected_year
                },
                ..*old(self)
            }),
    {
        if self.selected_month == 1 {
            self.selected_month = 12;
            self.selected_year = self.selected_year - 1;
        } else {
            self.selected_month = self.selected_month - 1;
        }
    }

    /// Step the monthly view one month forward, across the new year.
    pub fn next_month(&mut self)
        requires
            1 <= old(self).selected_month <= 12,
            old(self).selected_year < i32::MAX,
        ensures
            *final(self) == (App {
                selected_month: if old(self).selected_month == 12 {
                    1 as u32
                } else {
                    (old(self).selected_month + 1) as u32
                },
                selected_year: if old(self).selected_month == 12 {
                    (old(self).selected_year + 1) as i32
                } else {
                    old(self).selected_year
                },
                ..*old(self)
            }),
    {
        if self.selected_month == 12 {
            self.selected_month = 1;
            self.selected_year = self.selected_year + 1;
        } else {
            self.selected_month = self.selected_month + 1;
        }
    }
}

impl App {
    /// The records dated in the given month of the given year, in record
    /// order.
    #[verifier::loop_isolation(false)]
    pub fn expenses_for_month(&self, year: i32, month: u32) -> (r: Vec<Expense>)
        ensures
            r@ == month_filter(self.expenses@, year as int, month as int),
    {
        let mut out: Vec<Expense> = Vec::new();
        let mut i: usize = 0;
        while i < self.expenses.len()
            invariant
                0 <= i <= self.expenses@.len(),
                out@ == month_filter(self.expenses@.subrange(0, i as int), year as int, month as int),
            decreases self.expenses@.len() - i,
        {
            proof {
                assert(self.expenses@.subrange(0, i + 1).drop_last() =~= self.expenses@.subrange(
                    0,
                    i as int,
                ));
                assert(self.expenses@.subrange(0, i + 1).last() == self.expenses@[i as int]);
            }
            let e = &self.expenses[i];
            if e.date.year == year && (e.date.month as u32) == month {
                out.push(e.duplicate());
            }
            i = i + 1;
        }
        proof {
            assert(self.expenses@.subrange(0, self.expenses@.len() as int) =~= self.expenses@);
        }
        out
    }

    /// The total spent in the given month: the sum of the amounts of that
    /// month's records, zero for a month with none.
    #[verifier::loop_isolation(false)]
    pub fn total_for_month(&self, year: i32, month: u32) -> (r: u128)
        ensures
            r == month_total(self.expenses@, year as int, month as int),
    {
        let mut sum: u128 = 0;
        let mut i: usize = 0;
        while i < self.expenses.len()
            invariant
                0 <= i <= self.expenses@.len(),
                sum == month_total(self.expenses@.subrange(0, i as int), year as int, month as int),
            decreases self.expenses@.len() - i,
        {
            proof {
                assert(self.expenses@.subrange(0, i + 1).drop_last() =~= self.expenses@.subrange(
                    0,
                    i as int,
                ));
                assert(self.expenses@.subrange(0, i + 1).last() == self.expenses@[i as int]);
                lemma_month_total_bound(
                    self.expenses@.subrange(0, i + 1),
                    year as int,
                    month as int,
                );
                lemma_sum_fits_u128(
                    i + 1,
                    month_total(self.expenses@.subrange(0, i + 1), year as int, month as int),
                );
            }
            let e = &self.expenses[i];
            if e.date.year == year && (e.date.month as u32) == month {
                sum = sum + (e.amount as u128);
            }
            i = i + 1;
        }
        proof {
            assert(self.expenses@.subrange(0, self.expenses@.len() as int) =~= self.expenses@);
        }
        sum
    }

    /// The total spent in the given year.
    #[verifier::loop_isolation(false)]
    pub fn total_for_year(&self, year: i32) -> (r: u128)
        ensures
            r == year_total(self.expenses@, year as int),
    {
        let mut sum: u128 = 0;
        let mut i: usize = 0;
        while i < self.expenses.len()
            invariant
                0 <= i <= self.expenses@.len(),
                sum == year_total(self.expenses@.subrange(0, i as int), year as int),
            decreases self.expenses@.len() - i,
        {
            proof {
                assert(self.expenses@.subrange(0, i + 1).drop_last() =~= self.expenses@.subrange(
                    0,
                    i as int,
                ));
                assert(self.expenses@.subrange(0, i + 1).last() == self.expenses@[i as int]);
                lemma_year_total_bound(self.expenses@.subrange(0, i + 1), year as int);
                lemma_sum_fits_u128(
                    i + 1,
                    year_total(self.expenses@.subrange(0, i + 1), year as int),
                );
            }
            let e = &self.expenses[i];
            if e.date.year == year {
                sum = sum + (e.amount as u128);
            }
            i = i + 1;
        }
        proof {
            assert(self.expenses@.subrange(0, self.expenses@.len() as int) =~= self.expenses@);
        }
        sum
    }

    /// The monthly limit of the first budget for this category, if any.
    #[verifier::loop_isolation(false)]
    pub fn budget_for_category(&self, category: &Category) -> (r: Option<u64>)
        ensures
            r is Some <==> exists|p: int| budget_found_at(self.budgets@, *category, p),
            forall|p: int|
                budget_found_at(self.budgets@, *category, p) ==> r == Some(
                    self.budgets@[p].monthly_limit,
                ),
    {
        let mut i: usize = 0;
        while i < self.budgets.len()
            invariant
                0 <= i <= self.budgets@.len(),
                forall|w: int| 0 <= w < i ==> !cat_eq((#[trigger] self.budgets@[w]).category, *category),
            decreases self.budgets@.len() - i,
        {
            if self.budgets[i].category == *category {
                proof {
                    assert(budget_found_at(self.budgets@, *category, i as int));
                    assert forall|p: int|
                        budget_found_at(self.budgets@, *category, p) implies p == i as int by {
                        if p < i as int {
                            assert(!cat_eq(self.budgets@[p].category, *category));
                        }
                        if p > i as int {
                            assert(!cat_eq(self.budgets@[i as int].category, *category));
                        }
                    }
                }
                return Some(self.budgets[i].monthly_limit);
            }
            i = i + 1;
        }
        proof {
            assert forall|p: int| !budget_found_at(self.budgets@, *category, p) by {
                if 0 <= p < self.budgets@.len() {
                    assert(!cat_eq(self.budgets@[p].category, *category));
                }
            }
        }
        None
    }

    /// Cents spent on each of the last 30 days ending at `today`, oldest
    /// day first, each day's sum shown in whole currency units with the
    /// fraction dropped.
    #[verifier::loop_isolation(false)]
    pub fn daily_spending_last_30_days(&self, today: Date) -> (r: Vec<u128>)
        requires
            date_valid(today),
            today.year >= 1,
        ensures
            r@.len() == 30,
            forall|w: int|
                0 <= w < 30 ==> r@[w] == day_total(
                    self.expenses@,
                    crate::date::spec_back_days(today, (29 - w) as nat),
                ) / 100,
    {
        let mut daily: Vec<u128> = Vec::new();
        let mut day = today;
        let mut j: usize = 0;
        while j < 30
            invariant
                0 <= j <= 30,
                daily@.len() == j,
                j < 30 ==> day == crate::date::spec_back_days(today, j as nat),
                date_valid(day),
                crate::date::date_measure(day) >= crate::date::date_measure(today) - 4 * j,
                forall|w: int|
                    0 <= w < j ==> daily@[w] == day_total(
                        self.expenses@,
                        crate::date::spec_back_days(today, (j - 1 - w) as nat),
                    ) / 100,
            decreases 30 - j,
        {
            let total = self.day_total_cents(day);
            let ghost before = daily@;
            daily.insert(0, total / 100);
            proof {
                assert(daily@[0] == total / 100);
                assert(forall|w: int| 1 <= w < daily@.len() ==> daily@[w] == before[w - 1]);
            }
            if j < 29 {
                proof {
                    assert(date_valid(today));
                    assert(crate::date::date_measure(day) >= crate::date::date_measure(today) - 4
                        * 29);
                    assert(!(day.year == 0 && day.month == 1 && day.day == 1)) by {
                        assert(crate::date::date_measure(today) >= 372 + 31 + 1);
                        assert(crate::date::date_measure(
                            Date { year: 0, month: 1, day: 1 },
                        ) == 32);
                    }
                    crate::date::lemma_prev_day_measure(day);
                    crate::date::lemma_back_days_step(today, j as nat);
                }
                day = crate::date::prev_day(day);
            }
            j = j + 1;
            proof {
                if j < 30 {
                    assert(day == crate::date::spec_back_days(today, j as nat));
                }
            }
        }
        daily
    }

    /// The sum in cents of the records dated exactly `d`.
    #[verifier::loop_isolation(false)]
    fn day_total_cents(&self, d: Date) -> (r: u128)
        ensures
            r == day_total(self.expenses@, d),
    {
        let mut sum: u128 = 0;
        let mut i: usize = 0;
        while i < self.expenses.len()
            invariant
                0 <= i <= self.expenses@.len(),
                sum == day_total(self.expenses@.subrange(0, i as int), d),
            decreases self.expenses@.len() - i,
        {
            proof {
                assert(self.expenses@.subrange(0, i + 1).drop_last() =~= self.expenses@.subrange(
                    0,
                    i as int,
                ));
                assert(self.expenses@.subrange(0, i + 1).last() == self.expenses@[i as int]);
                lemma_day_total_bound(self.expenses@.subrange(0, i + 1), d);
                lemma_sum_fits_u128(i + 1, day_total(self.expenses@.subrange(0, i + 1), d));
            }
            let e = &self.expenses[i];
            if e.date.year == d.year && e.date.month == d.month && e.date.day == d.day {
                proof {
                    assert(e.date == d);
                }
                sum = sum + (e.amount as u128);
            }
            i = i + 1;
        }
        proof {
            assert(self.expenses@.subrange(0, self.expenses@.len() as int) =~= self.expenses@);
        }
        sum
    }
}

/// No record of the month carries this category text, so its total is zero.
proof fn lemma_cat_total_absent(s: Seq<Expense>, year: int, month: int, name: Seq<char>)
    requires
        forall|j: int|
            0 <= j < s.len() && in_month(#[trigger] s[j], year, month) ==> cat_name(s[j].category)
                != name,
    ensures
        cat_total(s, year, month, name) == 0,
    decreases s.len(),
{
    if s.len() > 0 {
        assert(forall|j: int|
            0 <= j < s.drop_last().len() && in_month(#[trigger] s.drop_last()[j], year, month)
                ==> cat_name(s.drop_last()[j].category) != name);
        lemma_cat_total_absent(s.drop_last(), year, month, name);
        assert(s[s.len() - 1] == s.last());
    }
}

/// The sum of the money pairs' values.
pub open spec fn pair_sum(ps: Seq<(String, u128)>) -> int
    decreases ps.len(),
{
    if ps.len() == 0 {
        0
    } else {
        pair_sum(ps.drop_last()) + ps.last().1
    }
}

proof fn lemma_pair_sum_update(ps: Seq<(String, u128)>, k: int, x: (String, u128))
    requires
        0 <= k < ps.len(),
    ensures
        pair_sum(ps.update(k, x)) == pair_sum(ps) - ps[k].1 + x.1,
    decreases ps.len(),
{
    let u = ps.update(k, x);
    if k == ps.len() - 1 {
        assert(u.drop_last() =~= ps.drop_last());
        assert(u.last() == x);
    } else {
        assert(u.drop_last() =~= ps.drop_last().update(k, x));
        assert(u.last() == ps.last());
        lemma_pair_sum_update(ps.drop_last(), k, x);
    }
}

proof fn lemma_pair_sum_insert(ps: Seq<(String, u128)>, k: int, x: (String, u128))
    requires
        0 <= k <= ps.len(),
    ensures
        pair_sum(ps.insert(k, x)) == pair_sum(ps) + x.1,
    decreases ps.len(),
{
    let u = ps.insert(k, x);
    if k == ps.len() {
        assert(u.drop_last() =~= ps);
        assert(u.last() == x);
    } else {
        assert(u.drop_last() =~= ps.drop_last().insert(k, x));
        assert(u.last() == ps.last());
        lemma_pair_sum_insert(ps.drop_last(), k, x);
    }
}

/// A positive category total names at least one record of the month.
pub proof fn lemma_cat_total_pos(s: Seq<Expense>, year: int, month: int, name: Seq<char>)
    requires
        cat_total(s, year, month, name) > 0,
    ensures
        exists|j: int|
            0 <= j < s.len() && in_month(#[trigger] s[j], year, month) && cat_name(s[j].category)
                == name,
    decreases s.len(),
{
    if s.len() > 0 {
        if in_month(s.last(), year, month) && cat_name(s.last().category) == name {
            assert(in_month(s[s.len() - 1], year, month));
        } else {
            lemma_cat_total_pos(s.drop_last(), year, month, name);
            let j = choose|j: int|
                0 <= j < s.drop_last().len() && in_month(
                    #[trigger] s.drop_last()[j],
                    year,
                    month,
                ) && cat_name(s.drop_last()[j].category) == name;
            assert(in_month(s[j], year, month));
        }
    }
}

impl App {
    /// The month's records grouped by category display text: each present
    /// category once with the exact sum of its records' amounts, every
    /// value positive, and the values adding up to the month's total.
    #[verifier::loop_isolation(false)]
    #[verifier::rlimit(100)]
    fn group_by_category(&self, year: i32, month: u32) -> (groups: Vec<(String, u128)>)
        requires
            all_wf(self.expenses@),
        ensures
            forall|k: int|
                0 <= k < groups@.len() ==> (#[trigger] groups@[k]).1 == cat_total(
                    self.expenses@,
                    year as int,
                    month as int,
                    groups@[k].0@,
                ),
            forall|k: int| 0 <= k < groups@.len() ==> (#[trigger] groups@[k]).1 > 0,
            forall|k1: int, k2: int|
                0 <= k1 < k2 < groups@.len() ==> (#[trigger] groups@[k1]).0@ != (
                #[trigger] groups@[k2]).0@,
            pair_sum(groups@) == month_total(self.expenses@, year as int, month as int),
    {
        let ghost s = self.expenses@;
        let ghost y = year as int;
        let ghost m = month as int;
        let mut groups: Vec<(String, u128)> = Vec::new();
        // Where each month record's category text sits in `groups`.
        let ghost mut owner: Map<int, int> = Map::empty();
        let mut i: usize = 0;
        while i < self.expenses.len()
            invariant
                0 <= i <= s.len(),
                forall|k: int|
                    0 <= k < groups@.len() ==> (#[trigger] groups@[k]).1 == cat_total(
                        s.subrange(0, i as int),
                        y,
                        m,
                        groups@[k].0@,
                    ),
                forall|k: int| 0 <= k < groups@.len() ==> (#[trigger] groups@[k]).1 > 0,
                forall|k1: int, k2: int|
                    0 <= k1 < k2 < groups@.len() ==> (#[trigger] groups@[k1]).0@ != (
                    #[trigger] groups@[k2]).0@,
                pair_sum(groups@) == month_total(s.subrange(0, i as int), y, m),
                forall|j: int|
                    0 <= j < i && in_month(#[trigger] s[j], y, m) ==> owner.contains_key(j) && 0
                        <= owner[j] < groups@.len() && groups@[owner[j]].0@ == cat_name(
                        s[j].category,
                    ),
            decreases s.len() - i,
        {
            let ghost prefix = s.subrange(0, i as int);
            let ghost prefix2 = s.subrange(0, i + 1);
            proof {
                assert(prefix2.drop_last() =~= prefix);
                assert(prefix2.last() == s[i as int]);
            }
            let e = &self.expenses[i];
            if e.date.year == year && (e.date.month as u32) == month {
                let name = e.category.name();
                let mut pos: usize = 0;
                let mut found = false;
                while pos < groups.len() && !found
                    invariant
                        0 <= pos <= groups@.len(),
                        found ==> pos < groups@.len() && groups@[pos as int].0@ == name@,
                        !found ==> forall|w: int|
                            0 <= w < pos ==> (#[trigger] groups@[w]).0@ != name@,
                    decreases groups@.len() - pos + (if found {
                        0int
                    } else {
                        1
                    }),
                {
                    if crate::text::str_eq(groups[pos].0.as_str(), name.as_str()) {
                        found = true;
                    } else {
                        pos = pos + 1;
                    }
                }
                if found {
                    proof {
                        lemma_cat_total_bound(prefix2, y, m, name@);
                        lemma_sum_fits_u128(i + 1, cat_total(prefix2, y, m, name@));
                    }
                    let ghost before = groups@;
                    let entry = groups.remove(pos);
                    let new_total = entry.1 + (e.amount as u128);
                    groups.insert(pos, (entry.0, new_total));
                    proof {
                        assert(groups@ =~= before.update(pos as int, (entry.0, new_total)));
                        assert(forall|k: int|
                            0 <= k < groups@.len() ==> (#[trigger] groups@[k]).0@ == before[k].0@);
                        lemma_pair_sum_update(before, pos as int, (entry.0, new_total));
                        owner = owner.insert(i as int, pos as int);
                        assert forall|k: int|
                            0 <= k < groups@.len() implies (#[trigger] groups@[k]).1 == cat_total(
                            prefix2,
                            y,
                            m,
                            groups@[k].0@,
                        ) by {
                            if k != pos as int {
                                assert(groups@[k] == before[k]);
                                assert(groups@[k].0@ != name@) by {
                                    if k < pos as int {
                                        assert(before[k].0@ != before[pos as int].0@);
                                    } else {
                                        assert(before[pos as int].0@ != before[k].0@);
                                    }
                                }
                            }
                        }
                    }
                } else {
                    proof {
                        assert forall|j: int|
                            0 <= j < prefix.len() && in_month(#[trigger] prefix[j], y, m)
                            implies cat_name(prefix[j].category) != name@ by {
                            assert(prefix[j] == s[j]);
                            assert(groups@[owner[j]].0@ == cat_name(s[j].category));
                            assert(groups@[owner[j]].0@ != name@);
                        }
                        lemma_cat_total_absent(prefix, y, m, name@);
                    }
                    let ghost before = groups@;
                    groups.push((name, e.amount as u128));
                    proof {
                        assert(groups@.drop_last() =~= before);
                        assert(pair_sum(groups@) == pair_sum(before) + e.amount);
                        owner = owner.insert(i as int, before.len() as int);
                        assert(forall|k: int| 0 <= k < before.len() ==> groups@[k] == before[k]);
                        assert(groups@[before.len() as int].0@ == name@);
                        assert(name@ == cat_name(s[i as int].category));
                        assert forall|k: int|
                            0 <= k < groups@.len() implies (#[trigger] groups@[k]).1 == cat_total(
                            prefix2,
                            y,
                            m,
                            groups@[k].0@,
                        ) by {
                            if k < before.len() {
                                assert(groups@[k] == before[k]);
                                assert(before[k].0@ != name@);
                            }
                        }
                        assert forall|k1: int, k2: int|
                            0 <= k1 < k2 < groups@.len() implies (#[trigger] groups@[k1]).0@ != (
                        #[trigger] groups@[k2]).0@ by {
                            if k2 == before.len() {
                                assert(before[k1].0@ != name@);
                            }
                        }
                    }
                }
            } else {
                proof {
                    assert forall|k: int|
                        0 <= k < groups@.len() implies (#[trigger] groups@[k]).1 == cat_total(
                        prefix2,
                        y,
                        m,
                        groups@[k].0@,
                    ) by {
                        assert(cat_total(prefix2, y, m, groups@[k].0@) == cat_total(
                            prefix,
                            y,
                            m,
                            groups@[k].0@,
                        ));
                    }
                }
            }
            i = i + 1;
        }
        proof {
            assert(s.subrange(0, s.len() as int) =~= s);
        }
        groups
    }

    /// The month's spending grouped by category display text: each present
    /// category once with the exact sum of its records' amounts, the values
    /// adding up to the month's total, largest values first.
    pub fn spending_by_category(&self, year: i32, month: u32) -> (r: Vec<(String, u128)>)
        requires
            all_wf(self.expenses@),
        ensures
            forall|k: int|
                0 <= k < r@.len() ==> (#[trigger] r@[k]).1 == cat_total(
                    self.expenses@,
                    year as int,
                    month as int,
                    r@[k].0@,
                ),
            forall|k: int| 0 <= k < r@.len() ==> (#[trigger] r@[k]).1 > 0,
            forall|k1: int, k2: int| 0 <= k1 < k2 < r@.len() ==> (#[trigger] r@[k1]).0@ != (
            #[trigger] r@[k2]).0@,
            pair_sum(r@) == month_total(self.expenses@, year as int, month as int),
            forall|k1: int, k2: int| 0 <= k1 < k2 < r@.len() ==> (#[trigger] r@[k1]).1 >= (
            #[trigger] r@[k2]).1,
    {
        let groups = self.group_by_category(year, month);
        sort_pairs_desc(groups, Ghost(self.expenses@), Ghost(year as int), Ghost(month as int))
    }
}

/// Sort money pairs by value, largest first, keeping the entries' contents,
/// their distinctness and their overall sum.
#[verifier::loop_isolation(false)]
#[verifier::rlimit(100)]
fn sort_pairs_desc(
    input: Vec<(String, u128)>,
    Ghost(s): Ghost<Seq<Expense>>,
    Ghost(y): Ghost<int>,
    Ghost(m): Ghost<int>,
) -> (out: Vec<(String, u128)>)
    requires
        forall|k: int|
            0 <= k < input@.len() ==> (#[trigger] input@[k]).1 == cat_total(
                s,
                y,
                m,
                input@[k].0@,
            ),
        forall|k: int| 0 <= k < input@.len() ==> (#[trigger] input@[k]).1 > 0,
        forall|k1: int, k2: int|
            0 <= k1 < k2 < input@.len() ==> (#[trigger] input@[k1]).0@ != (
            #[trigger] input@[k2]).0@,
    ensures
        forall|k: int|
            0 <= k < out@.len() ==> (#[trigger] out@[k]).1 == cat_total(s, y, m, out@[k].0@),
        forall|k: int| 0 <= k < out@.len() ==> (#[trigger] out@[k]).1 > 0,
        forall|k1: int, k2: int|
            0 <= k1 < k2 < out@.len() ==> (#[trigger] out@[k1]).0@ != (#[trigger] out@[k2]).0@,
        pair_sum(out@) == pair_sum(input@),
        forall|k1: int, k2: int|
            0 <= k1 < k2 < out@.len() ==> (#[trigger] out@[k1]).1 >= (#[trigger] out@[k2]).1,
{
    let ghost input0 = input@;
    let mut rest = input;
    let mut out: Vec<(String, u128)> = Vec::new();
    while rest.len() > 0
        invariant
            forall|k: int|
                0 <= k < out@.len() ==> (#[trigger] out@[k]).1 == cat_total(s, y, m, out@[k].0@),
            forall|k: int|
                0 <= k < rest@.len() ==> (#[trigger] rest@[k]).1 == cat_total(
                    s,
                    y,
                    m,
                    rest@[k].0@,
                ),
            forall|k: int| 0 <= k < out@.len() ==> (#[trigger] out@[k]).1 > 0,
            forall|k: int| 0 <= k < rest@.len() ==> (#[trigger] rest@[k]).1 > 0,
            forall|k1: int, k2: int|
                0 <= k1 < k2 < out@.len() ==> (#[trigger] out@[k1]).0@ != (
                #[trigger] out@[k2]).0@,
            forall|k1: int, k2: int|
                0 <= k1 < k2 < rest@.len() ==> (#[trigger] rest@[k1]).0@ != (
                #[trigger] rest@[k2]).0@,
            forall|k1: int, k2: int|
                0 <= k1 < out@.len() && 0 <= k2 < rest@.len() ==> (#[trigger] out@[k1]).0@ != (
                #[trigger] rest@[k2]).0@,
            pair_sum(out@) + pair_sum(rest@) == pair_sum(input0),
            forall|k1: int, k2: int|
                0 <= k1 < k2 < out@.len() ==> (#[trigger] out@[k1]).1 >= (#[trigger] out@[k2]).1,
        decreases rest@.len(),
    {
        let ghost rs = rest@;
        let x = match rest.pop() {
            Some(x) => x,
            None => {
                proof {
                    assert(false);
                }
                continue ;
            },
        };
        proof {
            assert(x == rs.last());
            assert(rs[rs.len() - 1] == rs.last());
            assert(rest@ == rs.drop_last());
        }
        let mut pos: usize = 0;
        while pos < out.len() && out[pos].1 >= x.1
            invariant
                0 <= pos <= out@.len(),
                forall|w: int| 0 <= w < pos ==> (#[trigger] out@[w]).1 >= x.1,
            decreases out@.len() - pos,
        {
            pos = pos + 1;
        }
        let ghost before = out@;
        proof {
            if pos < out@.len() {
                assert(out@[pos as int].1 < x.1);
            }
        }
        out.insert(pos, x);
        proof {
            assert(out@ == before.insert(pos as int, x));
            assert(out@[pos as int] == x);
            assert(forall|w: int| 0 <= w < pos ==> out@[w] == before[w]);
            assert(forall|w: int| pos < w < out@.len() ==> out@[w] == before[w - 1]);
            lemma_pair_sum_insert(before, pos as int, x);
            assert forall|k1: int, k2: int|
                0 <= k1 < k2 < out@.len() implies (#[trigger] out@[k1]).1 >= (
            #[trigger] out@[k2]).1 by {
                if k1 == pos as int {
                    assert(out@[k2] == before[k2 - 1]);
                    assert(before[pos as int].1 < x.1);
                    if k2 - 1 > pos as int {
                        assert(before[pos as int].1 >= before[k2 - 1].1);
                    }
                } else if k2 == pos as int {
                    assert(out@[k1] == before[k1]);
                }
            }
            assert forall|k1: int, k2: int|
                0 <= k1 < k2 < out@.len() implies (#[trigger] out@[k1]).0@ != (
            #[trigger] out@[k2]).0@ by {
                if k1 == pos as int {
                    assert(out@[k2] == before[k2 - 1]);
                    assert(x.0@ != before[k2 - 1].0@) by {
                        assert(rs[rs.len() - 1].0@ == x.0@);
                    }
                } else if k2 == pos as int {
                    assert(out@[k1] == before[k1]);
                    assert(before[k1].0@ != x.0@);
                }
            }
            assert forall|k1: int, k2: int|
                0 <= k1 < out@.len() && 0 <= k2 < rest@.len() implies (#[trigger] out@[k1]).0@
                != (#[trigger] rest@[k2]).0@ by {
                assert(rest@[k2] == rs[k2]);
                if k1 != pos as int {
                    let w: int = if k1 < pos as int {
                        k1
                    } else {
                        k1 - 1
                    };
                    assert(out@[k1] == before[w]);
                } else {
                    assert(out@[k1] == x);
                    assert(rs[k2].0@ != rs[rs.len() - 1].0@);
                }
            }
        }
    }
    out
}

/// `p` is the first position holding a budget for category `c`.
pub open spec fn budget_found_at(bs: Seq<Budget>, c: Category, p: int) -> bool {
    &&& 0 <= p < bs.len()
    &&& cat_eq(bs[p].category, c)
    &&& forall|w: int| 0 <= w < p ==> !cat_eq((#[trigger] bs[w]).category, c)
}

/// `p` is the first position holding the record id `id`.
pub open spec fn id_found_at(s: Seq<Expense>, id: u64, p: int) -> bool {
    &&& 0 <= p < s.len()
    &&& s[p].id == id
    &&& forall|w: int| 0 <= w < p ==> (#[trigger] s[w]).id != id
}

} // verus!
