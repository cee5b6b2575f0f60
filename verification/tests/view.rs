use cashflow::app::{App, FormField, FormState, InputMode, Tab};
use cashflow::category::Category;
use cashflow::date::Date;
use cashflow::expense::{Budget, Expense};
use cashflow::recurrence::Recurrence;

fn d(year: i32, month: u8, day: u8) -> Date {
    Date::new(year, month, day).unwrap()
}

fn expense(
    id: u64,
    amount: u64,
    category: Category,
    description: &str,
    date: Date,
    recurrence: Option<Recurrence>,
) -> Expense {
    Expense::new(
        id,
        amount,
        category,
        description.to_string(),
        date,
        recurrence.is_some(),
        recurrence,
    )
}

fn sample_app() -> App {
    let records = vec![
        expense(1, 1000, Category::Food, "groceries", d(2024, 5, 1), None),
        expense(2, 500, Category::Transport, "bus ticket", d(2024, 5, 3), None),
        expense(3, 80000, Category::Rent, "may rent", d(2024, 5, 2), Some(Recurrence::Monthly)),
        expense(4, 1500, Category::Food, "dinner", d(2024, 4, 20), None),
    ];
    App::new(records, Vec::new(), d(2024, 5, 3))
}

#[test]
fn empty_query_shows_all_records_newest_first() {
    let app = sample_app();
    assert_eq!(app.expenses.len(), 4);
    assert_eq!(app.filtered_indices.len(), 4);
    // Dates descend along the view.
    for w in 1..app.filtered_indices.len() {
        let a = &app.expenses[app.filtered_indices[w - 1]];
        let b = &app.expenses[app.filtered_indices[w]];
        assert!(b.date.on_or_before(&a.date));
    }
    assert_eq!(app.filtered_indices, vec![1, 2, 0, 3]);
}

#[test]
fn equal_dates_keep_record_order() {
    let records = vec![
        expense(1, 1000, Category::Food, "first", d(2024, 5, 1), None),
        expense(2, 500, Category::Food, "second", d(2024, 5, 1), None),
    ];
    let app = App::new(records, Vec::new(), d(2024, 5, 1));
    assert_eq!(app.filtered_indices, vec![0, 1]);
}

#[test]
fn query_matches_descriptions_case_insensitively() {
    let mut app = sample_app();
    app.search_query = "DINNER".to_string();
    app.update_filtered_indices();
    assert_eq!(app.filtered_indices, vec![3]);
    // Every record in the view satisfies the predicate.
    for &i in &app.filtered_indices {
        assert!(app.expenses[i].description.to_lowercase().contains("dinner"));
    }
}

#[test]
fn query_matches_category_names() {
    let mut app = sample_app();
    app.search_query = "food".to_string();
    app.update_filtered_indices();
    assert_eq!(app.filtered_indices, vec![0, 3]);
}

#[test]
fn recurring_only_filters_the_view() {
    let mut app = sample_app();
    app.show_recurring_only = true;
    app.update_filtered_indices();
    assert_eq!(app.filtered_indices, vec![2]);
    for &i in &app.filtered_indices {
        assert!(app.expenses[i].is_recurring);
    }
}

#[test]
fn cursor_is_clamped_when_the_view_shrinks() {
    let mut app = sample_app();
    app.expense_table_index = 3;
    app.search_query = "food".to_string();
    app.update_filtered_indices();
    assert_eq!(app.filtered_indices.len(), 2);
    assert_eq!(app.expense_table_index, 1);
}

#[test]
fn deleting_the_only_filtered_record_resets_the_cursor() {
    let records = vec![expense(1, 700, Category::Health, "dentist", d(2024, 5, 1), None)];
    let mut app = App::new(records, Vec::new(), d(2024, 5, 1));
    assert_eq!(app.filtered_indices.len(), 1);
    assert!(app.selected_expense().is_some());
    app.delete_selected_expense();
    assert_eq!(app.expenses.len(), 0);
    assert_eq!(app.expense_table_index, 0);
    assert!(app.selected_expense().is_none());
}

#[test]
fn selected_expense_follows_the_cursor() {
    let mut app = sample_app();
    app.expense_table_index = 0;
    let selected = app.selected_expense().unwrap();
    assert_eq!(selected.id, 2);
    app.expense_table_index = 2;
    assert_eq!(app.selected_expense().unwrap().id, 1);
}

#[test]
fn update_expense_replaces_by_id() {
    let mut app = sample_app();
    let replacement = expense(2, 600, Category::Transport, "train ticket", d(2024, 5, 3), None);
    app.update_expense(2, replacement);
    let changed = app.expenses.iter().find(|e| e.id == 2).unwrap();
    assert_eq!(changed.amount, 600);
    assert_eq!(changed.description, "train ticket");
    // An unknown id changes nothing.
    let before = app.expenses.len();
    app.update_expense(99, expense(99, 1, Category::Food, "x", d(2024, 5, 3), None));
    assert_eq!(app.expenses.len(), before);
}

#[test]
fn monthly_totals_add_up() {
    let app = sample_app();
    let total = app.total_for_month(2024, 5);
    let listed = app.expenses_for_month(2024, 5);
    let sum: u128 = listed.iter().map(|e| e.amount as u128).sum();
    assert_eq!(total, sum);
    assert_eq!(total, 1000 + 500 + 80000);
    // A month with no records sums to zero.
    assert_eq!(app.total_for_month(2023, 1), 0);
    assert_eq!(app.expenses_for_month(2023, 1).len(), 0);
    assert_eq!(app.total_for_year(2024), 1000 + 500 + 80000 + 1500);
}

#[test]
fn spending_by_category_sums_and_sorts() {
    let app = sample_app();
    let breakdown = app.spending_by_category(2024, 5);
    assert_eq!(breakdown.len(), 3);
    assert_eq!(breakdown[0], ("Rent".to_string(), 80000));
    assert_eq!(breakdown[1], ("Food".to_string(), 1000));
    assert_eq!(breakdown[2], ("Transport".to_string(), 500));
    let total: u128 = breakdown.iter().map(|p| p.1).sum();
    assert_eq!(total, app.total_for_month(2024, 5));
}

#[test]
fn daily_spending_truncates_to_whole_units() {
    let today = d(2024, 5, 3);
    let records = vec![
        expense(1, 12345, Category::Food, "today", today, None),
        expense(2, 99, Category::Food, "yesterday", d(2024, 5, 2), None),
        expense(3, 500, Category::Food, "long ago", d(2024, 1, 1), None),
    ];
    let app = App::new(records, Vec::new(), today);
    let daily = app.daily_spending_last_30_days(today);
    assert_eq!(daily.len(), 30);
    assert_eq!(daily[29], 123);
    // Fractions are dropped, not rounded.
    assert_eq!(daily[28], 0);
    assert_eq!(daily[0], 0);
}

#[test]
fn budget_lookup_takes_the_first_match() {
    let budgets = vec![
        Budget { category: Category::Food, monthly_limit: 30000 },
        Budget { category: Category::Food, monthly_limit: 99999 },
        Budget { category: Category::Rent, monthly_limit: 90000 },
    ];
    let app = App::new(Vec::new(), budgets, d(2024, 5, 1));
    assert_eq!(app.budget_for_category(&Category::Food), Some(30000));
    assert_eq!(app.budget_for_category(&Category::Rent), Some(90000));
    assert_eq!(app.budget_for_category(&Category::Health), None);
}

#[test]
fn month_stepping_wraps_the_year() {
    let mut app = App::new(Vec::new(), Vec::new(), d(2024, 1, 15));
    assert_eq!((app.selected_year, app.selected_month), (2024, 1));
    app.prev_month();
    assert_eq!((app.selected_year, app.selected_month), (2023, 12));
    app.next_month();
    assert_eq!((app.selected_year, app.selected_month), (2024, 1));
    for _ in 0..12 {
        app.next_month();
    }
    assert_eq!((app.selected_year, app.selected_month), (2025, 1));
}

#[test]
fn form_converts_to_a_record() {
    let mut form = FormState::new(d(2024, 5, 3));
    assert_eq!(form.date_input, "2024-05-03");
    form.amount_input = "12.50".to_string();
    form.description_input = "lunch".to_string();
    form.category_index = 0;
    let e = form.to_expense(42).unwrap();
    assert_eq!(e.id, 42);
    assert_eq!(e.amount, 1250);
    assert_eq!(e.category, Category::Food);
    assert_eq!(e.description, "lunch");
    assert_eq!(e.date, d(2024, 5, 3));
    assert!(!e.is_recurring);
    assert!(e.recurrence.is_none());
}

#[test]
fn form_rejects_bad_amounts_and_dates() {
    let mut form = FormState::new(d(2024, 5, 3));
    form.description_input = "x".to_string();
    form.amount_input = "abc".to_string();
    assert!(form.to_expense(1).is_none());
    form.amount_input = "0".to_string();
    assert!(form.to_expense(1).is_none());
    form.amount_input = "0.00".to_string();
    assert!(form.to_expense(1).is_none());
    form.amount_input = "5".to_string();
    form.date_input = "2024-02-30".to_string();
    assert!(form.to_expense(1).is_none());
    form.date_input = "2024-02-29".to_string();
    assert!(form.to_expense(1).is_some());
}

#[test]
fn form_round_trips_an_existing_record() {
    let original = expense(
        8,
        1999,
        Category::Other("games".to_string()),
        "cards",
        d(2024, 3, 9),
        Some(Recurrence::Weekly),
    );
    let form = FormState::from_expense(&original);
    assert_eq!(form.amount_input, "19.99");
    assert_eq!(form.category_index, 9);
    assert_eq!(form.custom_category, "games");
    assert_eq!(form.date_input, "2024-03-09");
    assert!(form.is_recurring);
    assert_eq!(form.editing_id, Some(8));
    let back = form.to_expense(8).unwrap();
    assert_eq!(back, original);
}

#[test]
fn tabs_and_fields_cycle() {
    assert_eq!(Tab::titles().len(), 3);
    assert_eq!(Tab::from_index(Tab::Monthly.index()), Tab::Monthly);
    assert_eq!(Tab::from_index(99), Tab::Dashboard);
    let mut f = FormField::Amount;
    for _ in 0..6 {
        f = f.next();
    }
    assert_eq!(f, FormField::Amount);
    assert_eq!(FormField::Amount.prev(), FormField::RecurrenceType);
    assert_eq!(FormField::Amount.prev().next(), FormField::Amount);
    let mode = InputMode::Normal;
    assert_eq!(mode, InputMode::Normal);
}

#[test]
fn add_expense_appends_and_refreshes_the_view() {
    let mut app = sample_app();
    app.add_expense(expense(10, 2500, Category::Shopping, "shoes", d(2024, 5, 4), None));
    assert_eq!(app.expenses.len(), 5);
    assert_eq!(app.filtered_indices[0], 4);
    assert_eq!(app.selected_expense().unwrap().id, 10);
}
