use cashflow::app::App;
use cashflow::category::Category;
use cashflow::date::Date;
use cashflow::expense::{Expense, next_id};
use cashflow::recurrence::Recurrence;

fn d(year: i32, month: u8, day: u8) -> Date {
    Date::new(year, month, day).unwrap()
}

fn expense(
    id: u64,
    amount: u64,
    category: Category,
    description: &str,
    date: Date,
    recurrence: Option<Recurrence>,
) -> Expense {
    Expense::new(
        id,
        amount,
        category,
        description.to_string(),
        date,
        recurrence.is_some(),
        recurrence,
    )
}

#[test]
fn monthly_template_materializes_each_missed_month() {
    let template = expense(
        1,
        1200,
        Category::Food,
        "coffee",
        d(2024, 1, 1),
        Some(Recurrence::Monthly),
    );
    let mut app = App::new(vec![template], Vec::new(), d(2024, 4, 1));
    assert_eq!(app.expenses.len(), 4);
    let occ = &app.expenses[1];
    assert_eq!(occ.date, d(2024, 2, 1));
    assert_eq!(app.expenses[2].date, d(2024, 3, 1));
    assert_eq!(app.expenses[3].date, d(2024, 4, 1));
    // Ids continue from the next free id, shared across the run.
    assert_eq!(app.expenses[1].id, 2);
    assert_eq!(app.expenses[2].id, 3);
    assert_eq!(app.expenses[3].id, 4);
    for occ in &app.expenses[1..] {
        assert_eq!(occ.amount, 1200);
        assert_eq!(occ.category, Category::Food);
        assert_eq!(occ.description, "coffee");
        assert!(!occ.is_recurring);
        assert!(occ.recurrence.is_none());
    }
    // A second run against the same day generates nothing more.
    let count = app.generate_recurring_expenses(d(2024, 4, 1));
    assert_eq!(count, 0);
    assert_eq!(app.expenses.len(), 4);
}

#[test]
fn materialization_stops_at_today() {
    let template = expense(
        1,
        500,
        Category::Subscriptions,
        "music",
        d(2024, 3, 10),
        Some(Recurrence::Weekly),
    );
    let today = d(2024, 3, 31);
    let app = App::new(vec![template], Vec::new(), today);
    // 2024-03-17, 03-24 and 03-31: the boundary day itself is included.
    assert_eq!(app.expenses.len(), 4);
    for occ in &app.expenses[1..] {
        assert!(occ.date.on_or_before(&today));
    }
    assert_eq!(app.expenses[3].date, today);
}

#[test]
fn anchor_skips_already_materialized_occurrences() {
    let template = expense(
        1,
        1200,
        Category::Food,
        "coffee",
        d(2024, 1, 1),
        Some(Recurrence::Monthly),
    );
    // An occurrence for February already exists, so March is next.
    let past = expense(2, 1200, Category::Food, "coffee", d(2024, 2, 1), None);
    let app = App::new(vec![template, past], Vec::new(), d(2024, 3, 15));
    assert_eq!(app.expenses.len(), 3);
    assert_eq!(app.expenses[2].date, d(2024, 3, 1));
    assert_eq!(app.expenses[2].id, 3);
}

#[test]
fn non_recurring_records_generate_nothing() {
    let plain = expense(7, 900, Category::Transport, "bus", d(2024, 1, 1), None);
    let mut app = App::new(vec![plain], Vec::new(), d(2024, 6, 1));
    assert_eq!(app.expenses.len(), 1);
    assert_eq!(app.generate_recurring_expenses(d(2024, 6, 1)), 0);
}

#[test]
fn daily_template_catches_up_and_stays_caught_up() {
    let template = expense(
        1,
        100,
        Category::Other("gym".to_string()),
        "day pass",
        d(2024, 5, 28),
        Some(Recurrence::Daily),
    );
    let mut app = App::new(vec![template], Vec::new(), d(2024, 6, 2));
    // 05-29, 05-30, 05-31, 06-01, 06-02.
    assert_eq!(app.expenses.len(), 6);
    assert_eq!(app.generate_recurring_expenses(d(2024, 6, 2)), 0);
    // A later day generates exactly the missing occurrences.
    let more = app.generate_recurring_expenses(d(2024, 6, 4));
    assert_eq!(more, 2);
    assert_eq!(app.expenses.len(), 8);
}

#[test]
fn ids_continue_across_templates() {
    let a = expense(5, 100, Category::Food, "a", d(2024, 3, 30), Some(Recurrence::Daily));
    let b = expense(9, 200, Category::Health, "b", d(2024, 3, 31), Some(Recurrence::Daily));
    let app = App::new(vec![a, b], Vec::new(), d(2024, 4, 1));
    // a generates 03-31 and 04-01; b generates 04-01.
    assert_eq!(app.expenses.len(), 5);
    assert_eq!(app.expenses[2].id, 10);
    assert_eq!(app.expenses[3].id, 11);
    assert_eq!(app.expenses[4].id, 12);
}

#[test]
fn next_id_is_one_past_the_largest() {
    assert_eq!(next_id(&Vec::new()), 1);
    let records = vec![
        expense(3, 100, Category::Food, "x", d(2024, 1, 1), None),
        expense(7, 100, Category::Food, "y", d(2024, 1, 2), None),
        expense(2, 100, Category::Food, "z", d(2024, 1, 3), None),
    ];
    assert_eq!(next_id(&records), 8);
}

#[test]
fn every_record_keeps_the_recurrence_invariant() {
    let template = expense(
        1,
        1200,
        Category::Food,
        "coffee",
        d(2024, 1, 1),
        Some(Recurrence::Monthly),
    );
    let mut app = App::new(vec![template], Vec::new(), d(2024, 4, 1));
    app.add_expense(expense(10, 400, Category::Health, "vitamins", d(2024, 4, 2), None));
    app.update_expense(
        10,
        expense(10, 450, Category::Health, "vitamins", d(2024, 4, 2), Some(Recurrence::Yearly)),
    );
    let count = app.import_records(vec![
        expense(0, 30, Category::Transport, "tram", d(2024, 4, 3), None),
    ]);
    assert_eq!(count, 1);
    for e in &app.expenses {
        assert_eq!(e.is_recurring, e.recurrence.is_some());
    }
}

#[test]
fn import_reassigns_ids_in_a_block() {
    let existing = expense(4, 100, Category::Food, "x", d(2024, 1, 1), None);
    let mut app = App::new(vec![existing], Vec::new(), d(2024, 1, 1));
    let imported = vec![
        expense(999, 10, Category::Food, "a", d(2024, 1, 2), None),
        expense(1, 20, Category::Rent, "b", d(2024, 1, 3), None),
    ];
    let count = app.import_records(imported);
    assert_eq!(count, 2);
    assert_eq!(app.expenses.len(), 3);
    assert_eq!(app.expenses[1].id, 5);
    assert_eq!(app.expenses[2].id, 6);
    assert_eq!(app.expenses[1].description, "a");
    assert_eq!(app.expenses[2].amount, 20);
}
