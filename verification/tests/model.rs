use cashflow::category::{Category, category_from_name};
use cashflow::currency::Currency;
use cashflow::date::{Date, format_date, parse_date, next_day, add_days};
use cashflow::recurrence::Recurrence;
use cashflow::text::{parse_amount, cents_to_string, u64_to_string, str_eq, contains_str};

fn d(year: i32, month: u8, day: u8) -> Date {
    Date::new(year, month, day).unwrap()
}

#[test]
fn category_names_round_trip() {
    let cats = vec![
        Category::Food,
        Category::Transport,
        Category::Rent,
        Category::Utilities,
        Category::Entertainment,
        Category::Shopping,
        Category::Health,
        Category::Education,
        Category::Subscriptions,
        Category::Other(String::new()),
        Category::Other("rent split".to_string()),
        Category::Other("a)b".to_string()),
    ];
    for c in &cats {
        let text = c.name();
        let back = Category::from_str_value(&text);
        assert_eq!(&back, c);
    }
}

#[test]
fn category_other_textual_forms() {
    assert_eq!(Category::Other(String::new()).name(), "Other");
    assert_eq!(Category::Other("rent split".to_string()).name(), "Other(rent split)");
    assert_eq!(Category::from_str_value("Other"), Category::Other(String::new()));
    assert_eq!(
        Category::from_str_value("Other(rent split)"),
        Category::Other("rent split".to_string())
    );
    // Unknown text denotes an Other label.
    assert_eq!(Category::from_str_value("weird"), Category::Other("weird".to_string()));
}

#[test]
fn category_indexing() {
    assert_eq!(Category::Food.to_index(), 0);
    assert_eq!(Category::Other("x".to_string()).to_index(), 9);
    assert_eq!(Category::from_index(2, None), Category::Rent);
    assert_eq!(
        Category::from_index(9, Some("dogs".to_string())),
        Category::Other("dogs".to_string())
    );
    assert_eq!(Category::from_index(9, None), Category::Other(String::new()));
    assert_eq!(Category::all_display_names().len(), 10);
}

#[test]
fn category_lookup_by_name() {
    assert_eq!(category_from_name("Food"), Some(Category::Food));
    assert_eq!(category_from_name("Other(x)"), Some(Category::Other("x".to_string())));
    assert_eq!(category_from_name("Other"), Some(Category::Other(String::new())));
    assert_eq!(category_from_name("nonsense"), None);
}

#[test]
fn recurrence_round_trip() {
    for r in [
        Recurrence::Daily,
        Recurrence::Weekly,
        Recurrence::Monthly,
        Recurrence::Yearly,
    ] {
        let text = r.name();
        assert_eq!(Recurrence::from_str_value(&text), Some(r));
    }
    assert_eq!(Recurrence::from_str_value("Hourly"), None);
}

#[test]
fn next_date_daily_weekly() {
    assert_eq!(Recurrence::Daily.next_date(d(2024, 1, 31)), d(2024, 2, 1));
    assert_eq!(Recurrence::Daily.next_date(d(2024, 12, 31)), d(2025, 1, 1));
    assert_eq!(Recurrence::Weekly.next_date(d(2024, 12, 29)), d(2025, 1, 5));
}

#[test]
fn next_date_monthly_caps_at_28() {
    assert_eq!(Recurrence::Monthly.next_date(d(2024, 1, 31)), d(2024, 2, 28));
    assert_eq!(Recurrence::Monthly.next_date(d(2024, 12, 15)), d(2025, 1, 15));
    assert_eq!(Recurrence::Monthly.next_date(d(2024, 2, 29)), d(2024, 3, 28));
}

#[test]
fn next_date_yearly_caps_at_28() {
    assert_eq!(Recurrence::Yearly.next_date(d(2024, 2, 29)), d(2025, 2, 28));
    assert_eq!(Recurrence::Yearly.next_date(d(2023, 6, 15)), d(2024, 6, 15));
}

#[test]
fn next_date_strictly_increases() {
    let samples = [
        d(2024, 1, 1),
        d(2024, 2, 29),
        d(2024, 12, 31),
        d(2023, 2, 28),
        d(2000, 1, 31),
    ];
    for from in samples {
        for r in [
            Recurrence::Daily,
            Recurrence::Weekly,
            Recurrence::Monthly,
            Recurrence::Yearly,
        ] {
            let next = r.next_date(from);
            assert!(from.before(&next), "{:?} from {:?}", r, from);
        }
    }
}

#[test]
fn calendar_days() {
    assert_eq!(next_day(d(2024, 2, 28)), d(2024, 2, 29));
    assert_eq!(next_day(d(2023, 2, 28)), d(2023, 3, 1));
    assert_eq!(next_day(d(2100, 2, 28)), d(2100, 3, 1));
    assert_eq!(next_day(d(2000, 2, 28)), d(2000, 2, 29));
    assert_eq!(add_days(d(2024, 1, 1), 30), d(2024, 1, 31));
    assert_eq!(add_days(d(2024, 12, 1), 365), d(2025, 12, 1));
}

#[test]
fn date_text_round_trip() {
    let dates = [d(2024, 1, 1), d(1999, 12, 31), d(0, 1, 1), d(9999, 12, 31)];
    for date in dates {
        let text = format_date(date);
        assert_eq!(parse_date(&text), Some(date));
    }
    assert_eq!(format_date(d(2024, 3, 7)), "2024-03-07");
}

#[test]
fn date_parsing_rejects_bad_text() {
    assert_eq!(parse_date("2024-02-30"), None);
    assert_eq!(parse_date("2023-02-29"), None);
    assert_eq!(parse_date("2024-13-01"), None);
    assert_eq!(parse_date("2024-00-10"), None);
    assert_eq!(parse_date("2024-1-1"), None);
    assert_eq!(parse_date("not a date"), None);
    assert_eq!(parse_date(""), None);
    assert_eq!(parse_date("2024-02-29"), Some(d(2024, 2, 29)));
}

#[test]
fn amount_parsing() {
    assert_eq!(parse_amount("12.00"), Some(1200));
    assert_eq!(parse_amount("12"), Some(1200));
    assert_eq!(parse_amount("12.3"), Some(1230));
    assert_eq!(parse_amount("0.05"), Some(5));
    assert_eq!(parse_amount(".5"), Some(50));
    assert_eq!(parse_amount("5."), Some(500));
    assert_eq!(parse_amount("0"), Some(0));
    assert_eq!(parse_amount(""), None);
    assert_eq!(parse_amount("."), None);
    assert_eq!(parse_amount("1.2.3"), None);
    assert_eq!(parse_amount("1.234"), None);
    assert_eq!(parse_amount("12a"), None);
    assert_eq!(parse_amount("-5"), None);
    // Too large for cents in a 64-bit count.
    assert_eq!(parse_amount("999999999999999999999"), None);
}

#[test]
fn amount_formatting() {
    assert_eq!(cents_to_string(1200), "12.00");
    assert_eq!(cents_to_string(5), "0.05");
    assert_eq!(cents_to_string(1234), "12.34");
    assert_eq!(u64_to_string(0), "0");
    assert_eq!(u64_to_string(907), "907");
}

#[test]
fn amount_text_round_trip() {
    for cents in [1u64, 5, 99, 100, 1234, 100000, 999999999] {
        let text = cents_to_string(cents);
        assert_eq!(parse_amount(&text), Some(cents));
    }
}

#[test]
fn text_helpers() {
    assert!(str_eq("abc", "abc"));
    assert!(!str_eq("abc", "abd"));
    assert!(!str_eq("abc", "ab"));
    assert!(contains_str("hello world", "lo wo"));
    assert!(contains_str("hello", ""));
    assert!(!contains_str("hello", "hex"));
    assert!(!contains_str("ab", "abc"));
}

#[test]
fn currency_codes_round_trip() {
    for c in Currency::all() {
        assert_eq!(Currency::from_code(c.code()), Some(c));
        assert_eq!(Currency::from_index(c.to_index()), c);
    }
    assert_eq!(Currency::from_code("XXX"), None);
    assert_eq!(Currency::count(), 20);
    assert_eq!(Currency::all().len(), 20);
}

#[test]
fn currency_display() {
    assert_eq!(Currency::USD.symbol(), "$");
    assert_eq!(Currency::USD.decimals(), 2);
    assert_eq!(Currency::JPY.decimals(), 0);
    assert_eq!(Currency::KRW.decimals(), 0);
    assert_eq!(Currency::USD.display_name(), "USD ($)");
    assert_eq!(Currency::CHF.display_name(), "CHF (CHF)");
    assert_eq!(Currency::default(), Currency::USD);
}
