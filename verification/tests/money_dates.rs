use ledger_core::dates::{parse_date, Date};
use ledger_core::money::Money;

#[test]
fn parses_plain_amounts() {
    assert_eq!(Money::parse_text("42.50"), Some(Money::from_units(4_250_000_000)));
    assert_eq!(Money::parse_text("10.01"), Some(Money::from_units(1_001_000_000)));
    assert_eq!(Money::parse_text("-5"), Some(Money::from_units(-500_000_000)));
    assert_eq!(Money::parse_text("+7.25"), Some(Money::from_units(725_000_000)));
    assert_eq!(Money::parse_text("0"), Some(Money::zero()));
    assert_eq!(Money::parse_text("0.00000001"), Some(Money::from_units(1)));
}

#[test]
fn rejects_malformed_amounts() {
    assert_eq!(Money::parse_text(""), None);
    assert_eq!(Money::parse_text("abc"), None);
    assert_eq!(Money::parse_text("1.2.3"), None);
    assert_eq!(Money::parse_text("1."), None);
    assert_eq!(Money::parse_text(".5"), None);
    assert_eq!(Money::parse_text("1.123456789"), None);
    assert_eq!(Money::parse_text("1e3"), None);
    assert_eq!(Money::parse_text("--4"), None);
    assert_eq!(Money::parse_text("4 2"), None);
}

#[test]
fn trims_before_parsing() {
    assert_eq!(Money::parse_trimmed("  42.50  "), Some(Money::from_units(4_250_000_000)));
    assert_eq!(Money::parse_trimmed("\t-3\n"), Some(Money::from_units(-300_000_000)));
    assert_eq!(Money::parse_trimmed("4 2"), None);
}

#[test]
fn rejects_amounts_outside_the_range() {
    // one more than 10^19 whole units does not fit
    assert_eq!(Money::parse_text("10000000000000000001"), None);
    assert!(Money::parse_text("10000000000000000000").is_some());
    assert_eq!(Money::parse_text("00000000000000000000003"), Some(Money::from_units(300_000_000)));
}

#[test]
fn renders_canonical_text() {
    assert_eq!(Money::from_units(4_250_000_000).to_text(), "42.5");
    assert_eq!(Money::from_units(1_001_000_000).to_text(), "10.01");
    assert_eq!(Money::from_units(-4_250_000_000).to_text(), "-42.5");
    assert_eq!(Money::zero().to_text(), "0");
    assert_eq!(Money::from_units(1).to_text(), "0.00000001");
}

#[test]
fn text_round_trips() {
    for units in [0i128, 1, -1, 4_250_000_000, -12_345_678_900, 100_000_000] {
        let m = Money::from_units(units);
        assert_eq!(Money::parse_text(&m.to_text()), Some(m));
    }
}

#[test]
fn exact_addition_and_comparison() {
    let a = Money::from_units(4_250_000_000);
    let b = Money::from_units(-4_250_000_000);
    assert_eq!(a.checked_add(&b), Some(Money::zero()));
    assert!(b.less_than(&a));
    assert!(a.less_eq(&a));
    assert_eq!(a.negated(), b);
    assert_eq!(b.magnitude(), a);
    assert!(a.is_positive());
    assert!(b.is_negative());
    assert!(Money::zero().is_zero());
}

#[test]
fn parses_calendar_dates() {
    assert_eq!(parse_date("2026-10-09"), Some(Date::new(2026, 10, 9)));
    assert_eq!(parse_date("2024-02-29"), Some(Date::new(2024, 2, 29)));
    assert_eq!(parse_date("2023-02-29"), None);
    assert_eq!(parse_date("2023-13-01"), None);
    assert_eq!(parse_date("2023-00-10"), None);
    assert_eq!(parse_date("2023-04-31"), None);
    assert_eq!(parse_date("2023-4-1"), None);
    assert_eq!(parse_date("not-a-date"), None);
    assert_eq!(parse_date(""), None);
}

#[test]
fn renders_dates() {
    assert_eq!(Date::new(2026, 10, 9).to_text(), "2026-10-09");
    assert_eq!(Date::new(1, 1, 1).to_text(), "0001-01-01");
}

#[test]
fn orders_dates() {
    let a = Date::new(2026, 9, 30);
    let b = Date::new(2026, 10, 1);
    assert!(a.lt(&b));
    assert!(a.le(&b));
    assert!(!b.le(&a));
    assert!(a.in_same_month(&Date::new(2026, 9, 1)));
    assert!(!a.in_same_month(&b));
}
