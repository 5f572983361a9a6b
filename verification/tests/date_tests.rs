use diary::date::Date;
use diary::error::Error;

#[test]
fn new_accepts_valid_dates() {
    assert!(Date::new(2025, 1, 12).is_ok());
    assert!(Date::new(0, 1, 1).is_ok());
    assert!(Date::new(9999, 12, 31).is_ok());
    assert!(Date::new(2024, 2, 29).is_ok());
    assert!(Date::new(2000, 2, 29).is_ok());
}

#[test]
fn new_rejects_invalid_dates() {
    assert!(matches!(Date::new(2025, 13, 1), Err(Error::OutOfRange)));
    assert!(matches!(Date::new(2025, 0, 1), Err(Error::OutOfRange)));
    assert!(matches!(Date::new(2025, 1, 0), Err(Error::OutOfRange)));
    assert!(matches!(Date::new(2025, 4, 31), Err(Error::OutOfRange)));
    assert!(matches!(Date::new(2023, 2, 29), Err(Error::OutOfRange)));
    assert!(matches!(Date::new(1900, 2, 29), Err(Error::OutOfRange)));
    assert!(matches!(Date::new(-1, 1, 1), Err(Error::OutOfRange)));
    assert!(matches!(Date::new(10000, 1, 1), Err(Error::OutOfRange)));
}

#[test]
fn next_day_rolls_over() {
    let d = Date::new(2025, 1, 31).unwrap();
    assert_eq!(d.next_day().unwrap(), Date::new(2025, 2, 1).unwrap());
    let d = Date::new(2024, 2, 28).unwrap();
    assert_eq!(d.next_day().unwrap(), Date::new(2024, 2, 29).unwrap());
    let d = Date::new(2025, 12, 31).unwrap();
    assert_eq!(d.next_day().unwrap(), Date::new(2026, 1, 1).unwrap());
    assert!(Date::last_day().next_day().is_none());
}

#[test]
fn previous_day_rolls_back() {
    let d = Date::new(2025, 3, 1).unwrap();
    assert_eq!(d.previous_day().unwrap(), Date::new(2025, 2, 28).unwrap());
    let d = Date::new(2025, 1, 1).unwrap();
    assert_eq!(d.previous_day().unwrap(), Date::new(2024, 12, 31).unwrap());
    assert!(Date::first_day().previous_day().is_none());
}

#[test]
fn add_days_moves_and_saturates() {
    let d = Date::new(2025, 1, 12).unwrap();
    assert_eq!(d.add_days_saturating(3), Date::new(2025, 1, 15).unwrap());
    assert_eq!(d.add_days_saturating(-12), Date::new(2024, 12, 31).unwrap());
    assert_eq!(d.add_days_saturating(0), d);
    assert_eq!(d.add_days_saturating(i64::MAX), Date::last_day());
    assert_eq!(d.add_days_saturating(i64::MIN), Date::first_day());
}

#[test]
fn format_canonical_is_zero_padded() {
    assert_eq!(Date::new(2025, 1, 12).unwrap().format_canonical(), "20250112");
    assert_eq!(Date::new(0, 1, 1).unwrap().format_canonical(), "00000101");
    assert_eq!(Date::new(9999, 12, 31).unwrap().format_canonical(), "99991231");
}

#[test]
fn parse_canonical_reads_back() {
    assert_eq!(
        Date::parse_canonical("20250112").unwrap(),
        Date::new(2025, 1, 12).unwrap()
    );
    assert!(Date::parse_canonical("20251301").is_none());
    assert!(Date::parse_canonical("2025011").is_none());
    assert!(Date::parse_canonical("202501120").is_none());
    assert!(Date::parse_canonical("2025-01-12").is_none());
}

#[test]
fn parse_dashed_reads_back() {
    assert_eq!(
        Date::parse_dashed_str("2025-01-12").unwrap(),
        Date::new(2025, 1, 12).unwrap()
    );
    assert!(Date::parse_dashed_str("2025-13-01").is_none());
    assert!(Date::parse_dashed_str("20250112").is_none());
}
