use diary::date::Date;
use diary::error::Error;

fn reference() -> Date {
    Date::new(2025, 6, 15).unwrap()
}

#[test]
fn empty_input_means_reference() {
    let r = reference();
    assert_eq!(Date::resolve("", r).unwrap(), r);
    assert_eq!(Date::resolve("   ", r).unwrap(), r);
    assert_eq!(Date::resolve("\t today \n", r).unwrap(), r);
}

#[test]
fn keywords_resolve_relative_to_reference() {
    let r = reference();
    assert_eq!(Date::resolve("today", r).unwrap(), r);
    assert_eq!(Date::resolve("t", r).unwrap(), r);
    assert_eq!(
        Date::resolve("yesterday", r).unwrap(),
        Date::new(2025, 6, 14).unwrap()
    );
    assert_eq!(Date::resolve("y", r).unwrap(), Date::new(2025, 6, 14).unwrap());
    assert_eq!(
        Date::resolve("tomorrow", r).unwrap(),
        Date::new(2025, 6, 16).unwrap()
    );
    assert_eq!(Date::resolve("m", r).unwrap(), Date::new(2025, 6, 16).unwrap());
}

#[test]
fn keywords_at_the_bounds_are_range_errors() {
    assert!(matches!(
        Date::resolve("yesterday", Date::first_day()),
        Err(Error::OutOfRange)
    ));
    assert!(matches!(
        Date::resolve("tomorrow", Date::last_day()),
        Err(Error::OutOfRange)
    ));
}

#[test]
fn offsets_move_by_days() {
    let r = reference();
    assert_eq!(Date::resolve("-3", r).unwrap(), Date::new(2025, 6, 12).unwrap());
    assert_eq!(Date::resolve("5", r).unwrap(), Date::new(2025, 6, 20).unwrap());
    assert_eq!(Date::resolve("+2", r).unwrap(), Date::new(2025, 6, 17).unwrap());
    assert_eq!(Date::resolve("0", r).unwrap(), r);
}

#[test]
fn four_digit_numbers_are_offsets_not_years() {
    let r = reference();
    assert_eq!(Date::resolve("0112", r).unwrap(), r.add_days_saturating(112));
}

#[test]
fn huge_offsets_saturate() {
    let r = reference();
    assert_eq!(Date::resolve("99999999999999", r).unwrap(), Date::last_day());
    assert_eq!(Date::resolve("-99999999999999", r).unwrap(), Date::first_day());
}

#[test]
fn day_of_month_shorthand() {
    let r = reference();
    assert_eq!(Date::resolve("m05", r).unwrap(), Date::new(2025, 6, 5).unwrap());
    assert_eq!(Date::resolve("m30", r).unwrap(), Date::new(2025, 6, 30).unwrap());
    // June has thirty days: the resulting date is invalid, not clamped.
    assert!(matches!(Date::resolve("m31", r), Err(Error::InvalidDate(_))));
    // A single digit after the prefix is not the shorthand.
    assert!(matches!(Date::resolve("m5", r), Err(Error::InvalidDate(_))));
}

#[test]
fn month_day_shorthand() {
    let r = reference();
    assert_eq!(Date::resolve("ye0512", r).unwrap(), Date::new(2025, 5, 12).unwrap());
    assert_eq!(Date::resolve("ye1231", r).unwrap(), Date::new(2025, 12, 31).unwrap());
    assert!(matches!(Date::resolve("ye1301", r), Err(Error::InvalidDate(_))));
    assert!(matches!(Date::resolve("ye0230", r), Err(Error::InvalidDate(_))));
}

#[test]
fn absolute_formats_round_trip() {
    let r = reference();
    let d = Date::new(2021, 11, 30).unwrap();
    assert_eq!(Date::resolve("2021-11-30", r).unwrap(), d);
    assert_eq!(Date::resolve("20211130", r).unwrap(), d);
    assert_eq!(Date::resolve(&d.format_canonical(), r).unwrap(), d);
    let e = Date::new(2000, 2, 29).unwrap();
    assert_eq!(Date::resolve(&e.format_canonical(), r).unwrap(), e);
}

#[test]
fn unresolvable_input_reports_the_trimmed_text() {
    let r = reference();
    match Date::resolve("  gibberish ", r) {
        Err(Error::InvalidDate(s)) => assert_eq!(s, "gibberish"),
        other => panic!("unexpected: {:?}", other),
    }
    assert!(matches!(Date::resolve("2025-13-01", r), Err(Error::InvalidDate(_))));
    assert!(matches!(Date::resolve("20251301", r), Err(Error::InvalidDate(_))));
    assert!(matches!(Date::resolve("12345678", r), Err(Error::InvalidDate(_))));
}
