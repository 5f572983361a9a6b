use diary::date::Date;
use diary::day::Day;
use diary::error::Error;
use diary::event::Event;
use diary::export::Exporter;
use diary::reconcile::{DuplicateStrategy, Importer};
use diary::record::{Format, Record};
use diary::store::DatabaseManager;

fn date(y: i32, m: u8, d: u8) -> Date {
    Date::new(y, m, d).unwrap()
}

fn day(y: i32, m: u8, d: u8, text: &str) -> Day {
    Day::new(date(y, m, d), Event::new(text), None, None)
}

fn batch_of_five() -> Vec<Day> {
    vec![
        day(2025, 3, 1, "one"),
        day(2025, 3, 2, "two"),
        day(2025, 3, 3, "three"),
        day(2025, 3, 4, "four"),
        day(2025, 3, 5, "five"),
    ]
}

#[test]
fn fail_on_conflict_applies_nothing() {
    let mut db = DatabaseManager::open_in_memory().unwrap();
    db.add_day(&day(2025, 3, 3, "already here")).unwrap();
    let res = Importer::new().import_to_db(&mut db, batch_of_five(), DuplicateStrategy::Fail);
    match res {
        Err(Error::Conflict(s)) => assert_eq!(s, "20250303"),
        other => panic!("unexpected: {:?}", other),
    }
    let all = db.read_all().unwrap();
    assert_eq!(all.len(), 1);
    assert_eq!(all[0].event().instruct, "already here");
}

#[test]
fn fail_without_conflict_applies_everything() {
    let mut db = DatabaseManager::open_in_memory().unwrap();
    Importer::new()
        .import_to_db(&mut db, batch_of_five(), DuplicateStrategy::Fail)
        .unwrap();
    assert_eq!(db.read_all().unwrap().len(), 5);
}

#[test]
fn fail_detects_duplicates_within_the_batch() {
    let mut db = DatabaseManager::open_in_memory().unwrap();
    let batch = vec![day(2025, 3, 1, "a"), day(2025, 3, 1, "b")];
    let res = Importer::new().import_to_db(&mut db, batch, DuplicateStrategy::Fail);
    assert!(matches!(res, Err(Error::Conflict(_))));
    assert_eq!(db.read_all().unwrap().len(), 0);
}

#[test]
fn replace_applies_all_and_overwrites() {
    let mut db = DatabaseManager::open_in_memory().unwrap();
    db.add_day(&day(2025, 3, 3, "already here")).unwrap();
    Importer::new()
        .import_to_db(&mut db, batch_of_five(), DuplicateStrategy::Replace)
        .unwrap();
    let all = db.read_all().unwrap();
    assert_eq!(all.len(), 5);
    let third = db.read_day(date(2025, 3, 3)).unwrap().unwrap();
    assert_eq!(third.event().instruct, "three");
}

#[test]
fn ignore_keeps_existing_records() {
    let mut db = DatabaseManager::open_in_memory().unwrap();
    db.add_day(&day(2025, 3, 3, "already here")).unwrap();
    Importer::new()
        .import_to_db(&mut db, batch_of_five(), DuplicateStrategy::Ignore)
        .unwrap();
    let all = db.read_all().unwrap();
    assert_eq!(all.len(), 5);
    let third = db.read_day(date(2025, 3, 3)).unwrap().unwrap();
    assert_eq!(third.event().instruct, "already here");
}

#[test]
fn append_policy_is_unsupported() {
    let mut db = DatabaseManager::open_in_memory().unwrap();
    let res = Importer::new().import_to_db(&mut db, batch_of_five(), DuplicateStrategy::Append);
    assert!(matches!(res, Err(Error::Unsupported)));
    assert_eq!(db.read_all().unwrap().len(), 0);
}

#[test]
fn export_then_import_reproduces_the_store() {
    let mut db = DatabaseManager::open_in_memory().unwrap();
    db.add_day(&Day::new(
        date(2025, 1, 12),
        Event::new("hike"),
        Some("sunny".to_string()),
        Some("8.0".to_string()),
    ))
    .unwrap();
    db.add_day(&day(2024, 12, 31, "party")).unwrap();
    db.add_day(&Day::new(
        date(2025, 2, 2),
        Event::new(""),
        None,
        Some("3.5".to_string()),
    ))
    .unwrap();

    let payload = Exporter::new(&db).all_export().unwrap();
    assert_eq!(payload.len(), 3);

    let mut fresh = DatabaseManager::open_in_memory().unwrap();
    let (days, errors) = Importer::convert_records(&payload);
    assert!(errors.is_empty());
    Importer::new()
        .import_to_db(&mut fresh, days, DuplicateStrategy::Replace)
        .unwrap();

    let a = db.read_all().unwrap();
    let b = fresh.read_all().unwrap();
    assert_eq!(a.len(), b.len());
    for (x, y) in a.iter().zip(b.iter()) {
        assert_eq!(x.date(), y.date());
        assert_eq!(x.event().instruct, y.event().instruct);
        assert_eq!(x.weather(), y.weather());
        assert_eq!(x.mood(), y.mood());
    }
}

#[test]
fn exported_records_carry_canonical_dates_in_order() {
    let mut db = DatabaseManager::open_in_memory().unwrap();
    db.add_day(&day(2025, 6, 1, "b")).unwrap();
    db.add_day(&day(2025, 1, 15, "a")).unwrap();
    let payload = Exporter::new(&db).all_export().unwrap();
    assert_eq!(payload[0].date, "20250115");
    assert_eq!(payload[1].date, "20250601");
}

#[test]
fn convert_records_reports_parse_failures_per_record() {
    let records = vec![
        Record {
            date: "20250112".to_string(),
            event: "fine".to_string(),
            weather: None,
            mood: None,
        },
        Record {
            date: "not-a-date".to_string(),
            event: "broken".to_string(),
            weather: None,
            mood: None,
        },
        Record {
            date: "20250230".to_string(),
            event: "bad day number".to_string(),
            weather: None,
            mood: None,
        },
        Record {
            date: "20250113".to_string(),
            event: "also fine".to_string(),
            weather: Some("fog".to_string()),
            mood: None,
        },
    ];
    let (days, errors) = Importer::convert_records(&records);
    assert_eq!(days.len(), 2);
    assert_eq!(days[0].date(), date(2025, 1, 12));
    assert_eq!(days[1].date(), date(2025, 1, 13));
    assert_eq!(days[1].weather(), Some("fog"));
    assert_eq!(errors.len(), 2);
    assert!(matches!(&errors[0], Error::InvalidDate(s) if s == "not-a-date"));
    assert!(matches!(&errors[1], Error::InvalidDate(s) if s == "20250230"));
}

#[test]
fn record_conversion_round_trips() {
    let d = Day::new(
        date(2025, 1, 12),
        Event::new("text"),
        Some("hail".to_string()),
        None,
    );
    let rec = Record::from_day(&d);
    assert_eq!(rec.date, "20250112");
    assert_eq!(rec.event, "text");
    assert_eq!(rec.weather.as_deref(), Some("hail"));
    assert_eq!(rec.mood, None);
    let back = Day::from_record(&rec).unwrap();
    assert_eq!(back.date(), d.date());
    assert_eq!(back.event().instruct, "text");
    assert_eq!(back.weather(), Some("hail"));
}

#[test]
fn format_names_parse_case_insensitively() {
    assert!(matches!(Format::parse("json"), Ok(Format::Json)));
    assert!(matches!(Format::parse("JSON"), Ok(Format::Json)));
    assert!(matches!(Format::parse("csv"), Ok(Format::Csv)));
    assert!(matches!(Format::parse("Csv"), Ok(Format::Csv)));
    assert!(matches!(Format::parse("xml"), Err(Error::InvalidData(s)) if s == "xml"));
    assert!(matches!(Format::parse(""), Err(Error::InvalidData(_))));
}
