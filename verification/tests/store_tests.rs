use diary::date::Date;
use diary::day::Day;
use diary::event::Event;
use diary::store::DatabaseManager;

fn date(y: i32, m: u8, d: u8) -> Date {
    Date::new(y, m, d).unwrap()
}

fn day(y: i32, m: u8, d: u8, text: &str) -> Day {
    Day::new(date(y, m, d), Event::new(text), None, None)
}

#[test]
fn upsert_then_get_returns_the_written_record() {
    let mut db = DatabaseManager::open_in_memory().unwrap();
    let written = Day::new(
        date(2025, 1, 12),
        Event::new("went hiking"),
        Some("sunny".to_string()),
        Some("7.5".to_string()),
    );
    db.add_day(&written).unwrap();
    let read = db.read_day(date(2025, 1, 12)).unwrap().unwrap();
    assert_eq!(read.date(), date(2025, 1, 12));
    assert_eq!(read.event().instruct, "went hiking");
    assert_eq!(read.weather(), Some("sunny"));
    assert_eq!(read.mood(), Some("7.5"));
}

#[test]
fn second_upsert_fully_replaces_the_first() {
    let mut db = DatabaseManager::open_in_memory().unwrap();
    let first = Day::new(
        date(2025, 1, 12),
        Event::new("old text"),
        Some("rainy".to_string()),
        None,
    );
    db.add_day(&first).unwrap();
    let second = day(2025, 1, 12, "new text");
    db.add_day(&second).unwrap();
    let read = db.read_day(date(2025, 1, 12)).unwrap().unwrap();
    assert_eq!(read.event().instruct, "new text");
    assert_eq!(read.weather(), None);
    assert_eq!(db.read_all().unwrap().len(), 1);
}

#[test]
fn get_on_empty_store_is_none() {
    let db = DatabaseManager::open_in_memory().unwrap();
    assert!(db.read_day(date(2025, 1, 12)).unwrap().is_none());
}

#[test]
fn delete_missing_date_succeeds_and_changes_nothing() {
    let mut db = DatabaseManager::open_in_memory().unwrap();
    db.add_day(&day(2025, 1, 12, "kept")).unwrap();
    let n = db.remove_day(date(2024, 3, 3)).unwrap();
    assert_eq!(n, 0);
    let all = db.read_all().unwrap();
    assert_eq!(all.len(), 1);
    assert_eq!(all[0].event().instruct, "kept");
}

#[test]
fn delete_existing_shrinks_listing_by_one() {
    let mut db = DatabaseManager::open_in_memory().unwrap();
    db.add_day(&day(2025, 1, 12, "a")).unwrap();
    db.add_day(&day(2025, 1, 13, "b")).unwrap();
    assert_eq!(db.read_all().unwrap().len(), 2);
    let n = db.remove_day(date(2025, 1, 12)).unwrap();
    assert_eq!(n, 1);
    let all = db.read_all().unwrap();
    assert_eq!(all.len(), 1);
    assert_eq!(all[0].event().instruct, "b");
}

#[test]
fn list_all_is_sorted_for_any_insertion_order() {
    let mut db = DatabaseManager::open_in_memory().unwrap();
    db.add_day(&day(2025, 6, 1, "june")).unwrap();
    db.add_day(&day(2024, 12, 31, "nye")).unwrap();
    db.add_day(&day(2025, 1, 15, "jan")).unwrap();
    let all = db.read_all().unwrap();
    assert_eq!(all.len(), 3);
    assert_eq!(all[0].date(), date(2024, 12, 31));
    assert_eq!(all[1].date(), date(2025, 1, 15));
    assert_eq!(all[2].date(), date(2025, 6, 1));
}

#[test]
fn empty_range_gives_empty_listing() {
    let mut db = DatabaseManager::open_in_memory().unwrap();
    db.add_day(&day(2025, 1, 12, "a")).unwrap();
    let v = db
        .read_from_to(date(2025, 2, 1), date(2025, 1, 1))
        .unwrap();
    assert!(v.is_empty());
}

#[test]
fn range_bounds_are_inclusive() {
    let mut db = DatabaseManager::open_in_memory().unwrap();
    db.add_day(&day(2025, 1, 10, "before")).unwrap();
    db.add_day(&day(2025, 1, 12, "low")).unwrap();
    db.add_day(&day(2025, 1, 15, "mid")).unwrap();
    db.add_day(&day(2025, 1, 20, "high")).unwrap();
    db.add_day(&day(2025, 1, 25, "after")).unwrap();
    let v = db
        .read_from_to(date(2025, 1, 12), date(2025, 1, 20))
        .unwrap();
    assert_eq!(v.len(), 3);
    assert_eq!(v[0].event().instruct, "low");
    assert_eq!(v[1].event().instruct, "mid");
    assert_eq!(v[2].event().instruct, "high");
}

#[test]
fn empty_entry_text_is_kept_distinct_from_absent_metadata() {
    let mut db = DatabaseManager::open_in_memory().unwrap();
    db.add_day(&day(2025, 1, 12, "")).unwrap();
    let read = db.read_day(date(2025, 1, 12)).unwrap().unwrap();
    assert_eq!(read.event().instruct, "");
    assert_eq!(read.weather(), None);
    assert_eq!(read.mood(), None);
}

#[test]
fn extreme_dates_sort_and_round_trip() {
    let mut db = DatabaseManager::open_in_memory().unwrap();
    db.add_day(&day(9999, 12, 31, "last")).unwrap();
    db.add_day(&day(0, 1, 1, "first")).unwrap();
    db.add_day(&day(2025, 6, 15, "middle")).unwrap();
    let all = db.read_all().unwrap();
    assert_eq!(all.len(), 3);
    assert_eq!(all[0].event().instruct, "first");
    assert_eq!(all[1].event().instruct, "middle");
    assert_eq!(all[2].event().instruct, "last");
    assert_eq!(all[0].date(), Date::first_day());
    assert_eq!(all[2].date(), Date::last_day());
}
