use diary::command::{Args, Command, Executor, Mode, Parser, SubCommand};
use diary::date::Date;
use diary::error::Error;
use diary::store::DatabaseManager;

fn reference() -> Date {
    Date::new(2025, 6, 15).unwrap()
}

#[test]
fn verb_aliases_map_onto_four_operations() {
    assert!(matches!(SubCommand::parse("ad"), Ok(SubCommand::Add)));
    assert!(matches!(SubCommand::parse("add"), Ok(SubCommand::Add)));
    assert!(matches!(SubCommand::parse("rm"), Ok(SubCommand::Remove)));
    assert!(matches!(SubCommand::parse("remove"), Ok(SubCommand::Remove)));
    assert!(matches!(SubCommand::parse("delete"), Ok(SubCommand::Remove)));
    assert!(matches!(SubCommand::parse("del"), Ok(SubCommand::Remove)));
    assert!(matches!(SubCommand::parse("chk"), Ok(SubCommand::Check)));
    assert!(matches!(SubCommand::parse("check"), Ok(SubCommand::Check)));
    assert!(matches!(SubCommand::parse("read"), Ok(SubCommand::Check)));
    assert!(matches!(SubCommand::parse("show"), Ok(SubCommand::Check)));
    assert!(matches!(SubCommand::parse("ls"), Ok(SubCommand::ListAll)));
    assert!(matches!(SubCommand::parse("list"), Ok(SubCommand::ListAll)));
}

#[test]
fn unknown_verbs_are_reported_with_their_text() {
    match SubCommand::parse("frobnicate") {
        Err(Error::UnknownCommand(v)) => assert_eq!(v, "frobnicate"),
        other => panic!("unexpected: {:?}", other),
    }
    assert!(matches!(
        Command::parse("frobnicate today", reference()),
        Err(Error::UnknownCommand(_))
    ));
}

#[test]
fn add_lines_split_into_date_and_entry_text() {
    match Command::parse("add 2025-01-12 met an old friend", reference()) {
        Ok(Command::Add(d, Some(text))) => {
            assert_eq!(d, Date::new(2025, 1, 12).unwrap());
            assert_eq!(text, "met an old friend");
        },
        other => panic!("unexpected: {:?}", other),
    }
    match Command::parse("add today", reference()) {
        Ok(Command::Add(d, None)) => assert_eq!(d, reference()),
        other => panic!("unexpected: {:?}", other),
    }
}

#[test]
fn other_lines_resolve_their_date_token() {
    assert!(matches!(
        Command::parse("rm yesterday", reference()),
        Ok(Command::Remove(d)) if d == Date::new(2025, 6, 14).unwrap()
    ));
    assert!(matches!(
        Command::parse("check 20250112", reference()),
        Ok(Command::Check(d)) if d == Date::new(2025, 1, 12).unwrap()
    ));
    assert!(matches!(
        Command::parse("ls", reference()),
        Ok(Command::ListAll)
    ));
    assert!(matches!(
        Command::parse("add nonsense", reference()),
        Err(Error::InvalidDate(_))
    ));
    let p = Parser::new();
    assert!(matches!(p.parse("list", reference()), Ok(Command::ListAll)));
}

#[test]
fn add_appends_newline_joined_text() {
    let db = DatabaseManager::open_in_memory().unwrap();
    let mut ex = Executor::new(db);
    let d = Date::new(2025, 1, 12).unwrap();
    ex.exec(&Command::Add(d, Some("first line".to_string()))).unwrap();
    ex.exec(&Command::Add(d, Some("second line".to_string()))).unwrap();
    let shown = ex.exec(&Command::Check(d)).unwrap();
    assert_eq!(shown.len(), 1);
    assert_eq!(shown[0].event().instruct, "first line\nsecond line");
}

#[test]
fn add_without_text_changes_nothing() {
    let db = DatabaseManager::open_in_memory().unwrap();
    let mut ex = Executor::new(db);
    let d = Date::new(2025, 1, 12).unwrap();
    ex.exec(&Command::Add(d, None)).unwrap();
    assert!(ex.exec(&Command::Check(d)).unwrap().is_empty());
}

#[test]
fn remove_and_list_work_through_the_executor() {
    let db = DatabaseManager::open_in_memory().unwrap();
    let mut ex = Executor::new(db);
    let d1 = Date::new(2025, 1, 12).unwrap();
    let d2 = Date::new(2025, 1, 13).unwrap();
    ex.exec(&Command::Add(d1, Some("a".to_string()))).unwrap();
    ex.exec(&Command::Add(d2, Some("b".to_string()))).unwrap();
    ex.exec(&Command::Remove(d1)).unwrap();
    let all = ex.exec(&Command::ListAll).unwrap();
    assert_eq!(all.len(), 1);
    assert_eq!(all[0].date(), d2);
}

#[test]
fn session_mode_follows_the_arguments() {
    let base = Args {
        time: None,
        event: None,
        remove: false,
        clear: false,
        interactive: false,
    };
    assert_eq!(Mode::of_args(&base), Mode::Interactive);
    let with_time = Args {
        time: Some("2025-01-12".to_string()),
        ..base
    };
    assert_eq!(Mode::of_args(&with_time), Mode::Once);
    let forced = Args {
        interactive: true,
        time: Some("2025-01-12".to_string()),
        event: None,
        remove: false,
        clear: false,
    };
    assert_eq!(Mode::of_args(&forced), Mode::Interactive);
}
