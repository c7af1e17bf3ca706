use clistudy::store::{check_minutes, needs_parse};
use clistudy::{add_session, load_sessions, Date, Session, StoreError};

fn session(days: i32, minutes: i64, topic: &str) -> Session {
    Session { date: Date::from_days(days), minutes, topic: topic.to_string() }
}

#[test]
fn first_run_loads_nothing() {
    assert!(!needs_parse(None));
    let r = load_sessions(None, None).unwrap();
    assert!(r.is_empty());
}

#[test]
fn blank_file_loads_nothing() {
    for text in ["", " ", "\n", " \t\r\n ", "\u{a0}\u{3000}"] {
        assert!(!needs_parse(Some(text)));
        let r = load_sessions(Some(text), None).unwrap();
        assert!(r.is_empty());
    }
}

#[test]
fn corrupt_file_is_an_error() {
    let text = "{not json";
    assert!(needs_parse(Some(text)));
    assert_eq!(load_sessions(Some(text), None).unwrap_err(), StoreError::Corrupt);
}

#[test]
fn parsed_sessions_are_returned() {
    let text = "[{\"date\":\"2024-01-02\",\"minutes\":30,\"topic\":\"math\"}]";
    assert!(needs_parse(Some(text)));
    let parsed = vec![session(738887, 30, "math")];
    let r = load_sessions(Some(text), Some(parsed)).unwrap();
    assert_eq!(r.len(), 1);
    assert_eq!(r[0].minutes, 30);
    assert_eq!(r[0].topic, "math");
    assert_eq!(r[0].date, Date::from_days(738887));
}

#[test]
fn non_positive_minutes_are_refused() {
    let mut sessions = vec![session(1, 10, "a")];
    assert_eq!(add_session(&mut sessions, Date::from_days(2), 0, "x".to_string()), Err(StoreError::Validation));
    assert_eq!(add_session(&mut sessions, Date::from_days(2), -5, "x".to_string()), Err(StoreError::Validation));
    assert_eq!(sessions.len(), 1);
    assert_eq!(sessions[0].topic, "a");
    assert_eq!(check_minutes(0), Err(StoreError::Validation));
    assert_eq!(check_minutes(-5), Err(StoreError::Validation));
    assert_eq!(check_minutes(1), Ok(()));
}

#[test]
fn add_session_appends_dated_today() {
    let mut sessions = vec![session(1, 10, "a")];
    let today = Date::from_days(9);
    assert_eq!(add_session(&mut sessions, today, 25, "rust".to_string()), Ok(()));
    assert_eq!(sessions.len(), 2);
    assert_eq!(sessions[0].topic, "a");
    assert_eq!(sessions[1].date, today);
    assert_eq!(sessions[1].minutes, 25);
    assert_eq!(sessions[1].topic, "rust");
}
