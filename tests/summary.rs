use clistudy::summary::total_of;
use clistudy::session::totals_fit;
use clistudy::{summary_between, summary_for_date, summary_today, summary_week, Date, Session};

fn session(date: Date, minutes: i64, topic: &str) -> Session {
    Session { date, minutes, topic: topic.to_string() }
}

#[test]
fn aggregation_by_day() {
    let d1 = Date::from_ymd(2024, 5, 1).unwrap();
    let d2 = Date::from_ymd(2024, 5, 2).unwrap();
    let sessions = vec![
        session(d1, 30, "math"),
        session(d1, 15, "math"),
        session(d1, 20, "cs"),
        session(d2, 10, "math"),
    ];
    let first = summary_for_date(&sessions, d1);
    assert_eq!(first.len(), 2);
    assert_eq!(first.get("math"), Some(45));
    assert_eq!(first.get("cs"), Some(20));
    let second = summary_for_date(&sessions, d2);
    assert_eq!(second.len(), 1);
    assert_eq!(second.get("math"), Some(10));
    assert_eq!(second.get("cs"), None);
}

#[test]
fn aggregation_over_range() {
    let d1 = Date::from_days(100);
    let d2 = Date::from_days(101);
    let d3 = Date::from_days(102);
    let sessions = vec![
        session(d1, 30, "math"),
        session(d2, 20, "cs"),
        session(d3, 10, "math"),
        session(d2, 5, "math"),
    ];
    let s = summary_between(&sessions, d1, d2);
    assert_eq!(s.len(), 2);
    assert_eq!(s.get("math"), Some(35));
    assert_eq!(s.get("cs"), Some(20));
    let all = summary_between(&sessions, d1, d3);
    assert_eq!(all.get("math"), Some(45));
    let reversed = summary_between(&sessions, d3, d1);
    assert!(reversed.is_empty());
}

#[test]
fn topics_are_case_sensitive() {
    let d = Date::from_days(5);
    let sessions = vec![session(d, 10, "Math"), session(d, 20, "math"), session(d, 5, "math ")];
    let s = summary_today(&sessions, d);
    assert_eq!(s.len(), 3);
    assert_eq!(s.get("Math"), Some(10));
    assert_eq!(s.get("math"), Some(20));
    assert_eq!(s.get("math "), Some(5));
}

#[test]
fn week_window_is_inclusive_of_sixth_day() {
    let today = Date::from_ymd(2024, 3, 3).unwrap();
    let six = Date::from_ymd(2024, 2, 26).unwrap();
    let seven = Date::from_ymd(2024, 2, 25).unwrap();
    assert_eq!(six.days, today.days - 6);
    assert_eq!(seven.days, today.days - 7);
    let sessions = vec![
        session(six, 40, "rust"),
        session(seven, 50, "old"),
        session(today, 5, "rust"),
    ];
    let week = summary_week(&sessions, today);
    assert_eq!(week.len(), 1);
    assert_eq!(week.get("rust"), Some(45));
    assert_eq!(week.get("old"), None);
}

#[test]
fn week_excludes_future_days() {
    let today = Date::from_days(1000);
    let sessions = vec![session(Date::from_days(1001), 10, "later"), session(today, 3, "now")];
    let week = summary_week(&sessions, today);
    assert_eq!(week.len(), 1);
    assert_eq!(week.get("now"), Some(3));
}

#[test]
fn empty_aggregation() {
    let d = Date::from_days(10);
    let sessions = vec![session(d, 30, "math")];
    let s = summary_for_date(&sessions, Date::from_days(11));
    assert!(s.is_empty());
    assert_eq!(s.len(), 0);
    assert!(s.ranked().is_empty());
    let none: Vec<Session> = Vec::new();
    assert!(summary_week(&none, d).is_empty());
}

#[test]
fn ranked_largest_first() {
    let d = Date::from_days(1);
    let sessions = vec![
        session(d, 10, "a"),
        session(d, 30, "b"),
        session(d, 10, "c"),
        session(d, 25, "a"),
    ];
    let rows = summary_for_date(&sessions, d).ranked();
    let names: Vec<&str> = rows.iter().map(|(t, _)| t.as_str()).collect();
    let minutes: Vec<i64> = rows.iter().map(|(_, m)| *m).collect();
    assert_eq!(names, vec!["a", "b", "c"]);
    assert_eq!(minutes, vec![35, 30, 10]);
    assert_eq!(total_of(&rows), Some(75));
}

#[test]
fn ranked_ties_keep_first_seen_order() {
    let d = Date::from_days(1);
    let sessions = vec![session(d, 10, "x"), session(d, 20, "y"), session(d, 10, "z")];
    let rows = summary_for_date(&sessions, d).ranked();
    let names: Vec<&str> = rows.iter().map(|(t, _)| t.as_str()).collect();
    assert_eq!(names, vec!["y", "x", "z"]);
}

#[test]
fn total_of_rows() {
    assert_eq!(total_of(&[]), Some(0));
    let rows = vec![("a".to_string(), 7), ("b".to_string(), -2)];
    assert_eq!(total_of(&rows), Some(5));
    let big = vec![("a".to_string(), i64::MAX), ("b".to_string(), 1)];
    assert_eq!(total_of(&big), None);
    let back = vec![("a".to_string(), i64::MAX), ("b".to_string(), 1), ("c".to_string(), -1)];
    assert_eq!(total_of(&back), Some(i64::MAX));
}

#[test]
fn totals_fit_bound() {
    let d = Date::from_days(1);
    assert!(totals_fit(&[]));
    assert!(totals_fit(&[session(d, 30, "a"), session(d, -5, "b")]));
    assert!(totals_fit(&[session(d, i64::MAX, "a")]));
    assert!(!totals_fit(&[session(d, i64::MAX, "a"), session(d, 1, "b")]));
    assert!(!totals_fit(&[session(d, i64::MIN, "a")]));
    assert!(!totals_fit(&[session(d, i64::MAX, "a"), session(d, -1, "b")]));
}
