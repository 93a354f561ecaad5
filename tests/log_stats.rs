use journal::calendar::{Date, Moment};
use journal::logstats::{duration_to_str, log_time_breakdown, parse_date};

#[test]
fn parse_date_takes_the_leftmost_date() {
    assert_eq!(parse_date("log - 2023/01/05"), Some(Date { year: 2023, month: 1, day: 5 }));
    assert_eq!(parse_date("12023/1/5 and 2024/2/2"), Some(Date { year: 2023, month: 1, day: 5 }));
    assert_eq!(parse_date("09:00 am - no date"), None);
    assert_eq!(parse_date("2023/13/45"), None);
    assert_eq!(parse_date("23/1/5"), None);
}

#[test]
fn log_breakdown_follows_date_lines() {
    let text = "log - 2023/01/05\n\n09:00 am - a\n\t09:30 am - b\n\n----\tDate: 2023/01/06\t----\n\n\t08:00 am - c";
    let now = Moment { date: Date { year: 2023, month: 1, day: 6 }, hour: 9, minute: 0, second: 0 };
    let marks = log_time_breakdown(text, now, false);
    let texts: Vec<&str> = marks.iter().map(|m| m.text.as_str()).collect();
    assert_eq!(texts, vec!["09:00 am - a", "\t09:30 am - b", "\t08:00 am - c", "<now>"]);
    assert!(marks[0].is_block);
    assert!(!marks[1].is_block);
    assert!(marks[2].is_block);
    assert!(marks[1].elapsed.is_none());
    let e = marks[2].elapsed.unwrap();
    assert_eq!(e.since_last, 22 * 3600 + 30 * 60);
    assert_eq!(e.since_start, 23 * 3600);
    assert_eq!(marks[3].elapsed.unwrap().since_last, 3600);
}

#[test]
fn log_breakdown_ignores_times_before_any_date() {
    let text = "untitled\n\n09:00 am - a";
    let now = Moment { date: Date { year: 2023, month: 1, day: 6 }, hour: 9, minute: 0, second: 0 };
    let marks = log_time_breakdown(text, now, true);
    assert_eq!(marks.len(), 1);
    assert_eq!(marks[0].text, "<now>");
}

#[test]
fn durations_as_days_hours_minutes() {
    assert_eq!(duration_to_str(0), "0");
    assert_eq!(duration_to_str(59), "0");
    assert_eq!(duration_to_str(60), "1m");
    assert_eq!(duration_to_str(3600), "1h 0m");
    assert_eq!(duration_to_str(3660), "1h 1m");
    assert_eq!(duration_to_str(90061), "1d  1h 1m");
    assert_eq!(duration_to_str(86400), "1d  0h 0m");
    assert_eq!(duration_to_str(-30), "0");
    assert_eq!(duration_to_str(-60), "");
}
