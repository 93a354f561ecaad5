use journal::calendar::{datestamp, timestamp, Date, Moment};
use journal::chars::two_dig_number;
use journal::error::JournalError;
use journal::store::{entry_path, find_journal, list_journals, load_log, load_or_init, new_journal_text, new_log_text};

fn d(year: i32, month: u32, day: u32) -> Date {
    Date::new(year, month, day).unwrap()
}

#[test]
fn fresh_entry_has_heading_and_reads_back() {
    let (text, created) = load_or_init("Work", d(2023, 1, 5), None);
    assert!(created);
    assert_eq!(text, "Work - Thursday 2023/1/5\n");
    let first_line = text.split('\n').next().unwrap();
    assert_eq!(first_line, "Work - Thursday 2023/1/5");
    let (again, created_again) = load_or_init("Work", d(2023, 1, 5), Some(text.clone()));
    assert!(!created_again);
    assert_eq!(again, text);
}

#[test]
fn no_journals_then_create_one() {
    assert_eq!(list_journals(vec![]), Err(JournalError::NotFound));
    let today = d(2024, 2, 29);
    let (text, created) = load_or_init("Work", today, None);
    assert!(created);
    assert_eq!(text, "Work - Thursday 2024/2/29\n");
    assert_eq!(entry_path("Work", today), "Work/2024/02/29.txt");
    let names = vec![String::from("Work")];
    assert_eq!(list_journals(names.clone()), Ok(names));
}

#[test]
fn load_strips_carriage_returns() {
    assert_eq!(load_log("a\r\nb\r\n"), "a\nb\n");
    assert_eq!(load_log(""), "");
}

#[test]
fn weekday_names_come_from_the_calendar() {
    assert_eq!(new_journal_text("J", d(2023, 1, 1)), "J - Sunday 2023/1/1\n");
    assert_eq!(new_journal_text("J", d(2000, 2, 29)), "J - Tuesday 2000/2/29\n");
    assert_eq!(new_journal_text("J", d(2023, 12, 25)), "J - Monday 2023/12/25\n");
}

#[test]
fn log_heading_pads_month_and_day() {
    assert_eq!(new_log_text("log.txt", d(2023, 1, 5)), "log.txt - 2023/01/05\n");
}

#[test]
fn dates_validate() {
    assert!(Date::new(2023, 2, 29).is_none());
    assert!(Date::new(2024, 2, 29).is_some());
    assert!(Date::new(2023, 13, 1).is_none());
    assert!(Date::new(2023, 4, 31).is_none());
    assert!(Date::new(1900, 2, 29).is_none());
    assert!(Date::new(2023, 0, 1).is_none());
}

#[test]
fn next_and_previous_day() {
    assert_eq!(d(2023, 12, 31).next(), d(2024, 1, 1));
    assert_eq!(d(2024, 2, 28).next(), d(2024, 2, 29));
    assert_eq!(d(2023, 2, 28).next(), d(2023, 3, 1));
    assert_eq!(d(2024, 1, 1).prev(), d(2023, 12, 31));
    assert_eq!(d(2024, 3, 1).prev(), d(2024, 2, 29));
}

#[test]
fn seconds_count_whole_days() {
    let a = Moment { date: d(2023, 12, 31), hour: 23, minute: 0, second: 0 };
    let b = Moment { date: d(2024, 1, 1), hour: 1, minute: 0, second: 0 };
    assert_eq!(b.seconds() - a.seconds(), 7200);
    let e = Moment { date: d(1970, 1, 1), hour: 0, minute: 0, second: 0 };
    assert_eq!(e.seconds(), 719_163 * 86400);
}

#[test]
fn stamps_and_numbers() {
    assert_eq!(two_dig_number(0), "00");
    assert_eq!(two_dig_number(7), "07");
    assert_eq!(two_dig_number(10), "10");
    assert_eq!(two_dig_number(123), "123");
    assert_eq!(datestamp(d(2023, 1, 5)), "2023/1/5");
    assert_eq!(datestamp(Date { year: -44, month: 3, day: 15 }), "-44/3/15");
    let m = Moment { date: d(2023, 1, 5), hour: 0, minute: 5, second: 0 };
    assert_eq!(timestamp(m), "12:05 am");
    let m = Moment { date: d(2023, 1, 5), hour: 12, minute: 0, second: 0 };
    assert_eq!(timestamp(m), "12:00 pm");
    let m = Moment { date: d(2023, 1, 5), hour: 21, minute: 45, second: 0 };
    assert_eq!(timestamp(m), "09:45 pm");
}

#[test]
fn find_journal_by_index_or_prefix() {
    let js = vec![String::from("Work"), String::from("personal"), String::from("Workout")];
    assert_eq!(find_journal("1", &js), Some(String::from("personal")));
    assert_eq!(find_journal("+2", &js), Some(String::from("Workout")));
    assert_eq!(find_journal("3", &js), None);
    assert_eq!(find_journal("wo", &js), Some(String::from("Work")));
    assert_eq!(find_journal("PER", &js), Some(String::from("personal")));
    assert_eq!(find_journal("x", &js), None);
    assert_eq!(find_journal("", &js), Some(String::from("Work")));
    assert_eq!(find_journal("-1", &js), None);
}
