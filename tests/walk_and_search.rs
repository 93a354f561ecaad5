use journal::calendar::{Date, Moment};
use journal::error::JournalError;
use journal::navigator::{parse_year, Direction, Navigator, Page};
use journal::search::{match_entry_folded, search_entry};
use journal::stats::time_breakdown;

fn d(year: i32, month: u32, day: u32) -> Date {
    Date::new(year, month, day).unwrap()
}

fn folders(names: &[&str]) -> Vec<String> {
    names.iter().map(|s| s.to_string()).collect()
}

/// Drives a walk the way the caller does, visiting only the dates that hold an entry.
fn visits(names: &[&str], entries: &[Date], start: Date, dir: Direction) -> Vec<Date> {
    let mut nav = Navigator::new(&folders(names), start, dir).unwrap();
    let mut seen = Vec::new();
    while let Some(date) = nav.next() {
        if entries.contains(&date) {
            seen.push(date);
        }
    }
    seen
}

#[test]
fn backward_walk_across_years() {
    let entries = [d(2023, 1, 5), d(2023, 6, 10), d(2024, 2, 1)];
    let seen = visits(&["2023", "2024"], &entries, d(2024, 3, 1), Direction::Backwards);
    assert_eq!(seen, vec![d(2024, 2, 1), d(2023, 6, 10), d(2023, 1, 5)]);
}

#[test]
fn forward_walk_across_years_in_any_folder_order() {
    let entries = [d(2023, 1, 5), d(2023, 6, 10), d(2024, 2, 1)];
    let seen = visits(&["2024", "2023"], &entries, d(2023, 1, 6), Direction::Forwards);
    assert_eq!(seen, vec![d(2023, 6, 10), d(2024, 2, 1)]);
}

#[test]
fn walk_skips_years_without_folder() {
    let mut nav = Navigator::new(&folders(&["2020", "2023"]), d(2023, 1, 2), Direction::Backwards).unwrap();
    assert_eq!(nav.next(), Some(d(2023, 1, 2)));
    assert_eq!(nav.next(), Some(d(2023, 1, 1)));
    assert_eq!(nav.next(), Some(d(2020, 12, 31)));
}

#[test]
fn walk_from_a_year_without_folder_snaps_to_nearest() {
    let mut back = Navigator::new(&folders(&["2020", "2023"]), d(2022, 5, 5), Direction::Backwards).unwrap();
    assert_eq!(back.next(), Some(d(2020, 12, 31)));
    let mut fwd = Navigator::new(&folders(&["2020", "2023"]), d(2022, 5, 5), Direction::Forwards).unwrap();
    assert_eq!(fwd.next(), Some(d(2023, 1, 1)));
    let mut none = Navigator::new(&folders(&["2020"]), d(2022, 5, 5), Direction::Forwards).unwrap();
    assert_eq!(none.next(), None);
}

#[test]
fn walk_over_no_folders_visits_nothing() {
    let mut nav = Navigator::new(&folders(&[]), d(2024, 3, 1), Direction::Backwards).unwrap();
    assert_eq!(nav.next(), None);
}

#[test]
fn single_entry_is_visited_once_either_way() {
    let entries = [d(2023, 6, 10)];
    assert_eq!(visits(&["2023"], &entries, d(2023, 12, 31), Direction::Backwards), vec![d(2023, 6, 10)]);
    assert_eq!(visits(&["2023"], &entries, d(2023, 1, 1), Direction::Forwards), vec![d(2023, 6, 10)]);
}

#[test]
fn non_numeric_year_folder_is_an_error() {
    let r = Navigator::new(&folders(&["2023", "notes"]), d(2023, 1, 1), Direction::Forwards);
    assert_eq!(r.unwrap_err(), JournalError::InvalidYearFolder);
    assert_eq!(parse_year("2023"), Some(2023));
    assert_eq!(parse_year("+7"), Some(7));
    assert_eq!(parse_year("-44"), Some(-44));
    assert_eq!(parse_year(""), None);
    assert_eq!(parse_year("-"), None);
    assert_eq!(parse_year("20x3"), None);
    assert_eq!(parse_year("99999999999999999999999"), None);
}

#[test]
fn page_keeps_its_slice_of_latest_entries() {
    let mut page = Page::new(2, 2);
    let mut taken = 0;
    for text in ["e0", "e1", "e2", "e3", "e4"] {
        taken += 1;
        if !page.visit(text.to_string()) {
            break;
        }
    }
    assert_eq!(taken, 4);
    assert_eq!(page.entries(), vec![String::from("e3"), String::from("e2")]);
    assert_eq!(page.label_number(0), Some(3));
    assert_eq!(page.label_number(1), Some(2));
    let mut first = Page::new(3, 0);
    assert!(first.visit(String::from("latest")));
    assert_eq!(first.label_number(0), None);
}

#[test]
fn time_breakdown_reports_since_last() {
    let day = d(2023, 1, 5);
    let text = "Work - Thursday 2023/1/5\n\n09:00 am - a\n\t09:30 am - b";
    let reference = Moment { date: day, hour: 10, minute: 0, second: 0 };
    let now = Moment { date: day, hour: 10, minute: 15, second: 0 };
    let marks = time_breakdown(text, reference, now, true);
    assert_eq!(marks.len(), 3);
    assert_eq!(marks[0].text, "09:00 am - a");
    assert!(marks[0].is_block);
    assert!(marks[0].elapsed.is_none());
    assert!(!marks[1].is_block);
    let e1 = marks[1].elapsed.unwrap();
    assert_eq!(e1.since_last, 30 * 60);
    assert_eq!(e1.since_start, 30 * 60);
    assert_eq!(e1.since_block, 30 * 60);
    assert_eq!(marks[2].text, "<now>");
    let e2 = marks[2].elapsed.unwrap();
    assert_eq!(e2.since_start, 75 * 60);
    assert_eq!(e2.since_last, 45 * 60);
    let plain = time_breakdown(text, reference, now, false);
    assert!(plain[1].elapsed.is_none());
    assert!(plain[2].elapsed.is_some());
}

#[test]
fn time_breakdown_reads_pm_and_skips_bad_lines() {
    let day = d(2023, 1, 5);
    let text = "h\n\n01:15 pm - a\n\n12:10 pm - b\nx:1\n\n11:75 am - bad\n\n10:00 pm - c";
    let reference = Moment { date: day, hour: 23, minute: 0, second: 30 };
    let now = Moment { date: d(2023, 1, 6), hour: 0, minute: 0, second: 30 };
    let marks = time_breakdown(text, reference, now, false);
    let texts: Vec<&str> = marks.iter().map(|m| m.text.as_str()).collect();
    assert_eq!(texts, vec!["01:15 pm - a", "12:10 pm - b", "10:00 pm - c", "<now>"]);
    assert_eq!(marks[1].seconds - marks[0].seconds, -65 * 60);
    let e = marks[2].elapsed.unwrap();
    assert_eq!(e.since_block, 10 * 3600 - 10 * 60);
    assert_eq!(marks[3].elapsed.unwrap().since_last, 2 * 3600);
}

#[test]
fn search_finds_block_and_line_ignoring_case() {
    let text = "Work - Thursday 2023/1/5\n\n09:00 am - Hello there\n\t09:10 am - other\n\n10:00 am - unrelated";
    let m = search_entry(text, "hello").unwrap();
    assert_eq!(m.heading, "Work - Thursday 2023/1/5");
    assert_eq!(m.blocks.len(), 1);
    assert_eq!(m.blocks[0].len(), 2);
    assert_eq!(m.blocks[0][0].text, "09:00 am - Hello there");
    assert_eq!(m.blocks[0][0].column, Some(11));
    assert_eq!(m.blocks[0][1].column, None);
}

#[test]
fn search_misses_or_matches_a_heading_only_entry() {
    assert!(search_entry("Work - x\n\n09:00 am - abc", "zzz").is_none());
    let heading_only = search_entry("Work - hello", "HELLO").unwrap();
    assert_eq!(heading_only.heading, "Work - hello");
    assert_eq!(heading_only.blocks.len(), 1);
    assert_eq!(heading_only.blocks[0][0].column, Some(7));
}

#[test]
fn search_folds_unicode_case_for_the_entry_check() {
    let text = "J - d\n\n09:00 am - ÉTÉ";
    let m = search_entry(text, "été").unwrap();
    assert_eq!(m.heading, "J - d");
    assert!(m.blocks.is_empty());
    let folded = match_entry_folded(text, "été", "j - d\n\n09:00 am - été", "été").unwrap();
    assert!(folded.blocks.is_empty());
    assert!(match_entry_folded(text, "été", "nothing", "été").is_none());
}
