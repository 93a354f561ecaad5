use journal::calendar::{Date, Moment};
use journal::entry::{append, append_to_log, journal_line, no_entries, push_block, push_line, toggle_block};
use journal::error::JournalError;

fn at(hour: u32, minute: u32) -> Moment {
    Moment { date: Date { year: 2023, month: 1, day: 5 }, hour, minute, second: 0 }
}

const HEADING: &str = "Work - Thursday 2023/1/5\n";

#[test]
fn dash_input_on_empty_text_is_one_block() {
    let r = append("", at(9, 5), "-hello").unwrap();
    assert_eq!(r, "\n\n09:05 am - hello");
    assert_eq!(r.matches("09:05 am - ").count(), 1);
    assert!(!r.contains("- -hello"));
}

#[test]
fn first_input_of_a_day_is_a_block_without_dash() {
    let r = append(HEADING, at(9, 5), "hello").unwrap();
    assert_eq!(r, "Work - Thursday 2023/1/5\n\n\n09:05 am - hello");
}

#[test]
fn first_input_strips_the_dash_before_trimming() {
    let r = append(HEADING, at(9, 5), "  -x").unwrap();
    assert_eq!(r, "Work - Thursday 2023/1/5\n\n\n09:05 am - -x");
    let r = append(HEADING, at(9, 5), "--x ").unwrap();
    assert_eq!(r, "Work - Thursday 2023/1/5\n\n\n09:05 am - -x");
    let r = append(HEADING, at(9, 5), "- x").unwrap();
    assert_eq!(r, "Work - Thursday 2023/1/5\n\n\n09:05 am - x");
}

#[test]
fn plain_input_after_a_block_is_a_nested_line() {
    let text = append(HEADING, at(9, 0), "-first").unwrap();
    let r = append(&text, at(9, 6), "world").unwrap();
    assert_eq!(r, format!("{}\n\t09:06 am - world", text));
}

#[test]
fn dash_input_after_a_block_starts_another_block() {
    let text = append(HEADING, at(9, 0), "-first").unwrap();
    let r = append(&text, at(13, 30), "-  second  ").unwrap();
    assert_eq!(r, format!("{}\n\n01:30 pm - second", text));
}

#[test]
fn line_input_is_trimmed_but_keeps_inner_spaces() {
    let text = append(HEADING, at(9, 0), "-first").unwrap();
    let r = append(&text, at(9, 1), "  a  b \t").unwrap();
    assert!(r.ends_with("\n\t09:01 am - a  b"));
}

#[test]
fn toggle_twice_restores_text() {
    let text = append(HEADING, at(9, 0), "-first").unwrap();
    let text = append(&text, at(9, 10), "second").unwrap();
    let once = append(&text, at(9, 11), "~").unwrap();
    assert_eq!(once, "Work - Thursday 2023/1/5\n\n\n09:00 am - first\n\n09:10 am - second");
    let twice = append(&once, at(9, 12), " ~ ").unwrap();
    assert_eq!(twice, text);
}

#[test]
fn toggle_turns_last_block_into_line() {
    let mut s = String::from("h - x\n\n09:00 am - a\n\n09:01 am - b");
    toggle_block(&mut s);
    assert_eq!(s, "h - x\n\n09:00 am - a\n\t09:01 am - b");
}

#[test]
fn toggle_without_separators_is_noop() {
    let mut s = String::from("no separators - here\n");
    toggle_block(&mut s);
    assert_eq!(s, "no separators - here\n");
}

#[test]
fn toggle_with_too_few_dashes_is_rejected() {
    assert_eq!(append(HEADING, at(9, 0), "~"), Err(JournalError::Rejected));
    assert_eq!(append("", at(9, 0), "~"), Err(JournalError::Rejected));
    assert!(no_entries(HEADING));
    assert!(!no_entries("a - b - c"));
}

#[test]
fn rejection_message() {
    assert_eq!(JournalError::Rejected.message(), "Can't use '~' when there aren't any entries");
    assert_eq!(JournalError::NotFound.message(), "There are no journals.");
    assert_eq!(JournalError::InvalidYearFolder.message(), "Folders in the journal root must all be years");
}

#[test]
fn journal_line_formats_indent_and_timestamp() {
    assert_eq!(journal_line(at(0, 7), 2, "x"), "\n\t\t12:07 am - x");
    assert_eq!(journal_line(at(12, 0), 0, "noon"), "\n12:00 pm - noon");
    assert_eq!(journal_line(at(23, 59), 1, ""), "\n\t11:59 pm - ");
}

#[test]
fn push_block_and_line() {
    let mut s = String::from("t");
    push_block(at(10, 0), "  a ", &mut s);
    assert_eq!(s, "t\n\n10:00 am - a");
    push_line(at(10, 1), " b", &mut s);
    assert_eq!(s, "t\n\n10:00 am - a\n\t10:01 am - b");
}

#[test]
fn log_append_keeps_white_space() {
    let text = "log.txt - 2023/01/05\n";
    let r = append_to_log(text, at(9, 0), "- spaced ").unwrap();
    assert_eq!(r, "log.txt - 2023/01/05\n\n\n09:00 am -  spaced ");
    let r2 = append_to_log(&r, at(9, 1), " line").unwrap();
    assert!(r2.ends_with("\n\t09:01 am -  line"));
    assert_eq!(append_to_log(text, at(9, 2), "~"), Err(JournalError::Rejected));
}
