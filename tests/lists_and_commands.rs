use journal::commands::{parse_command, parse_find_step, parse_log_command, Command, FindStep, LogCommand};
use journal::list::{pad, parse_and_wrap, read_list, write_list};

#[test]
fn read_list_drops_empty_lines() {
    assert_eq!(read_list("a\n\nb\n"), vec![String::from("a"), String::from("b")]);
    assert!(read_list("").is_empty());
}

#[test]
fn write_list_joins_with_newlines() {
    let items = vec![String::from("a"), String::from("b c")];
    assert_eq!(write_list(&items), "a\nb c");
    assert_eq!(write_list(&vec![]), "");
    assert_eq!(read_list(&write_list(&items)), items);
}

#[test]
fn pad_lines_up_numbers() {
    assert_eq!(pad(3, 9), "3");
    assert_eq!(pad(3, 42), "3 ");
    assert_eq!(pad(12, 42), "12");
    assert_eq!(pad(3, 100), "3  ");
    assert_eq!(pad(42, 100), "42 ");
    assert_eq!(pad(123, 200), "123");
}

#[test]
fn parse_and_wrap_counts_from_either_end() {
    assert_eq!(parse_and_wrap("1", 3), Some(0));
    assert_eq!(parse_and_wrap("3", 3), Some(2));
    assert_eq!(parse_and_wrap("4", 3), None);
    assert_eq!(parse_and_wrap("-1", 3), Some(2));
    assert_eq!(parse_and_wrap("-3", 3), Some(0));
    assert_eq!(parse_and_wrap("-4", 3), None);
    assert_eq!(parse_and_wrap("0", 3), None);
    assert_eq!(parse_and_wrap("x", 3), None);
    assert_eq!(parse_and_wrap("3000000000", 3), None);
}

#[test]
fn commands_route_by_prefix() {
    assert_eq!(parse_command("/exit"), Command::Exit);
    assert_eq!(parse_command("/help"), Command::Help);
    assert_eq!(parse_command("?"), Command::Help);
    assert_eq!(parse_command("help me"), Command::Help);
    assert_eq!(parse_command(""), Command::Nothing);
    assert_eq!(parse_command("  -"), Command::Nothing);
    assert_eq!(parse_command("/switch"), Command::Switch);
    assert_eq!(parse_command("/set"), Command::Switch);
    assert_eq!(parse_command("/new"), Command::New);
    assert_eq!(parse_command("/newer"), Command::Nothing);
    assert_eq!(parse_command("/prev"), Command::Previous);
    assert_eq!(parse_command("/last 3"), Command::Previous);
    assert_eq!(parse_command("/time"), Command::Time);
    assert_eq!(parse_command("/gtime"), Command::GranularTime);
    assert_eq!(parse_command("/find"), Command::Find);
    assert_eq!(parse_command(" /unknown"), Command::Nothing);
    assert_eq!(parse_command("-new block"), Command::Append);
    assert_eq!(parse_command("~"), Command::Append);
    assert_eq!(parse_command("/exit now"), Command::Nothing);
}

#[test]
fn find_steps() {
    assert_eq!(parse_find_step(""), FindStep::Backward);
    assert_eq!(parse_find_step(" < "), FindStep::Backward);
    assert_eq!(parse_find_step(">"), FindStep::Forward);
    assert_eq!(parse_find_step(":quit"), FindStep::Quit);
    assert_eq!(parse_find_step("hello"), FindStep::Query);
}

fn items(xs: &[&str]) -> Vec<String> {
    xs.iter().map(|s| s.to_string()).collect()
}

fn after(xs: &[&str], input: &str) -> Vec<String> {
    let mut list = items(xs);
    journal::list::apply_list_input(&mut list, input);
    list
}

#[test]
fn list_commands_add_and_remove() {
    assert_eq!(after(&["a", "b"], "e z"), items(&["z", "a", "b"]));
    assert_eq!(after(&["a", "b"], "append z y"), items(&["a", "b", "z y"]));
    assert_eq!(after(&["a", "b", "c"], "x 1"), items(&["b", "c"]));
    assert_eq!(after(&["a", "b", "c"], "rm -1"), items(&["a", "b"]));
    assert_eq!(after(&["a", "b", "c"], "remove 9"), items(&["a", "b", "c"]));
    assert_eq!(after(&["a"], "hello world"), items(&["a", "hello world"]));
    assert_eq!(after(&["a"], "nospace"), items(&["a"]));
}

#[test]
fn list_commands_move_insert_rename() {
    assert_eq!(after(&["a", "b", "c"], "m 1 3"), items(&["b", "c", "a"]));
    assert_eq!(after(&["a", "b", "c"], "move -1 1"), items(&["c", "a", "b"]));
    assert_eq!(after(&["a", "b", "c"], "i 2 new item"), items(&["a", "new item", "b", "c"]));
    assert_eq!(after(&["a", "b"], "r 2 renamed"), items(&["a", "renamed"]));
    assert_eq!(after(&["a", "b"], "i 5 x"), items(&["a", "b"]));
}

#[test]
fn list_commands_tag() {
    assert_eq!(after(&["a ", "b"], "t 1 urgent"), items(&["a | urgent", "b"]));
    assert_eq!(after(&["a | urgent"], "tag 1 later"), items(&["a | later"]));
    assert_eq!(after(&["a | urgent"], "t 1 x"), items(&["a"]));
}

#[test]
fn queue_keeps_empty_lines() {
    assert_eq!(journal::list::read_queue("a\n\nb"), items(&["a", "", "b"]));
    assert_eq!(journal::list::read_queue(""), items(&[""]));
}

#[test]
fn queue_commands() {
    let mut q = items(&["a", "b", "c"]);
    assert!(journal::list::apply_queue_input(&mut q, "r -1"));
    assert_eq!(q, items(&["a", "b"]));
    assert!(journal::list::apply_queue_input(&mut q, "e z"));
    assert_eq!(q, items(&["z", "a", "b"]));
    assert!(journal::list::apply_queue_input(&mut q, "move 1 3"));
    assert_eq!(q, items(&["a", "b", "z"]));
    assert!(!journal::list::apply_queue_input(&mut q, "t 1 tag"));
    assert!(!journal::list::apply_queue_input(&mut q, "r 7"));
    assert!(!journal::list::apply_queue_input(&mut q, "nospace"));
    assert_eq!(q, items(&["a", "b", "z"]));
}

#[test]
fn log_commands() {
    assert_eq!(parse_log_command(":exit"), LogCommand::Exit);
    assert_eq!(parse_log_command("/exit"), LogCommand::Exit);
    assert_eq!(parse_log_command(":help"), LogCommand::Help);
    assert_eq!(parse_log_command(""), LogCommand::Nothing);
    assert_eq!(parse_log_command(" - "), LogCommand::Nothing);
    assert_eq!(parse_log_command(":time"), LogCommand::Time);
    assert_eq!(parse_log_command(" /gtime please"), LogCommand::GranularTime);
    assert_eq!(parse_log_command(":other"), LogCommand::Nothing);
    assert_eq!(parse_log_command("help me"), LogCommand::Nothing);
    assert_eq!(parse_log_command("worked on it"), LogCommand::Append);
    assert_eq!(parse_log_command(":exit now"), LogCommand::Nothing);
}
