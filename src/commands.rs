//! What a line typed at the prompt asks for, decided once where it is read.

use vstd::prelude::*;

use crate::chars::{chars_of, slice_chars, trim, trimmed};

verus! {

/// `p` is a prefix of `s`.
pub open spec fn is_prefix(p: Seq<char>, s: Seq<char>) -> bool {
    p.len() <= s.len() && s.subrange(0, p.len() as int) == p
}

/// Whether `p` is a prefix of `s`.
pub fn has_prefix(s: &Vec<char>, p: &Vec<char>) -> (r: bool)
    ensures
        r == is_prefix(p@, s@),
{
    if p.len() > s.len() {
        return false;
    }
    let mut i: usize = 0;
    while i < p.len()
        invariant
            i <= p@.len() <= s@.len(),
            forall|j: int| 0 <= j < i ==> s@[j] == p@[j],
        decreases p@.len() - i,
    {
        if s[i] != p[i] {
            assert(s@.subrange(0, p@.len() as int)[i as int] != p@[i as int]);
            return false;
        }
        i = i + 1;
    }
    assert(s@.subrange(0, p@.len() as int) =~= p@);
    true
}

/// What a line typed at the journal's prompt asks for.
#[derive(Clone, Copy, Debug, PartialEq, Eq, Structural)]
pub enum Command {
    /// Leave the program.
    Exit,
    /// Show the help text.
    Help,
    /// Nothing to do: an empty line, a lone `-`, `help` text, or an unknown command.
    Nothing,
    /// Pick another journal.
    Switch,
    /// Create a journal.
    New,
    /// Page through earlier entries.
    Previous,
    /// Show the time breakdown of today's entry.
    Time,
    /// Show the time breakdown of today's entry, for every unit.
    GranularTime,
    /// Search the journal's entries.
    Find,
    /// Add the line to today's entry.
    Append,
}

pub open spec fn cmd_exit() -> Seq<char> { seq!['/', 'e', 'x', 'i', 't'] }
pub open spec fn cmd_new() -> Seq<char> { seq!['/', 'n', 'e', 'w'] }

/// What the line, with its trailing white space already dropped, asks for.
pub open spec fn command_of(input: Seq<char>) -> Command {
    let t = trim(input);
    if input == cmd_exit() {
        Command::Exit
    } else if is_prefix(seq!['?'], input) || is_prefix(seq!['/', '?'], input) || is_prefix(
        seq!['h', 'e', 'l', 'p'],
        input,
    ) || is_prefix(seq!['/', 'h', 'e', 'l', 'p'], input) {
        Command::Help
    } else if t.len() == 0 || t == seq!['-'] {
        Command::Nothing
    } else if is_prefix(seq!['/'], t) {
        if is_prefix(seq!['/', 's', 'e', 't'], input) || is_prefix(
            seq!['/', 's', 'w', 'i', 't', 'c', 'h'],
            input,
        ) {
            Command::Switch
        } else if input == cmd_new() {
            Command::New
        } else if is_prefix(seq!['/', 'l', 'a', 's', 't'], input) || is_prefix(
            seq!['/', 'p', 'r', 'e', 'v'],
            input,
        ) {
            Command::Previous
        } else if is_prefix(seq!['/', 't', 'i', 'm', 'e'], input) {
            Command::Time
        } else if is_prefix(seq!['/', 'g', 't', 'i', 'm', 'e'], input) {
            Command::GranularTime
        } else if is_prefix(seq!['/', 'f', 'i', 'n', 'd'], input) {
            Command::Find
        } else {
            Command::Nothing
        }
    } else {
        Command::Append
    }
}

/// What a line typed at the journal's prompt asks for; the line comes without its trailing
/// white space.
pub fn parse_command(input: &str) -> (r: Command)
    ensures
        r == command_of(input@),
{
    let s = chars_of(input);
    let t = trimmed(&s);
    let exit = vec!['/', 'e', 'x', 'i', 't'];
    let new = vec!['/', 'n', 'e', 'w'];
    let question = vec!['?'];
    assert(question@ =~= seq!['?']);
    let slash_question = vec!['/', '?'];
    assert(slash_question@ =~= seq!['/', '?']);
    let help = vec!['h', 'e', 'l', 'p'];
    assert(help@ =~= seq!['h', 'e', 'l', 'p']);
    let slash_help = vec!['/', 'h', 'e', 'l', 'p'];
    assert(slash_help@ =~= seq!['/', 'h', 'e', 'l', 'p']);
    let slash = vec!['/'];
    assert(slash@ =~= seq!['/']);
    let set = vec!['/', 's', 'e', 't'];
    assert(set@ =~= seq!['/', 's', 'e', 't']);
    let switch = vec!['/', 's', 'w', 'i', 't', 'c', 'h'];
    assert(switch@ =~= seq!['/', 's', 'w', 'i', 't', 'c', 'h']);
    let last = vec!['/', 'l', 'a', 's', 't'];
    assert(last@ =~= seq!['/', 'l', 'a', 's', 't']);
    let prev = vec!['/', 'p', 'r', 'e', 'v'];
    assert(prev@ =~= seq!['/', 'p', 'r', 'e', 'v']);
    let time = vec!['/', 't', 'i', 'm', 'e'];
    assert(time@ =~= seq!['/', 't', 'i', 'm', 'e']);
    let gtime = vec!['/', 'g', 't', 'i', 'm', 'e'];
    assert(gtime@ =~= seq!['/', 'g', 't', 'i', 'm', 'e']);
    let find = vec!['/', 'f', 'i', 'n', 'd'];
    assert(find@ =~= seq!['/', 'f', 'i', 'n', 'd']);
    if s.len() == exit.len() && has_prefix(&s, &exit) {
        assert(s@ =~= exit@);
        return Command::Exit;
    }
    assert(s@ != cmd_exit()) by {
        if s@ == cmd_exit() {
            assert(s@.subrange(0, 5) =~= s@);
        }
    }
    if has_prefix(&s, &question) || has_prefix(&s, &slash_question) || has_prefix(&s, &help)
        || has_prefix(&s, &slash_help) {
        return Command::Help;
    }
    if t.len() == 0 || (t.len() == 1 && t[0] == '-') {
        proof {
            if t.len() == 1 {
                assert(t@ =~= seq!['-']);
            }
        }
        return Command::Nothing;
    }
    assert(t@ != seq!['-']) by {
        if t@.len() == 1 {
            assert(t@[0] != '-');
        }
    }
    if !has_prefix(&t, &slash) {
        return Command::Append;
    }
    if has_prefix(&s, &set) || has_prefix(&s, &switch) {
        return Command::Switch;
    }
    if s.len() == new.len() && has_prefix(&s, &new) {
        assert(s@ =~= new@);
        return Command::New;
    }
    assert(s@ != cmd_new()) by {
        if s@ == cmd_new() {
            assert(s@.subrange(0, 4) =~= s@);
        }
    }
    if has_prefix(&s, &last) || has_prefix(&s, &prev) {
        Command::Previous
    } else if has_prefix(&s, &time) {
        Command::Time
    } else if has_prefix(&s, &gtime) {
        Command::GranularTime
    } else if has_prefix(&s, &find) {
        Command::Find
    } else {
        Command::Nothing
    }
}

/// What a line typed while searching asks for.
#[derive(Clone, Copy, Debug, PartialEq, Eq, Structural)]
pub enum FindStep {
    /// Find the next match before the current one: `<`, or an empty line.
    Backward,
    /// Find the next match after the current one: `>`.
    Forward,
    /// Stop searching: `:quit`.
    Quit,
    /// Search for the line's text from the starting date.
    Query,
}

/// What the line typed while searching asks for.
pub open spec fn find_step_of(input: Seq<char>) -> FindStep {
    let t = trim(input);
    if t == seq!['<'] || t.len() == 0 {
        FindStep::Backward
    } else if t == seq!['>'] {
        FindStep::Forward
    } else if t == seq![':', 'q', 'u', 'i', 't'] {
        FindStep::Quit
    } else {
        FindStep::Query
    }
}

/// What the line typed while searching asks for.
pub fn parse_find_step(input: &str) -> (r: FindStep)
    ensures
        r == find_step_of(input@),
{
    let t = trimmed(&chars_of(input));
    let quit = vec![':', 'q', 'u', 'i', 't'];
    if t.len() == 0 || (t.len() == 1 && t[0] == '<') {
        proof {
            if t.len() == 1 {
                assert(t@ =~= seq!['<']);
            }
        }
        return FindStep::Backward;
    }
    assert(t@ != seq!['<']) by {
        if t@.len() == 1 {
            assert(t@[0] != '<');
        }
    }
    if t.len() == 1 && t[0] == '>' {
        assert(t@ =~= seq!['>']);
        return FindStep::Forward;
    }
    assert(t@ != seq!['>']) by {
        if t@.len() == 1 {
            assert(t@[0] != '>');
        }
    }
    if t.len() == quit.len() && has_prefix(&t, &quit) {
        assert(t@ =~= quit@);
        return FindStep::Quit;
    }
    assert(t@ != seq![':', 'q', 'u', 'i', 't']) by {
        if t@ == seq![':', 'q', 'u', 'i', 't'] {
            assert(t@.subrange(0, 5) =~= t@);
        }
    }
    FindStep::Query
}


/// What a line typed at a log's prompt asks for.
#[derive(Clone, Copy, Debug, PartialEq, Eq, Structural)]
pub enum LogCommand {
    /// Leave the program: `:exit` or `/exit`.
    Exit,
    /// Show the help text: `:help` or `/help`.
    Help,
    /// Nothing to do: an empty line, a lone `-`, `help` text, or an unknown command.
    Nothing,
    /// Show the time breakdown of the log: a command starting with `time`.
    Time,
    /// Show the time breakdown for every unit: a command starting with `gtime`.
    GranularTime,
    /// Add the line to the log.
    Append,
}

/// `s` starts with `:` or `/`, which mark a command at a log's prompt.
pub open spec fn is_command_mark(s: Seq<char>) -> bool {
    s.len() > 0 && (s[0] == ':' || s[0] == '/')
}

/// What the line typed at a log's prompt asks for; the line comes without its trailing white
/// space.
pub open spec fn log_command_of(input: Seq<char>) -> LogCommand {
    let t = trim(input);
    if is_command_mark(input) && input.drop_first() == seq!['e', 'x', 'i', 't'] {
        LogCommand::Exit
    } else if is_command_mark(input) && input.drop_first() == seq!['h', 'e', 'l', 'p'] {
        LogCommand::Help
    } else if t.len() == 0 || t == seq!['-'] {
        LogCommand::Nothing
    } else if is_command_mark(t) {
        if is_prefix(seq!['t', 'i', 'm', 'e'], t.drop_first()) {
            LogCommand::Time
        } else if is_prefix(seq!['g', 't', 'i', 'm', 'e'], t.drop_first()) {
            LogCommand::GranularTime
        } else {
            LogCommand::Nothing
        }
    } else if is_prefix(seq!['h', 'e', 'l', 'p'], input) {
        LogCommand::Nothing
    } else {
        LogCommand::Append
    }
}

/// Whether `s` and `w` hold the same characters.
pub fn same_chars(s: &Vec<char>, w: &Vec<char>) -> (r: bool)
    ensures
        r == (s@ == w@),
{
    if s.len() != w.len() {
        return false;
    }
    let r = has_prefix(s, w);
    assert(s@.subrange(0, w@.len() as int) =~= s@);
    r
}

/// What a line typed at a log's prompt asks for; the line comes without its trailing white
/// space.
pub fn parse_log_command(input: &str) -> (r: LogCommand)
    ensures
        r == log_command_of(input@),
{
    let s = chars_of(input);
    let t = trimmed(&s);
    let exit = vec!['e', 'x', 'i', 't'];
    let help = vec!['h', 'e', 'l', 'p'];
    let time = vec!['t', 'i', 'm', 'e'];
    let gtime = vec!['g', 't', 'i', 'm', 'e'];
    assert(exit@ =~= seq!['e', 'x', 'i', 't']);
    assert(help@ =~= seq!['h', 'e', 'l', 'p']);
    assert(time@ =~= seq!['t', 'i', 'm', 'e']);
    assert(gtime@ =~= seq!['g', 't', 'i', 'm', 'e']);
    let n = s.len();
    if n > 0 && (s[0] == ':' || s[0] == '/') {
        let rest = slice_chars(&s, 1, n);
        assert(rest@ =~= s@.drop_first());
        if same_chars(&rest, &exit) {
            return LogCommand::Exit;
        }
        if same_chars(&rest, &help) {
            return LogCommand::Help;
        }
    }
    if t.len() == 0 || (t.len() == 1 && t[0] == '-') {
        proof {
            if t.len() == 1 {
                assert(t@ =~= seq!['-']);
            }
        }
        return LogCommand::Nothing;
    }
    assert(t@ != seq!['-']) by {
        if t@.len() == 1 {
            assert(t@[0] != '-');
        }
    }
    let m = t.len();
    if t[0] == ':' || t[0] == '/' {
        let command = slice_chars(&t, 1, m);
        assert(command@ =~= t@.drop_first());
        if has_prefix(&command, &time) {
            return LogCommand::Time;
        }
        if has_prefix(&command, &gtime) {
            return LogCommand::GranularTime;
        }
        return LogCommand::Nothing;
    }
    if has_prefix(&s, &help) {
        LogCommand::Nothing
    } else {
        LogCommand::Append
    }
}

} // verus!
