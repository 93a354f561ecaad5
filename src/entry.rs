//! The text of one day's entry: its heading, how input is merged into it as blocks and
//! lines, and how the last unit is toggled between the two.

use vstd::prelude::*;

use crate::calendar::{Moment, push_timestamp, timestamp_text};
use crate::chars::{
    append_chars, chars_of, count_char, count_of, strip_dash, string_of, trim, trimmed,
};
use crate::error::JournalError;

verus! {

/// `n` tab characters.
pub open spec fn tabs(n: nat) -> Seq<char>
    decreases n,
{
    if n == 0 { Seq::empty() } else { tabs((n - 1) as nat).push('\t') }
}

/// One unit of input: a newline, `indent` tabs, the timestamp, ` - ` and the content.
pub open spec fn unit_text(t: Moment, indent: nat, content: Seq<char>) -> Seq<char> {
    seq!['\n'] + tabs(indent) + timestamp_text(t.hour as nat, t.minute as nat) + seq![' ', '-', ' ']
        + content
}

/// The text holds no unit yet: fewer than two `-` characters in all.
pub open spec fn has_no_entries(text: Seq<char>) -> bool {
    count_char(text, '-') < 2
}

/// `s` starts with `-`.
pub open spec fn starts_with_dash(s: Seq<char>) -> bool {
    s.len() > 0 && s[0] == '-'
}

/// The input asks for a toggle: it is `~` once trimmed.
pub open spec fn is_toggle(input: Seq<char>) -> bool {
    trim(input) == seq!['~']
}

/// `x` then `y` stand at positions `i` and `i + 1` of `s`.
pub open spec fn pair_at(s: Seq<char>, i: int, x: char, y: char) -> bool {
    0 <= i && i + 1 < s.len() && s[i] == x && s[i + 1] == y
}

/// Where the last occurrence of `x y` in `s` starts, or -1 when there is none.
pub open spec fn rfind_pair(s: Seq<char>, x: char, y: char) -> int
    decreases s.len(),
{
    if s.len() < 2 {
        -1
    } else if s[s.len() - 2] == x && s.last() == y {
        s.len() - 2
    } else {
        rfind_pair(s.drop_last(), x, y)
    }
}

/// The text with its last unit flipped between block and line: whichever of the last `\n\n`
/// and the last `\n\t` comes later has its second character swapped for the other's.
pub open spec fn toggle_text(s: Seq<char>) -> Seq<char> {
    let a = rfind_pair(s, '\n', '\n');
    let b = rfind_pair(s, '\n', '\t');
    if a > b {
        s.update(a + 1, '\t')
    } else if b >= 0 {
        s.update(b + 1, '\n')
    } else {
        s
    }
}

/// What `append` makes of the text and the input.
pub open spec fn appended(text: Seq<char>, t: Moment, input: Seq<char>) -> Result<
    Seq<char>,
    JournalError,
> {
    if is_toggle(input) {
        if has_no_entries(text) {
            Err(JournalError::Rejected)
        } else {
            Ok(toggle_text(text))
        }
    } else if starts_with_dash(input) || has_no_entries(text) {
        Ok(text + seq!['\n'] + unit_text(t, 0, trim(strip_dash(input))))
    } else {
        Ok(text + unit_text(t, 1, trim(input)))
    }
}

/// The same result with the string seen as its characters.
pub open spec fn result_view(r: Result<String, JournalError>) -> Result<Seq<char>, JournalError> {
    match r {
        Ok(s) => Ok(s@),
        Err(e) => Err(e),
    }
}

proof fn lemma_rfind_pair(s: Seq<char>, x: char, y: char)
    ensures
        -1 <= rfind_pair(s, x, y),
        rfind_pair(s, x, y) >= 0 ==> rfind_pair(s, x, y) + 2 <= s.len(),
        rfind_pair(s, x, y) >= 0 ==> pair_at(s, rfind_pair(s, x, y), x, y),
        forall|j: int| rfind_pair(s, x, y) < j ==> !pair_at(s, j, x, y),
    decreases s.len(),
{
    if s.len() >= 2 && !(s[s.len() - 2] == x && s.last() == y) {
        lemma_rfind_pair(s.drop_last(), x, y);
        assert forall|j: int| rfind_pair(s, x, y) < j implies !pair_at(s, j, x, y) by {
            if pair_at(s, j, x, y) && j + 2 < s.len() {
                assert(pair_at(s.drop_last(), j, x, y));
            }
        }
    }
}

/// Where the last `x y` starts in `s`, if anywhere.
fn rfind_pair_in(s: &Vec<char>, x: char, y: char) -> (r: Option<usize>)
    ensures
        match r {
            Some(i) => rfind_pair(s@, x, y) == i,
            None => rfind_pair(s@, x, y) == -1,
        },
{
    let mut j: usize = s.len();
    assert(s@.subrange(0, j as int) =~= s@);
    while j >= 2
        invariant
            j <= s@.len(),
            rfind_pair(s@, x, y) == rfind_pair(s@.subrange(0, j as int), x, y),
        decreases j,
    {
        if s[j - 2] == x && s[j - 1] == y {
            return Some(j - 2);
        }
        assert(s@.subrange(0, j as int).drop_last() =~= s@.subrange(0, j - 1));
        j = j - 1;
    }
    None
}

/// Flips the last unit of the text between block and line form; with neither separator in
/// the text, leaves it as it is.
pub fn toggle_block(content: &mut String)
    ensures
        final(content)@ == toggle_text(old(content)@),
{
    let mut v = chars_of(content.as_str());
    let a = rfind_pair_in(&v, '\n', '\n');
    let b = rfind_pair_in(&v, '\n', '\t');
    let len = v.len();
    assert(len == v@.len());
    proof {
        lemma_rfind_pair(v@, '\n', '\n');
        lemma_rfind_pair(v@, '\n', '\t');
    }
    if let Some(i) = a {
        assert(pair_at(v@, i as int, '\n', '\n'));
        if b.is_none() || i > b.unwrap() {
            v.set(i + 1, '\t');
        } else {
            let k = b.unwrap();
            v.set(k + 1, '\n');
        }
    } else if let Some(k) = b {
        assert(pair_at(v@, k as int, '\n', '\t'));
        v.set(k + 1, '\n');
    }
    *content = string_of(&v);
}

/// Appends `indent` tabs.
fn push_tabs(out: &mut Vec<char>, indent: usize)
    ensures
        final(out)@ == old(out)@ + tabs(indent as nat),
{
    let mut i: usize = 0;
    while i < indent
        invariant
            i <= indent,
            out@ == old(out)@ + tabs(i as nat),
        decreases indent - i,
    {
        out.push('\t');
        i = i + 1;
        assert(old(out)@ + tabs(i as nat) =~= old(out)@ + tabs((i - 1) as nat) + seq!['\t']);
    }
}

/// Appends one unit of input.
fn push_unit(out: &mut Vec<char>, t: Moment, indent: usize, content: &Vec<char>)
    requires
        t.hour < 24,
    ensures
        final(out)@ == old(out)@ + unit_text(t, indent as nat, content@),
{
    out.push('\n');
    push_tabs(out, indent);
    push_timestamp(out, t.hour, t.minute);
    out.push(' ');
    out.push('-');
    out.push(' ');
    append_chars(out, content);
    assert(final(out)@ =~= old(out)@ + unit_text(t, indent as nat, content@));
}

/// One unit of input as text: a newline, `indent` tabs, the timestamp, ` - ` and `contents`.
pub fn journal_line(t: Moment, indent: usize, contents: &str) -> (r: String)
    requires
        t.hour < 24,
    ensures
        r@ == unit_text(t, indent as nat, contents@),
{
    let mut out: Vec<char> = Vec::new();
    push_unit(&mut out, t, indent, &chars_of(contents));
    string_of(&out)
}

/// Appends the input, trimmed, as a new block: after a blank line, with no indent.
pub fn push_block(t: Moment, input: &str, content: &mut String)
    requires
        t.hour < 24,
    ensures
        final(content)@ == old(content)@ + seq!['\n'] + unit_text(t, 0, trim(input@)),
{
    let mut v = chars_of(content.as_str());
    v.push('\n');
    push_unit(&mut v, t, 0, &trimmed(&chars_of(input)));
    *content = string_of(&v);
    assert(final(content)@ =~= old(content)@ + seq!['\n'] + unit_text(t, 0, trim(input@)));
}

/// Appends the input, trimmed, as a line nested one tab under the current block.
pub fn push_line(t: Moment, input: &str, content: &mut String)
    requires
        t.hour < 24,
    ensures
        final(content)@ == old(content)@ + unit_text(t, 1, trim(input@)),
{
    let mut v = chars_of(content.as_str());
    push_unit(&mut v, t, 1, &trimmed(&chars_of(input)));
    *content = string_of(&v);
}

/// The text holds no unit yet: fewer than two `-` characters in all.
pub fn no_entries(text: &str) -> (r: bool)
    ensures
        r == has_no_entries(text@),
{
    count_of(&chars_of(text), '-') < 2
}

/// Merges one line of input into the day's text at the moment `t`.
///
/// `~` alone toggles the last unit, and is rejected while the text holds no unit. Input
/// that starts with `-`, and the first input of a day, start a new block; other input is
/// nested as a line under the current block.
pub fn append(text: &str, t: Moment, input: &str) -> (r: Result<String, JournalError>)
    requires
        t.hour < 24,
    ensures
        result_view(r) == appended(text@, t, input@),
{
    let empty = no_entries(text);
    let raw = chars_of(input);
    let tr = trimmed(&raw);
    if tr.len() == 1 && tr[0] == '~' {
        assert(tr@ =~= seq!['~']);
        if empty {
            return Err(JournalError::Rejected);
        }
        let mut content = text.to_owned();
        toggle_block(&mut content);
        return Ok(content);
    }
    assert(tr@ != seq!['~']) by {
        if tr@.len() == 1 {
            assert(tr@[0] != '~');
        }
    }
    let mut v = chars_of(text);
    if (raw.len() > 0 && raw[0] == '-') || empty {
        let mut body = raw;
        if body.len() > 0 && body[0] == '-' {
            body = crate::chars::slice_chars(&body, 1, body.len());
            assert(body@ =~= strip_dash(input@));
        }
        v.push('\n');
        push_unit(&mut v, t, 0, &trimmed(&body));
        assert(v@ =~= text@ + seq!['\n'] + unit_text(t, 0, trim(strip_dash(input@))));
    } else {
        push_unit(&mut v, t, 1, &tr);
    }
    Ok(string_of(&v))
}


/// `rfind_pair` is the position of a pair after which no other pair follows.
proof fn lemma_rfind_pair_is(s: Seq<char>, x: char, y: char, i: int)
    requires
        pair_at(s, i, x, y),
        forall|j: int| i < j ==> !pair_at(s, j, x, y),
    ensures
        rfind_pair(s, x, y) == i,
{
    lemma_rfind_pair(s, x, y);
}

/// Changing a character that is not `d` into another that is not `d` keeps the count of `d`.
proof fn lemma_count_update(s: Seq<char>, i: int, c: char, d: char)
    requires
        0 <= i < s.len(),
        s[i] != d,
        c != d,
    ensures
        count_char(s.update(i, c), d) == count_char(s, d),
    decreases s.len(),
{
    let t = s.update(i, c);
    if i < s.len() - 1 {
        lemma_count_update(s.drop_last(), i, c, d);
        assert(t.drop_last() =~= s.drop_last().update(i, c));
    } else {
        assert(t.drop_last() =~= s.drop_last());
    }
}

/// A toggle swaps only a newline for a tab or back, so it keeps every `-`.
pub proof fn lemma_toggle_keeps_dashes(s: Seq<char>)
    ensures
        count_char(toggle_text(s), '-') == count_char(s, '-'),
{
    lemma_rfind_pair(s, '\n', '\n');
    lemma_rfind_pair(s, '\n', '\t');
    let a = rfind_pair(s, '\n', '\n');
    let b = rfind_pair(s, '\n', '\t');
    if a > b {
        lemma_count_update(s, a + 1, '\t', '-');
    } else if b >= 0 {
        lemma_count_update(s, b + 1, '\n', '-');
    }
}

/// Toggling twice gives back the text byte for byte. The one exception is a last unit in
/// line form whose separator `\n\t` is directly followed by another newline or tab: turning
/// it into a block would then make a later separator than the one it came from.
pub proof fn lemma_toggle_twice(s: Seq<char>)
    requires
        ({
            let a = rfind_pair(s, '\n', '\n');
            let b = rfind_pair(s, '\n', '\t');
            b > a && b + 2 < s.len() ==> s[b + 2] != '\n' && s[b + 2] != '\t'
        }),
    ensures
        toggle_text(toggle_text(s)) == s,
{
    lemma_rfind_pair(s, '\n', '\n');
    lemma_rfind_pair(s, '\n', '\t');
    let a = rfind_pair(s, '\n', '\n');
    let b = rfind_pair(s, '\n', '\t');
    if a > b {
        let t = s.update(a + 1, '\t');
        assert forall|j: int| a < j implies !pair_at(t, j, '\n', '\t') by {
            if j > a + 1 {
                assert(!pair_at(s, j, '\n', '\t'));
            }
        }
        lemma_rfind_pair_is(t, '\n', '\t', a);
        lemma_rfind_pair(t, '\n', '\n');
        let a2 = rfind_pair(t, '\n', '\n');
        if a2 >= a {
            if a2 > a + 1 {
                assert(pair_at(s, a2, '\n', '\n'));
            }
        }
        assert(t.update(a + 1, '\n') =~= s);
    } else if b >= 0 {
        let t = s.update(b + 1, '\n');
        assert forall|j: int| b < j implies !pair_at(t, j, '\n', '\n') by {
            if j > b + 1 {
                assert(!pair_at(s, j, '\n', '\n'));
            }
        }
        lemma_rfind_pair_is(t, '\n', '\n', b);
        lemma_rfind_pair(t, '\n', '\t');
        let b2 = rfind_pair(t, '\n', '\t');
        if b2 >= b {
            if b2 > b + 1 {
                assert(pair_at(s, b2, '\n', '\t'));
            }
        }
        assert(t.update(b + 1, '\t') =~= s);
    }
}

/// Toggling through `append` twice gives back the text, under the same exception as for
/// `toggle_text`; both times the toggle is accepted.
pub proof fn lemma_append_toggle_twice(text: Seq<char>, t1: Moment, t2: Moment, input: Seq<char>)
    requires
        is_toggle(input),
        !has_no_entries(text),
        ({
            let a = rfind_pair(text, '\n', '\n');
            let b = rfind_pair(text, '\n', '\t');
            b > a && b + 2 < text.len() ==> text[b + 2] != '\n' && text[b + 2] != '\t'
        }),
    ensures
        appended(text, t1, input) == Ok::<Seq<char>, JournalError>(toggle_text(text)),
        appended(toggle_text(text), t2, input) == Ok::<Seq<char>, JournalError>(text),
{
    lemma_toggle_keeps_dashes(text);
    lemma_toggle_twice(text);
}


/// A toggle asked for while the text holds fewer than two `-` characters is rejected.
pub proof fn lemma_toggle_needs_entries(text: Seq<char>, t: Moment, input: Seq<char>)
    requires
        count_char(text, '-') < 2,
        is_toggle(input),
    ensures
        appended(text, t, input) == Err::<Seq<char>, JournalError>(JournalError::Rejected),
{
}

/// Once the day holds a unit, input that neither starts with `-` nor asks for a toggle
/// becomes a line: one tab deep, after the text as it was.
pub proof fn lemma_line_after_block(text: Seq<char>, t: Moment, input: Seq<char>)
    requires
        !has_no_entries(text),
        !starts_with_dash(input),
        !is_toggle(input),
    ensures
        appended(text, t, input) == Ok::<Seq<char>, JournalError>(
            text + unit_text(t, 1, trim(input)),
        ),
        unit_text(t, 1, trim(input)).subrange(0, 2) == seq!['\n', '\t'],
{
    assert(tabs(0) =~= Seq::<char>::empty());
    assert(tabs(1) =~= seq!['\t']);
    assert(unit_text(t, 1, trim(input)).subrange(0, 2) =~= seq!['\n', '\t']);
}

/// The first input of a day is a block whatever its form; one `-` that starts the input is
/// dropped, and what is left is trimmed.
pub proof fn lemma_first_input_is_block(text: Seq<char>, t: Moment, input: Seq<char>)
    requires
        has_no_entries(text),
        !is_toggle(input),
    ensures
        appended(text, t, input) == Ok::<Seq<char>, JournalError>(
            text + seq!['\n'] + unit_text(t, 0, trim(strip_dash(input))),
        ),
{
}

/// What `append_to_log` makes of the text and the input: as `appended`, but the input's
/// white space is kept.
pub open spec fn log_appended(text: Seq<char>, t: Moment, input: Seq<char>) -> Result<
    Seq<char>,
    JournalError,
> {
    if is_toggle(input) {
        if has_no_entries(text) {
            Err(JournalError::Rejected)
        } else {
            Ok(toggle_text(text))
        }
    } else if starts_with_dash(input) || has_no_entries(text) {
        Ok(text + seq!['\n'] + unit_text(t, 0, strip_dash(input)))
    } else {
        Ok(text + unit_text(t, 1, input))
    }
}

/// Merges one line of input into a log's text at the moment `t`, as `append` does for a
/// journal, but without trimming the input.
pub fn append_to_log(text: &str, t: Moment, input: &str) -> (r: Result<String, JournalError>)
    requires
        t.hour < 24,
    ensures
        result_view(r) == log_appended(text@, t, input@),
{
    let empty = no_entries(text);
    let raw = chars_of(input);
    let tr = trimmed(&raw);
    if tr.len() == 1 && tr[0] == '~' {
        assert(tr@ =~= seq!['~']);
        if empty {
            return Err(JournalError::Rejected);
        }
        let mut content = text.to_owned();
        toggle_block(&mut content);
        return Ok(content);
    }
    assert(tr@ != seq!['~']) by {
        if tr@.len() == 1 {
            assert(tr@[0] != '~');
        }
    }
    let mut v = chars_of(text);
    if (raw.len() > 0 && raw[0] == '-') || empty {
        let mut body = raw;
        if body.len() > 0 && body[0] == '-' {
            body = crate::chars::slice_chars(&body, 1, body.len());
            assert(body@ =~= strip_dash(input@));
        }
        v.push('\n');
        push_unit(&mut v, t, 0, &body);
        assert(v@ =~= text@ + seq!['\n'] + unit_text(t, 0, strip_dash(input@)));
    } else {
        push_unit(&mut v, t, 1, &raw);
    }
    Ok(string_of(&v))
}

} // verus!
