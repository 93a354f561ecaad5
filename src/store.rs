//! How the journal store addresses and initialises entries. Reading and writing files is
//! left to the caller, which hands over what it read and persists what it is given.

use vstd::prelude::*;

use crate::calendar::{
    Date, datestamp_text, padded_datestamp_text, push_datestamp, push_padded_datestamp,
    push_weekday_name, push_year, weekday_name, weekday_of, year_text,
};
use crate::chars::{
    chars_of, decimal, decimal_in, parse_decimal, push_decimal, string_of,
    two_digits,
};
use crate::commands::{has_prefix, is_prefix};
use crate::error::JournalError;
use crate::list::strings_view;
use crate::search::{ascii_lower, ascii_lowercase};

verus! {

/// The first line of a new entry, without its newline: `<name> - <weekday> <Y>/<M>/<D>`.
pub open spec fn heading_line(name: Seq<char>, d: Date) -> Seq<char> {
    name + seq![' ', '-', ' '] + weekday_name(weekday_of(d.year as int, d.month as int, d.day as int))
        + seq![' '] + datestamp_text(d)
}

/// The whole text of a new entry: its heading line and a newline.
pub open spec fn heading_text(name: Seq<char>, d: Date) -> Seq<char> {
    heading_line(name, d).push('\n')
}

/// The whole text of a new log: `<name> - <Y>/<MM>/<DD>` and a newline.
pub open spec fn log_heading_text(name: Seq<char>, d: Date) -> Seq<char> {
    name + seq![' ', '-', ' '] + padded_datestamp_text(d) + seq!['\n']
}

/// `s` without any carriage return.
pub open spec fn without_cr(s: Seq<char>) -> Seq<char>
    decreases s.len(),
{
    if s.len() == 0 {
        s
    } else if s.last() == '\r' {
        without_cr(s.drop_last())
    } else {
        without_cr(s.drop_last()).push(s.last())
    }
}

/// Where an entry is kept, relative to the journals' root: `<name>/<Y>/<MM>/<DD>.txt`.
pub open spec fn entry_path_text(name: Seq<char>, d: Date) -> Seq<char> {
    name + seq!['/'] + year_text(d.year as int) + seq!['/'] + two_digits(d.month as nat) + seq!['/']
        + two_digits(d.day as nat) + seq!['.', 't', 'x', 't']
}

/// The text of a new entry for the journal `name` on the date `d`.
pub fn new_journal_text(name: &str, d: Date) -> (r: String)
    requires
        d.wf(),
    ensures
        r@ == heading_text(name@, d),
{
    let mut out = chars_of(name);
    out.push(' ');
    out.push('-');
    out.push(' ');
    push_weekday_name(&mut out, d);
    out.push(' ');
    push_datestamp(&mut out, d);
    out.push('\n');
    assert(out@ =~= heading_text(name@, d));
    string_of(&out)
}

/// The text of a new log named `name` started on the date `d`.
pub fn new_log_text(name: &str, d: Date) -> (r: String)
    ensures
        r@ == log_heading_text(name@, d),
{
    let mut out = chars_of(name);
    out.push(' ');
    out.push('-');
    out.push(' ');
    push_padded_datestamp(&mut out, d);
    out.push('\n');
    assert(out@ =~= log_heading_text(name@, d));
    string_of(&out)
}

/// Text as read from storage, with Windows line endings normalised: every `\r` is dropped.
pub fn load_log(raw: &str) -> (r: String)
    ensures
        r@ == without_cr(raw@),
{
    let v = chars_of(raw);
    let mut out: Vec<char> = Vec::new();
    let mut i: usize = 0;
    while i < v.len()
        invariant
            i <= v@.len(),
            out@ == without_cr(v@.subrange(0, i as int)),
        decreases v@.len() - i,
    {
        assert(v@.subrange(0, i + 1).drop_last() =~= v@.subrange(0, i as int));
        if v[i] != '\r' {
            out.push(v[i]);
        }
        i = i + 1;
    }
    assert(v@.subrange(0, v@.len() as int) =~= v@);
    string_of(&out)
}

/// Where the entry of `name` for `d` is kept, relative to the journals' root.
pub fn entry_path(name: &str, d: Date) -> (r: String)
    ensures
        r@ == entry_path_text(name@, d),
{
    let mut out = chars_of(name);
    out.push('/');
    push_year(&mut out, d.year);
    out.push('/');
    if d.month < 10 {
        out.push('0');
    }
    push_decimal(&mut out, d.month as u64);
    out.push('/');
    if d.day < 10 {
        out.push('0');
    }
    push_decimal(&mut out, d.day as u64);
    out.push('.');
    out.push('t');
    out.push('x');
    out.push('t');
    assert(out@ =~= entry_path_text(name@, d));
    string_of(&out)
}

/// The entry's text for `name` on `d`, given what reading its file gave: `Some` with the raw
/// text when the file exists, `None` when it does not. Also says whether the text is new,
/// in which case the caller persists it.
pub fn load_or_init(name: &str, d: Date, stored: Option<String>) -> (r: (String, bool))
    requires
        d.wf(),
    ensures
        match stored {
            Some(raw) => r.0@ == without_cr(raw@) && !r.1,
            None => r.0@ == heading_text(name@, d) && r.1,
        },
{
    match stored {
        Some(raw) => (load_log(raw.as_str()), false),
        None => (new_journal_text(name, d), true),
    }
}

/// The journals found under the root, or `NotFound` when there are none.
pub fn list_journals(folders: Vec<String>) -> (r: Result<Vec<String>, JournalError>)
    ensures
        folders@.len() == 0 ==> r == Err::<Vec<String>, JournalError>(JournalError::NotFound),
        folders@.len() > 0 ==> r == Ok::<Vec<String>, JournalError>(folders),
{
    if folders.len() == 0 {
        Err(JournalError::NotFound)
    } else {
        Ok(folders)
    }
}

proof fn lemma_without_cr_concat(s: Seq<char>, t: Seq<char>)
    ensures
        without_cr(s + t) == without_cr(s) + without_cr(t),
    decreases t.len(),
{
    if t.len() == 0 {
        assert(s + t =~= s);
        assert(without_cr(s) + without_cr(t) =~= without_cr(s));
    } else {
        assert((s + t).drop_last() =~= s + t.drop_last());
        lemma_without_cr_concat(s, t.drop_last());
        if t.last() == '\r' {
        } else {
            assert(without_cr(s) + without_cr(t.drop_last()).push(t.last()) =~= (without_cr(s)
                + without_cr(t.drop_last())).push(t.last()));
        }
    }
}

proof fn lemma_without_cr_keeps(s: Seq<char>)
    requires
        forall|i: int| 0 <= i < s.len() ==> s[i] != '\r',
    ensures
        without_cr(s) == s,
    decreases s.len(),
{
    if s.len() > 0 {
        lemma_without_cr_keeps(s.drop_last());
        assert(s.drop_last().push(s.last()) =~= s);
    }
}

proof fn lemma_decimal_digits(n: nat)
    ensures
        forall|i: int|
            0 <= i < decimal(n).len() ==> #[trigger] decimal(n)[i] != '\r' && decimal(n)[i]
                != '\n',
    decreases n,
{
    if n >= 10 {
        lemma_decimal_digits(n / 10);
        let p = decimal(n / 10);
        assert forall|i: int| 0 <= i < decimal(n).len() implies #[trigger] decimal(n)[i] != '\r'
            && decimal(n)[i] != '\n' by {
            if i < p.len() {
                assert(decimal(n)[i] == p[i]);
            }
        }
    }
}

/// A new entry's text reads back unchanged once stored: loading drops only `\r`, and the
/// heading holds none when the name holds none. Its first line is the heading line, since
/// a name without a newline leaves the one newline at the end.
pub proof fn lemma_fresh_entry_reads_back(name: Seq<char>, d: Date)
    requires
        forall|i: int| 0 <= i < name.len() ==> name[i] != '\r' && name[i] != '\n',
    ensures
        without_cr(heading_text(name, d)) == heading_text(name, d),
        heading_text(name, d) == heading_line(name, d) + seq!['\n'],
        forall|i: int|
            0 <= i < heading_line(name, d).len() ==> #[trigger] heading_line(name, d)[i] != '\n',
{
    let h = heading_text(name, d);
    let w = weekday_name(weekday_of(d.year as int, d.month as int, d.day as int));
    lemma_decimal_digits(d.month as nat);
    lemma_decimal_digits(d.day as nat);
    if d.year < 0 {
        lemma_decimal_digits((-d.year) as nat);
    } else {
        lemma_decimal_digits(d.year as nat);
    }
    assert forall|i: int| 0 <= i < h.len() implies h[i] != '\r' by {
        assert(h =~= name + seq![' ', '-', ' '] + w + seq![' '] + year_text(d.year as int) + seq![
            '/',
        ] + decimal(d.month as nat) + seq!['/'] + decimal(d.day as nat) + seq!['\n']);
    }
    lemma_without_cr_keeps(h);
    assert(heading_line(name, d) + seq!['\n'] =~= h);
    let l = heading_line(name, d);
    assert forall|i: int| 0 <= i < l.len() implies #[trigger] l[i] != '\n' by {
        assert(l =~= name + seq![' ', '-', ' '] + w + seq![' '] + year_text(d.year as int) + seq![
            '/',
        ] + decimal(d.month as nat) + seq!['/'] + decimal(d.day as nat));
    }
}


/// The position a typed number names, as `usize::from_str_radix` reads it: an optional `+`
/// and at least one digit.
pub open spec fn index_value(input: Seq<char>) -> Option<int> {
    if input.len() > 0 && input[0] == '-' {
        None
    } else {
        decimal_in(input, 0, usize::MAX as int)
    }
}

/// The first name that starts with `p`, or -1.
pub open spec fn first_with_prefix(names: Seq<Seq<char>>, p: Seq<char>) -> int
    decreases names.len(),
{
    if names.len() == 0 {
        -1
    } else if first_with_prefix(names.drop_last(), p) >= 0 {
        first_with_prefix(names.drop_last(), p)
    } else if is_prefix(p, names.last()) {
        names.len() - 1
    } else {
        -1
    }
}

/// Which journal the input picks: a number picks by position, counting from zero; other
/// input picks the first name that starts with it, ignoring ASCII case.
pub open spec fn journal_choice(input: Seq<char>, names: Seq<Seq<char>>) -> Option<int> {
    match index_value(input) {
        Some(k) => if k < names.len() { Some(k) } else { None },
        None => {
            let j = first_with_prefix(
                names.map_values(|n: Seq<char>| ascii_lower(n)),
                ascii_lower(input),
            );
            if j >= 0 { Some(j) } else { None }
        },
    }
}

/// The journal that the typed input picks among `journals`, if any.
pub fn find_journal(input: &str, journals: &Vec<String>) -> (r: Option<String>)
    ensures
        match journal_choice(input@, strings_view(journals@)) {
            Some(k) => r is Some && r->0@ == journals@[k]@,
            None => r is None,
        },
{
    let s = chars_of(input);
    let numeric = if s.len() > 0 && s[0] == '-' {
        None
    } else {
        parse_decimal(input, 0, usize::MAX as i128)
    };
    if let Some(k) = numeric {
        if k < journals.len() as i128 {
            return Some(journals[k as usize].clone());
        }
        return None;
    }
    assert(index_value(input@) is None);
    let ghost names = strings_view(journals@).map_values(|n: Seq<char>| ascii_lower(n));
    let low = ascii_lowercase(&s);
    let mut i: usize = 0;
    while i < journals.len()
        invariant
            i <= journals@.len() == names.len(),
            names == strings_view(journals@).map_values(|n: Seq<char>| ascii_lower(n)),
            low@ == ascii_lower(input@),
            index_value(input@) is None,
            first_with_prefix(names.subrange(0, i as int), low@) == -1,
        decreases journals@.len() - i,
    {
        assert(names.subrange(0, i + 1).drop_last() =~= names.subrange(0, i as int));
        let name = ascii_lowercase(&chars_of(journals[i].as_str()));
        assert(name@ == names[i as int]);
        if has_prefix(&name, &low) {
            assert(first_with_prefix(names.subrange(0, i + 1), low@) == i);
            proof {
                lemma_first_prefix_extends(names, low@, i as int + 1);
            }
            return Some(journals[i].clone());
        }
        i = i + 1;
    }
    assert(names.subrange(0, names.len() as int) =~= names);
    None
}

proof fn lemma_first_prefix_extends(names: Seq<Seq<char>>, p: Seq<char>, k: int)
    requires
        0 <= k <= names.len(),
        first_with_prefix(names.subrange(0, k), p) >= 0,
    ensures
        first_with_prefix(names, p) == first_with_prefix(names.subrange(0, k), p),
    decreases names.len() - k,
{
    if k < names.len() {
        assert(names.subrange(0, k + 1).drop_last() =~= names.subrange(0, k));
        lemma_first_prefix_extends(names, p, k + 1);
    } else {
        assert(names.subrange(0, k) =~= names);
    }
}

} // verus!
