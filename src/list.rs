//! The line-per-item list files kept beside the journal: reading and writing them, the
//! numbering shown beside each item, and the positions a user types.

use vstd::prelude::*;

use crate::chars::{
    append_chars, chars_of, decimal, decimal_in, parse_decimal, push_decimal, slice_chars,
    split_at_char, split_chars, string_of, trim, trimmed,
};
use crate::commands::same_chars;
use crate::stats::{first_index, first_index_of};

verus! {

/// The pieces that are not empty, in order.
pub open spec fn non_empty(pieces: Seq<Seq<char>>) -> Seq<Seq<char>>
    decreases pieces.len(),
{
    if pieces.len() == 0 {
        Seq::empty()
    } else if pieces.last().len() > 0 {
        non_empty(pieces.drop_last()).push(pieces.last())
    } else {
        non_empty(pieces.drop_last())
    }
}

/// The items joined with a newline between each two.
pub open spec fn joined(items: Seq<Seq<char>>) -> Seq<char>
    decreases items.len(),
{
    if items.len() == 0 {
        Seq::empty()
    } else if items.len() == 1 {
        items[0]
    } else {
        joined(items.drop_last()) + seq!['\n'] + items.last()
    }
}

pub open spec fn strings_view(v: Seq<String>) -> Seq<Seq<char>> {
    v.map_values(|s: String| s@)
}

/// The items of a list file: its lines, without the empty ones.
pub fn read_list(contents: &str) -> (r: Vec<String>)
    ensures
        strings_view(r@) == non_empty(split_at_char(contents@, '\n')),
{
    let lines = split_chars(&chars_of(contents), '\n');
    let ghost ls = split_at_char(contents@, '\n');
    let mut out: Vec<String> = Vec::new();
    let mut i: usize = 0;
    while i < lines.len()
        invariant
            i <= lines@.len() == ls.len(),
            forall|k: int| 0 <= k < lines@.len() ==> #[trigger] lines@[k]@ == ls[k],
            strings_view(out@) == non_empty(ls.subrange(0, i as int)),
        decreases lines@.len() - i,
    {
        assert(ls.subrange(0, i + 1).drop_last() =~= ls.subrange(0, i as int));
        let ghost before = strings_view(out@);
        if lines[i].len() > 0 {
            out.push(string_of(&lines[i]));
            assert(strings_view(out@) =~= before.push(ls[i as int]));
        }
        i = i + 1;
    }
    assert(ls.subrange(0, ls.len() as int) =~= ls);
    out
}

/// The text of a list file: the items, one per line, with no newline after the last.
pub fn write_list(list: &Vec<String>) -> (r: String)
    ensures
        r@ == joined(strings_view(list@)),
{
    let ghost items = strings_view(list@);
    let mut out: Vec<char> = Vec::new();
    let mut i: usize = 0;
    assert(items.subrange(0, 0) =~= Seq::<Seq<char>>::empty());
    while i < list.len()
        invariant
            i <= list@.len() == items.len(),
            items == strings_view(list@),
            out@ == joined(items.subrange(0, i as int)),
        decreases list@.len() - i,
    {
        assert(items.subrange(0, i + 1).drop_last() =~= items.subrange(0, i as int));
        if i > 0 {
            out.push('\n');
        }
        append_chars(&mut out, &chars_of(list[i].as_str()));
        assert(items[i as int] == list@[i as int]@);
        proof {
            if i == 0 {
                assert(items.subrange(0, 1) =~= seq![items[0]]);
            }
        }
        i = i + 1;
    }
    assert(items.subrange(0, items.len() as int) =~= items);
    string_of(&out)
}

/// The number shown beside an item, padded with spaces so that the numbers of a list of
/// `max_index` items line up.
pub open spec fn padded_number(index: nat, max_index: nat) -> Seq<char> {
    if max_index < 10 {
        decimal(index)
    } else if max_index < 100 {
        if index < 10 { decimal(index) + seq![' '] } else { decimal(index) }
    } else if index < 10 {
        decimal(index) + seq![' ', ' ']
    } else if index < 100 {
        decimal(index) + seq![' ']
    } else {
        decimal(index)
    }
}

/// The number shown beside an item, padded to line up in a list of `max_index` items.
pub fn pad(index: usize, max_index: usize) -> (r: String)
    ensures
        r@ == padded_number(index as nat, max_index as nat),
{
    let mut out: Vec<char> = Vec::new();
    push_decimal(&mut out, index as u64);
    if max_index >= 10 {
        if index < 10 {
            out.push(' ');
        }
        if max_index >= 100 && index < 100 {
            out.push(' ');
        }
    }
    string_of(&out)
}

/// The position that a typed number names in a list of `len` items: `1` is the first item
/// and `-1` the last; `0`, a number past either end, or text that is not a 32-bit integer
/// names none.
pub open spec fn wrapped_index(input: Seq<char>, len: int) -> Option<int> {
    match decimal_in(input, i32::MIN as int, i32::MAX as int) {
        Some(num) => {
            let k = if num > 0 { num - 1 } else { len + num };
            if num != 0 && 0 <= k < len { Some(k) } else { None }
        },
        None => None,
    }
}

/// The position that a typed number names in a list of `len` items, counting from one, or
/// back from the end for a negative number.
pub fn parse_and_wrap(input: &str, len: usize) -> (r: Option<usize>)
    requires
        len <= i32::MAX,
    ensures
        match wrapped_index(input@, len as int) {
            Some(k) => r == Some(k as usize),
            None => r is None,
        },
{
    let num = match parse_decimal(input, i32::MIN as i128, i32::MAX as i128) {
        Some(v) => v,
        None => {
            return None;
        },
    };
    if num == 0 {
        return None;
    }
    let k: i128 = if num > 0 { num - 1 } else { (len as i128) + num };
    if k < 0 || k >= len as i128 {
        return None;
    }
    Some(k as usize)
}


/// `s` cut at its first space, as `str::split_once(' ')` cuts it.
pub open spec fn split_once_space(s: Seq<char>) -> Option<(Seq<char>, Seq<char>)> {
    let k = first_index(s, ' ');
    if k < 0 {
        None
    } else {
        Some((s.subrange(0, k), s.subrange(k + 1, s.len() as int)))
    }
}

fn split_once_space_of(s: &Vec<char>) -> (r: Option<(Vec<char>, Vec<char>)>)
    ensures
        match r {
            Some((a, b)) => split_once_space(s@) == Some((a@, b@)),
            None => split_once_space(s@) is None,
        },
{
    let n = s.len();
    match first_index_of(s, ' ') {
        Some(k) => Some((slice_chars(s, 0, k), slice_chars(s, k + 1, n))),
        None => None,
    }
}

/// An item with its tag set to `tag`: the item's text before any `|`, trimmed, then
/// ` | ` and the tag; the tag `x` removes the tag instead.
pub open spec fn tagged(item: Seq<char>, tag: Seq<char>) -> Seq<char> {
    let k = first_index(item, '|');
    let text = if k >= 0 { item.subrange(0, k) } else { item };
    if tag == seq!['x'] {
        trim(text)
    } else {
        trim(text) + seq![' ', '|', ' '] + tag
    }
}

fn tag_item(item: &Vec<char>, tag: &Vec<char>) -> (r: Vec<char>)
    ensures
        r@ == tagged(item@, tag@),
{
    let text = match first_index_of(item, '|') {
        Some(k) => slice_chars(item, 0, k),
        None => slice_chars(item, 0, item.len()),
    };
    assert(item@.subrange(0, item@.len() as int) =~= item@);
    let mut r = trimmed(&text);
    if tag.len() == 1 && tag[0] == 'x' {
        assert(tag@ =~= seq!['x']);
        return r;
    }
    assert(tag@ != seq!['x']) by {
        if tag@.len() == 1 {
            assert(tag@[0] != 'x');
        }
    }
    r.push(' ');
    r.push('|');
    r.push(' ');
    append_chars(&mut r, tag);
    assert(r@ =~= tagged(item@, tag@));
    r
}

/// `s` is one of the command words `a` and `b`.
pub open spec fn is_word(s: Seq<char>, a: Seq<char>, b: Seq<char>) -> bool {
    s == a || s == b
}

/// The list after one typed line. The line's first word picks the command and the rest is
/// its argument: `e`/`enqueue` puts the argument first, `a`/`add`/`append` puts it last,
/// `x`/`rm`/`remove` removes the item at a position, `m`/`move` moves an item from one
/// position to another, `i`/`insert` puts text at a position, `r`/`rename` replaces the
/// item at a position, `t`/`tag` sets an item's tag. Positions count from one, or back from
/// the end when negative. A first word that is no command appends the whole line; a line
/// without a space, or a position that names no item, leaves the list as it is.
pub open spec fn list_after(items: Seq<Seq<char>>, input: Seq<char>) -> Seq<Seq<char>> {
    match split_once_space(input) {
        None => items,
        Some((cmd, rest)) => {
            if is_word(cmd, seq!['e'], seq!['e', 'n', 'q', 'u', 'e', 'u', 'e']) {
                items.insert(0, rest)
            } else if is_word(cmd, seq!['a'], seq!['a', 'd', 'd']) || cmd == seq![
                'a',
                'p',
                'p',
                'e',
                'n',
                'd',
            ] {
                items.push(rest)
            } else if is_word(cmd, seq!['x'], seq!['r', 'm']) || cmd == seq![
                'r',
                'e',
                'm',
                'o',
                'v',
                'e',
            ] {
                match wrapped_index(rest, items.len() as int) {
                    Some(i) => items.remove(i),
                    None => items,
                }
            } else if is_word(cmd, seq!['m'], seq!['m', 'o', 'v', 'e']) {
                match split_once_space(rest) {
                    Some((a, b)) => match (
                        wrapped_index(a, items.len() as int),
                        wrapped_index(b, items.len() as int),
                    ) {
                        (Some(i), Some(j)) => items.remove(i).insert(j, items[i]),
                        _ => items,
                    },
                    None => items,
                }
            } else if is_word(cmd, seq!['i'], seq!['i', 'n', 's', 'e', 'r', 't']) {
                match split_once_space(rest) {
                    Some((a, item)) => match wrapped_index(a, items.len() as int) {
                        Some(j) => items.insert(j, item),
                        None => items,
                    },
                    None => items,
                }
            } else if is_word(cmd, seq!['r'], seq!['r', 'e', 'n', 'a', 'm', 'e']) {
                match split_once_space(rest) {
                    Some((a, item)) => match wrapped_index(a, items.len() as int) {
                        Some(j) => items.update(j, item),
                        None => items,
                    },
                    None => items,
                }
            } else if is_word(cmd, seq!['t'], seq!['t', 'a', 'g']) {
                match split_once_space(rest) {
                    Some((a, tag)) => match wrapped_index(a, items.len() as int) {
                        Some(j) => items.update(j, tagged(items[j], tag)),
                        None => items,
                    },
                    None => items,
                }
            } else {
                items.push(input)
            }
        },
    }
}

proof fn lemma_view_insert(v: Seq<String>, i: int, x: String)
    requires
        0 <= i <= v.len(),
    ensures
        strings_view(v.insert(i, x)) == strings_view(v).insert(i, x@),
{
    assert(strings_view(v.insert(i, x)) =~= strings_view(v).insert(i, x@));
}

proof fn lemma_view_remove(v: Seq<String>, i: int)
    requires
        0 <= i < v.len(),
    ensures
        strings_view(v.remove(i)) == strings_view(v).remove(i),
{
    assert(strings_view(v.remove(i)) =~= strings_view(v).remove(i));
}

proof fn lemma_view_update(v: Seq<String>, i: int, x: String)
    requires
        0 <= i < v.len(),
    ensures
        strings_view(v.update(i, x)) == strings_view(v).update(i, x@),
{
    assert(strings_view(v.update(i, x)) =~= strings_view(v).update(i, x@));
}

/// Applies one typed line to the list, as `list_after` says.
pub fn apply_list_input(list: &mut Vec<String>, input: &str)
    requires
        old(list)@.len() <= i32::MAX,
    ensures
        strings_view(final(list)@) == list_after(strings_view(old(list)@), input@),
{
    let whole = chars_of(input);
    let (cmd, rest) = match split_once_space_of(&whole) {
        Some(parts) => parts,
        None => {
            return;
        },
    };
    let ghost items = strings_view(list@);
    let n = list.len();
    let rest_text = string_of(&rest);
    let w_e = vec!['e'];
    let w_enqueue = vec!['e', 'n', 'q', 'u', 'e', 'u', 'e'];
    assert(w_e@ =~= seq!['e']);
    assert(w_enqueue@ =~= seq!['e', 'n', 'q', 'u', 'e', 'u', 'e']);
    if same_chars(&cmd, &w_e) || same_chars(&cmd, &w_enqueue) {
        proof {
            lemma_view_insert(list@, 0, rest_text);
        }
        list.insert(0, rest_text);
        return;
    }
    let w_a = vec!['a'];
    let w_add = vec!['a', 'd', 'd'];
    let w_append = vec!['a', 'p', 'p', 'e', 'n', 'd'];
    let w_x = vec!['x'];
    let w_rm = vec!['r', 'm'];
    let w_remove = vec!['r', 'e', 'm', 'o', 'v', 'e'];
    let w_m = vec!['m'];
    let w_move = vec!['m', 'o', 'v', 'e'];
    let w_i = vec!['i'];
    let w_insert = vec!['i', 'n', 's', 'e', 'r', 't'];
    let w_r = vec!['r'];
    let w_rename = vec!['r', 'e', 'n', 'a', 'm', 'e'];
    let w_t = vec!['t'];
    let w_tag = vec!['t', 'a', 'g'];
    assert(w_a@ =~= seq!['a']);
    assert(w_add@ =~= seq!['a', 'd', 'd']);
    assert(w_append@ =~= seq!['a', 'p', 'p', 'e', 'n', 'd']);
    assert(w_x@ =~= seq!['x']);
    assert(w_rm@ =~= seq!['r', 'm']);
    assert(w_remove@ =~= seq!['r', 'e', 'm', 'o', 'v', 'e']);
    assert(w_m@ =~= seq!['m']);
    assert(w_move@ =~= seq!['m', 'o', 'v', 'e']);
    assert(w_i@ =~= seq!['i']);
    assert(w_insert@ =~= seq!['i', 'n', 's', 'e', 'r', 't']);
    assert(w_r@ =~= seq!['r']);
    assert(w_rename@ =~= seq!['r', 'e', 'n', 'a', 'm', 'e']);
    assert(w_t@ =~= seq!['t']);
    assert(w_tag@ =~= seq!['t', 'a', 'g']);
    if same_chars(&cmd, &w_a) || same_chars(&cmd, &w_add) || same_chars(&cmd, &w_append) {
        proof {
            assert(strings_view(list@.push(rest_text)) =~= items.push(rest@));
        }
        list.push(rest_text);
        return;
    }
    if same_chars(&cmd, &w_x) || same_chars(&cmd, &w_rm) || same_chars(&cmd, &w_remove) {
        if let Some(i) = parse_and_wrap(rest_text.as_str(), n) {
            proof {
                lemma_view_remove(list@, i as int);
            }
            list.remove(i);
        }
        return;
    }
    if same_chars(&cmd, &w_m) || same_chars(&cmd, &w_move) {
        if let Some((a, b)) = split_once_space_of(&rest) {
            let src = parse_and_wrap(string_of(&a).as_str(), n);
            let dst = parse_and_wrap(string_of(&b).as_str(), n);
            if let (Some(i), Some(j)) = (src, dst) {
                let ghost before = list@;
                let item = list.remove(i);
                proof {
                    lemma_view_remove(before, i as int);
                    lemma_view_insert(before.remove(i as int), j as int, item);
                }
                list.insert(j, item);
            }
        }
        return;
    }
    let is_insert = same_chars(&cmd, &w_i) || same_chars(&cmd, &w_insert);
    let is_rename = same_chars(&cmd, &w_r) || same_chars(&cmd, &w_rename);
    let is_tag = same_chars(&cmd, &w_t) || same_chars(&cmd, &w_tag);
    if is_insert || is_rename || is_tag {
        if let Some((a, arg)) = split_once_space_of(&rest) {
            if let Some(j) = parse_and_wrap(string_of(&a).as_str(), n) {
                if is_insert {
                    let text = string_of(&arg);
                    proof {
                        lemma_view_insert(list@, j as int, text);
                    }
                    list.insert(j, text);
                } else if is_rename {
                    let text = string_of(&arg);
                    proof {
                        lemma_view_update(list@, j as int, text);
                    }
                    list.set(j, text);
                } else {
                    let text = string_of(&tag_item(&chars_of(list[j].as_str()), &arg));
                    proof {
                        lemma_view_update(list@, j as int, text);
                    }
                    list.set(j, text);
                }
            }
        }
        return;
    }
    let line = input.to_owned();
    proof {
        assert(strings_view(list@.push(line)) =~= items.push(input@));
    }
    list.push(line);
}


/// The items of a queue file: all its lines, empty ones included.
pub fn read_queue(contents: &str) -> (r: Vec<String>)
    ensures
        strings_view(r@) == split_at_char(contents@, '\n'),
{
    let lines = split_chars(&chars_of(contents), '\n');
    let ghost ls = split_at_char(contents@, '\n');
    let mut out: Vec<String> = Vec::new();
    let mut i: usize = 0;
    while i < lines.len()
        invariant
            i <= lines@.len() == ls.len(),
            forall|k: int| 0 <= k < lines@.len() ==> #[trigger] lines@[k]@ == ls[k],
            strings_view(out@) == ls.subrange(0, i as int),
        decreases lines@.len() - i,
    {
        let ghost before = strings_view(out@);
        out.push(string_of(&lines[i]));
        assert(strings_view(out@) =~= before.push(ls[i as int]));
        assert(ls.subrange(0, i + 1) =~= ls.subrange(0, i as int).push(ls[i as int]));
        i = i + 1;
    }
    assert(ls.subrange(0, ls.len() as int) =~= ls);
    out
}

/// The queue after one typed line, or `None` when the line is no command that applies:
/// `e`/`enqueue` puts the argument first, `a`/`add`/`append` puts it last, `r`/`remove`
/// removes the item at a position, `m`/`move` moves an item from one position to another,
/// `i`/`insert` puts text at a position. Positions count from one, or back from the end
/// when negative.
pub open spec fn queue_after(items: Seq<Seq<char>>, input: Seq<char>) -> Option<Seq<Seq<char>>> {
    match split_once_space(input) {
        None => None,
        Some((cmd, rest)) => {
            if is_word(cmd, seq!['e'], seq!['e', 'n', 'q', 'u', 'e', 'u', 'e']) {
                Some(items.insert(0, rest))
            } else if is_word(cmd, seq!['a'], seq!['a', 'd', 'd']) || cmd == seq![
                'a',
                'p',
                'p',
                'e',
                'n',
                'd',
            ] {
                Some(items.push(rest))
            } else if is_word(cmd, seq!['r'], seq!['r', 'e', 'm', 'o', 'v', 'e']) {
                match wrapped_index(rest, items.len() as int) {
                    Some(i) => Some(items.remove(i)),
                    None => None,
                }
            } else if is_word(cmd, seq!['m'], seq!['m', 'o', 'v', 'e']) {
                match split_once_space(rest) {
                    Some((a, b)) => match (
                        wrapped_index(a, items.len() as int),
                        wrapped_index(b, items.len() as int),
                    ) {
                        (Some(i), Some(j)) => Some(items.remove(i).insert(j, items[i])),
                        _ => None,
                    },
                    None => None,
                }
            } else if is_word(cmd, seq!['i'], seq!['i', 'n', 's', 'e', 'r', 't']) {
                match split_once_space(rest) {
                    Some((a, item)) => match wrapped_index(a, items.len() as int) {
                        Some(j) => Some(items.insert(j, item)),
                        None => None,
                    },
                    None => None,
                }
            } else {
                None
            }
        },
    }
}

/// Applies one typed line to the queue, as `queue_after` says; says whether it applied,
/// and leaves the queue as it was when it did not.
pub fn apply_queue_input(queue: &mut Vec<String>, input: &str) -> (applied: bool)
    requires
        old(queue)@.len() <= i32::MAX,
    ensures
        match queue_after(strings_view(old(queue)@), input@) {
            Some(q) => applied && strings_view(final(queue)@) == q,
            None => !applied && final(queue)@ == old(queue)@,
        },
{
    let whole = chars_of(input);
    let (cmd, rest) = match split_once_space_of(&whole) {
        Some(parts) => parts,
        None => {
            return false;
        },
    };
    let ghost items = strings_view(queue@);
    let n = queue.len();
    let rest_text = string_of(&rest);
    let w_e = vec!['e'];
    let w_enqueue = vec!['e', 'n', 'q', 'u', 'e', 'u', 'e'];
    let w_a = vec!['a'];
    let w_add = vec!['a', 'd', 'd'];
    let w_append = vec!['a', 'p', 'p', 'e', 'n', 'd'];
    let w_r = vec!['r'];
    let w_remove = vec!['r', 'e', 'm', 'o', 'v', 'e'];
    let w_m = vec!['m'];
    let w_move = vec!['m', 'o', 'v', 'e'];
    let w_i = vec!['i'];
    let w_insert = vec!['i', 'n', 's', 'e', 'r', 't'];
    assert(w_e@ =~= seq!['e']);
    assert(w_enqueue@ =~= seq!['e', 'n', 'q', 'u', 'e', 'u', 'e']);
    assert(w_a@ =~= seq!['a']);
    assert(w_add@ =~= seq!['a', 'd', 'd']);
    assert(w_append@ =~= seq!['a', 'p', 'p', 'e', 'n', 'd']);
    assert(w_r@ =~= seq!['r']);
    assert(w_remove@ =~= seq!['r', 'e', 'm', 'o', 'v', 'e']);
    assert(w_m@ =~= seq!['m']);
    assert(w_move@ =~= seq!['m', 'o', 'v', 'e']);
    assert(w_i@ =~= seq!['i']);
    assert(w_insert@ =~= seq!['i', 'n', 's', 'e', 'r', 't']);
    if same_chars(&cmd, &w_e) || same_chars(&cmd, &w_enqueue) {
        proof {
            lemma_view_insert(queue@, 0, rest_text);
        }
        queue.insert(0, rest_text);
        return true;
    }
    if same_chars(&cmd, &w_a) || same_chars(&cmd, &w_add) || same_chars(&cmd, &w_append) {
        proof {
            assert(strings_view(queue@.push(rest_text)) =~= items.push(rest@));
        }
        queue.push(rest_text);
        return true;
    }
    if same_chars(&cmd, &w_r) || same_chars(&cmd, &w_remove) {
        if let Some(i) = parse_and_wrap(rest_text.as_str(), n) {
            proof {
                lemma_view_remove(queue@, i as int);
            }
            queue.remove(i);
            return true;
        }
        return false;
    }
    if same_chars(&cmd, &w_m) || same_chars(&cmd, &w_move) {
        if let Some((a, b)) = split_once_space_of(&rest) {
            let src = parse_and_wrap(string_of(&a).as_str(), n);
            let dst = parse_and_wrap(string_of(&b).as_str(), n);
            if let (Some(i), Some(j)) = (src, dst) {
                let ghost before = queue@;
                let item = queue.remove(i);
                proof {
                    lemma_view_remove(before, i as int);
                    lemma_view_insert(before.remove(i as int), j as int, item);
                }
                queue.insert(j, item);
                return true;
            }
        }
        return false;
    }
    if same_chars(&cmd, &w_i) || same_chars(&cmd, &w_insert) {
        if let Some((a, arg)) = split_once_space_of(&rest) {
            if let Some(j) = parse_and_wrap(string_of(&a).as_str(), n) {
                let text = string_of(&arg);
                proof {
                    lemma_view_insert(queue@, j as int, text);
                }
                queue.insert(j, text);
                return true;
            }
        }
        return false;
    }
    false
}

} // verus!
