//! Full-text search within one day's entry: whether it matches at all, and which blocks
//! and lines hold the match, for the caller to show and highlight.

use vstd::prelude::*;

use crate::chars::{chars_of, slice_chars, split_at_char, split_chars, string_of};
use crate::entry::pair_at;

verus! {

/// `s` as `str::to_lowercase` gives it.
pub uninterp spec fn lower_of(s: Seq<char>) -> Seq<char>;

/// Relies on `str::to_lowercase`: the lowercase form of the string, which depends on its
/// characters alone.
#[verifier::external_body]
fn lowercase(s: &str) -> (r: String)
    ensures
        r@ == lower_of(s@),
{
    s.to_lowercase()
}

/// `c` with `A`-`Z` mapped to `a`-`z`, as `char::to_ascii_lowercase` gives it.
pub open spec fn ascii_lower_char(c: char) -> char {
    if 'A' <= c && c <= 'Z' { (((c as u8) + 32) as u8) as char } else { c }
}

/// `s` with every ASCII capital made small.
pub open spec fn ascii_lower(s: Seq<char>) -> Seq<char> {
    s.map_values(|c: char| ascii_lower_char(c))
}

/// Where the first occurrence of `q` in `s` at or after `k` starts, or -1.
pub open spec fn find_from(s: Seq<char>, q: Seq<char>, k: int) -> int
    decreases s.len() + 1 - k,
{
    if k < 0 || k + q.len() > s.len() {
        -1
    } else if s.subrange(k, k + q.len()) == q {
        k
    } else {
        find_from(s, q, k + 1)
    }
}

/// Where the first occurrence of `q` in `s` starts, if it occurs.
pub open spec fn find_in(s: Seq<char>, q: Seq<char>) -> Option<int> {
    if find_from(s, q, 0) >= 0 { Some(find_from(s, q, 0)) } else { None }
}

/// Where the first `\n\n` in `s` starts, or -1.
pub open spec fn first_blank(s: Seq<char>) -> int
    decreases s.len(),
{
    if s.len() < 2 {
        -1
    } else if first_blank(s.drop_last()) >= 0 {
        first_blank(s.drop_last())
    } else if s[s.len() - 2] == '\n' && s[s.len() - 1] == '\n' {
        s.len() - 2
    } else {
        -1
    }
}

/// `s` cut at every `\n\n`, from the left, as `str::split("\n\n")` cuts it.
pub open spec fn split_blocks_spec(s: Seq<char>) -> Seq<Seq<char>>
    decreases s.len(),
{
    let f = first_blank(s);
    if f < 0 || f + 2 > s.len() {
        seq![s]
    } else {
        seq![s.subrange(0, f)] + split_blocks_spec(s.subrange(f + 2, s.len() as int))
    }
}

proof fn lemma_first_blank(s: Seq<char>)
    ensures
        first_blank(s) == -1 ==> forall|j: int| !pair_at(s, j, '\n', '\n'),
        first_blank(s) >= 0 ==> pair_at(s, first_blank(s), '\n', '\n') && forall|j: int|
            j < first_blank(s) ==> !pair_at(s, j, '\n', '\n'),
    decreases s.len(),
{
    if s.len() >= 2 {
        lemma_first_blank(s.drop_last());
        assert forall|j: int| j < s.len() - 2 && pair_at(s, j, '\n', '\n') implies pair_at(
            s.drop_last(),
            j,
            '\n',
            '\n',
        ) by {}
        assert forall|j: int| pair_at(s.drop_last(), j, '\n', '\n') implies pair_at(
            s,
            j,
            '\n',
            '\n',
        ) by {}
    }
}

proof fn lemma_first_blank_is(s: Seq<char>, k: int)
    requires
        k == -1 || pair_at(s, k, '\n', '\n'),
        forall|j: int| (k == -1 || j < k) ==> !pair_at(s, j, '\n', '\n'),
    ensures
        first_blank(s) == k,
{
    lemma_first_blank(s);
}

/// The pieces of `s` between its `\n\n` separators.
fn split_blocks(s: &Vec<char>) -> (r: Vec<Vec<char>>)
    ensures
        r@.len() == split_blocks_spec(s@).len(),
        forall|i: int| 0 <= i < r@.len() ==> #[trigger] r@[i]@ == split_blocks_spec(s@)[i],
{
    let n = s.len();
    let mut out: Vec<Vec<char>> = Vec::new();
    let mut start: usize = 0;
    let mut i: usize = 0;
    assert(s@.subrange(0, n as int) =~= s@);
    while n > 0 && i < n - 1
        invariant
            start <= i <= n == s@.len(),
            split_blocks_spec(s@) == out@.map_values(|v: Vec<char>| v@) + split_blocks_spec(
                s@.subrange(start as int, n as int),
            ),
            forall|j: int| start <= j < i ==> !pair_at(s@, j, '\n', '\n'),
        decreases n - i,
    {
        if s[i] == '\n' && s[i + 1] == '\n' {
            let ghost t = s@.subrange(start as int, n as int);
            assert forall|j: int| j < i - start implies !pair_at(t, j, '\n', '\n') by {
                if j >= 0 && pair_at(t, j, '\n', '\n') {
                    assert(pair_at(s@, j + start, '\n', '\n'));
                }
            }
            assert(pair_at(t, i - start, '\n', '\n'));
            proof {
                lemma_first_blank_is(t, i - start);
            }
            let piece = slice_chars(s, start, i);
            assert(t.subrange(0, i - start) =~= piece@);
            assert(t.subrange(i - start + 2, t.len() as int) =~= s@.subrange(i + 2, n as int));
            let ghost before = out@.map_values(|v: Vec<char>| v@);
            out.push(piece);
            assert(out@.map_values(|v: Vec<char>| v@) =~= before.push(piece@));
            assert(split_blocks_spec(t) == seq![piece@] + split_blocks_spec(s@.subrange(i + 2, n as int)));
            assert(before + split_blocks_spec(t) =~= before.push(piece@) + split_blocks_spec(s@.subrange(i + 2, n as int)));
            start = i + 2;
            i = i + 2;
        } else {
            i = i + 1;
        }
    }
    let ghost t = s@.subrange(start as int, n as int);
    assert forall|j: int| (-1 == -1 || j < -1) implies !pair_at(t, j, '\n', '\n') by {
        if pair_at(t, j, '\n', '\n') {
            assert(pair_at(s@, j + start, '\n', '\n'));
        }
    }
    proof {
        lemma_first_blank_is(t, -1);
    }
    let piece = slice_chars(s, start, n);
    let ghost before = out@.map_values(|v: Vec<char>| v@);
    out.push(piece);
    assert(out@.map_values(|v: Vec<char>| v@) =~= before.push(piece@));
    assert(split_blocks_spec(s@) =~= out@.map_values(|v: Vec<char>| v@));
    assert forall|i: int| 0 <= i < out@.len() implies #[trigger] out@[i]@ == split_blocks_spec(s@)[i] by {
        assert(out@.map_values(|v: Vec<char>| v@)[i] == out@[i]@);
    }
    out
}


/// `s` with every ASCII capital made small.
pub fn ascii_lowercase(s: &Vec<char>) -> (r: Vec<char>)
    ensures
        r@ == ascii_lower(s@),
{
    let mut r: Vec<char> = Vec::new();
    let mut i: usize = 0;
    while i < s.len()
        invariant
            i <= s@.len(),
            r@ == ascii_lower(s@.subrange(0, i as int)),
        decreases s@.len() - i,
    {
        let c = s[i];
        let l = if 'A' <= c && c <= 'Z' { ((c as u8) + 32) as char } else { c };
        r.push(l);
        i = i + 1;
        assert(ascii_lower(s@.subrange(0, i as int)) =~= ascii_lower(s@.subrange(0, i - 1)).push(
            ascii_lower_char(c),
        ));
    }
    assert(s@.subrange(0, s@.len() as int) =~= s@);
    r
}

/// Where the first occurrence of `q` in `s` starts, if it occurs.
fn find_chars(s: &Vec<char>, q: &Vec<char>) -> (r: Option<usize>)
    ensures
        match r {
            Some(k) => find_in(s@, q@) == Some(k as int),
            None => find_in(s@, q@) is None,
        },
{
    let n = s.len();
    let m = q.len();
    if m > n {
        return None;
    }
    let mut k: usize = 0;
    while k <= n - m
        invariant
            n == s@.len(),
            m == q@.len(),
            m <= n,
            k <= n - m + 1,
            find_from(s@, q@, 0) == find_from(s@, q@, k as int),
        decreases n - m + 1 - k,
    {
        let mut j: usize = 0;
        while j < m && s[k + j] == q[j]
            invariant
                j <= m,
                k + m <= n,
                n == s@.len(),
                m == q@.len(),
                forall|t: int| 0 <= t < j ==> s@[k + t] == q@[t],
            decreases m - j,
        {
            j = j + 1;
        }
        if j == m {
            assert(s@.subrange(k as int, k + m) =~= q@);
            return Some(k);
        }
        assert(s@.subrange(k as int, k + m)[j as int] != q@[j as int]);
        k = k + 1;
    }
    None
}

/// One line of a matching block, and where the query starts in it, if it does.
#[derive(Debug)]
pub struct LineMatch {
    pub text: String,
    pub column: Option<usize>,
}

/// An entry that matches: its heading, the text before its first blank line, and each block
/// that holds the query, line by line.
#[derive(Debug)]
pub struct EntryMatch {
    pub heading: String,
    pub blocks: Vec<Vec<LineMatch>>,
}

/// A line of a block and where the query starts in it, ignoring ASCII case.
pub open spec fn line_hit(line: Seq<char>, query: Seq<char>) -> (Seq<char>, Option<int>) {
    (line, find_in(ascii_lower(line), ascii_lower(query)))
}

/// The lines of a block, each with where the query starts in it.
pub open spec fn block_hits(block: Seq<char>, query: Seq<char>) -> Seq<(Seq<char>, Option<int>)> {
    split_at_char(block, '\n').map_values(|l: Seq<char>| line_hit(l, query))
}

/// The blocks that hold the query, ignoring ASCII case, in order, line by line.
pub open spec fn matching_blocks(blocks: Seq<Seq<char>>, query: Seq<char>) -> Seq<
    Seq<(Seq<char>, Option<int>)>,
>
    decreases blocks.len(),
{
    if blocks.len() == 0 {
        Seq::empty()
    } else {
        matching_blocks(blocks.drop_last(), query) + if find_in(
            ascii_lower(blocks.last()),
            ascii_lower(query),
        ) is Some {
            seq![block_hits(blocks.last(), query)]
        } else {
            Seq::empty()
        }
    }
}

/// The heading of an entry: its text before the first blank line, or all of it when it has
/// no blank line.
pub open spec fn heading_of(text: Seq<char>) -> Seq<char> {
    if first_blank(text) >= 0 { text.subrange(0, first_blank(text)) } else { text }
}

/// What a search reports of an entry, given the entry and the query and both in lowercase:
/// nothing when the lowercase entry does not hold the lowercase query; else the heading and
/// the matching blocks.
pub open spec fn entry_hits(
    text: Seq<char>,
    query: Seq<char>,
    folded_text: Seq<char>,
    folded_query: Seq<char>,
) -> Option<(Seq<char>, Seq<Seq<(Seq<char>, Option<int>)>>)> {
    if find_in(folded_text, folded_query) is None {
        None
    } else {
        Some((heading_of(text), matching_blocks(split_blocks_spec(text), query)))
    }
}

pub open spec fn line_match_view(l: LineMatch) -> (Seq<char>, Option<int>) {
    (
        l.text@,
        match l.column {
            Some(c) => Some(c as int),
            None => None,
        },
    )
}

pub open spec fn block_view(b: Vec<LineMatch>) -> Seq<(Seq<char>, Option<int>)> {
    b@.map_values(|l: LineMatch| line_match_view(l))
}

pub open spec fn entry_match_view(m: Option<EntryMatch>) -> Option<
    (Seq<char>, Seq<Seq<(Seq<char>, Option<int>)>>),
> {
    match m {
        Some(e) => Some((e.heading@, e.blocks@.map_values(|b: Vec<LineMatch>| block_view(b)))),
        None => None,
    }
}


/// Where the first `\n\n` in `s` starts, if anywhere.
fn first_blank_at(s: &Vec<char>) -> (r: Option<usize>)
    ensures
        match r {
            Some(k) => first_blank(s@) == k as int,
            None => first_blank(s@) == -1,
        },
{
    let n = s.len();
    let mut i: usize = 0;
    while n > 0 && i < n - 1
        invariant
            i <= n == s@.len(),
            forall|j: int| 0 <= j < i ==> !pair_at(s@, j, '\n', '\n'),
        decreases n - i,
    {
        if s[i] == '\n' && s[i + 1] == '\n' {
            proof {
                lemma_first_blank_is(s@, i as int);
            }
            return Some(i);
        }
        i = i + 1;
    }
    proof {
        lemma_first_blank_is(s@, -1);
    }
    None
}

/// The lines of a block, each with where the query (already in ASCII lowercase) starts in it.
fn hits_in_block(block: &Vec<char>, lower_query: &Vec<char>, query: Ghost<Seq<char>>) -> (r: Vec<
    LineMatch,
>)
    requires
        lower_query@ == ascii_lower(query@),
    ensures
        block_view(r) == block_hits(block@, query@),
{
    let lines = split_chars(block, '\n');
    let ghost ls = split_at_char(block@, '\n');
    let mut out: Vec<LineMatch> = Vec::new();
    let mut j: usize = 0;
    while j < lines.len()
        invariant
            j <= lines@.len() == ls.len(),
            forall|k: int| 0 <= k < lines@.len() ==> #[trigger] lines@[k]@ == ls[k],
            lower_query@ == ascii_lower(query@),
            block_view(out) == ls.subrange(0, j as int).map_values(
                |l: Seq<char>| line_hit(l, query@),
            ),
        decreases lines@.len() - j,
    {
        let column = find_chars(&ascii_lowercase(&lines[j]), lower_query);
        let ghost before = block_view(out);
        out.push(LineMatch { text: string_of(&lines[j]), column });
        assert(block_view(out) =~= before.push(line_hit(ls[j as int], query@)));
        assert(ls.subrange(0, j + 1).map_values(|l: Seq<char>| line_hit(l, query@)) =~= ls.subrange(
            0,
            j as int,
        ).map_values(|l: Seq<char>| line_hit(l, query@)).push(line_hit(ls[j as int], query@)));
        j = j + 1;
    }
    assert(ls.subrange(0, ls.len() as int) =~= ls);
    out
}

/// What a search reports of one entry, given the entry and the query also in lowercase:
/// `None` when the lowercase entry does not hold the lowercase query; else the heading, the
/// text before the first blank line or all of it, and each block that holds the query
/// ignoring ASCII case, with the column of the query in each of its lines that holds it.
pub fn match_entry_folded(text: &str, query: &str, folded_text: &str, folded_query: &str) -> (r:
    Option<EntryMatch>)
    ensures
        entry_match_view(r) == entry_hits(text@, query@, folded_text@, folded_query@),
{
    let ft = chars_of(folded_text);
    let fq = chars_of(folded_query);
    if find_chars(&ft, &fq).is_none() {
        return None;
    }
    let t = chars_of(text);
    let h = match first_blank_at(&t) {
        Some(h) => h,
        None => t.len(),
    };
    proof {
        lemma_first_blank(t@);
    }
    assert(t@.subrange(0, t@.len() as int) =~= t@);
    let q = ascii_lowercase(&chars_of(query));
    let blocks = split_blocks(&t);
    let ghost bs = split_blocks_spec(t@);
    let mut out: Vec<Vec<LineMatch>> = Vec::new();
    let mut i: usize = 0;
    assert(bs.subrange(0, 0) =~= Seq::<Seq<char>>::empty());
    while i < blocks.len()
        invariant
            i <= blocks@.len() == bs.len(),
            forall|k: int| 0 <= k < blocks@.len() ==> #[trigger] blocks@[k]@ == bs[k],
            q@ == ascii_lower(query@),
            out@.map_values(|b: Vec<LineMatch>| block_view(b)) == matching_blocks(
                bs.subrange(0, i as int),
                query@,
            ),
        decreases blocks@.len() - i,
    {
        let ghost before = out@.map_values(|b: Vec<LineMatch>| block_view(b));
        assert(bs.subrange(0, i + 1).drop_last() =~= bs.subrange(0, i as int));
        let lb = ascii_lowercase(&blocks[i]);
        if find_chars(&lb, &q).is_some() {
            let hits = hits_in_block(&blocks[i], &q, Ghost(query@));
            out.push(hits);
            assert(out@.map_values(|b: Vec<LineMatch>| block_view(b)) =~= before.push(
                block_hits(bs[i as int], query@),
            ));
        } else {
            assert(matching_blocks(bs.subrange(0, i + 1), query@) =~= before);
        }
        i = i + 1;
    }
    assert(bs.subrange(0, bs.len() as int) =~= bs);
    let heading = string_of(&slice_chars(&t, 0, h));
    Some(EntryMatch { heading, blocks: out })
}

/// What a search for `query` reports of one entry; the entry matches when its lowercase
/// form holds the query's.
pub fn search_entry(text: &str, query: &str) -> (r: Option<EntryMatch>)
    ensures
        entry_match_view(r) == entry_hits(text@, query@, lower_of(text@), lower_of(query@)),
{
    let folded_text = lowercase(text);
    let folded_query = lowercase(query);
    match_entry_folded(text, query, folded_text.as_str(), folded_query.as_str())
}

} // verus!
