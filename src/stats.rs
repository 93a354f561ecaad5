//! Elapsed-time statistics, read back out of the `HH:MM am|pm` timestamps in a day's text.

use vstd::prelude::*;

use crate::calendar::{Moment, days_from_ce};
use crate::chars::{
    chars_of, contains_char, has_char, is_digit, split_at_char, split_chars, string_of,
};

verus! {

pub open spec fn digit_value(c: char) -> int {
    (c as int) - ('0' as int)
}

/// Two characters read as an unsigned number the way `str::parse::<u32>` reads them: two
/// digits, or `+` and one digit.
pub open spec fn two_char_value(a: char, b: char) -> Option<int> {
    if is_digit(a) && is_digit(b) {
        Some(10 * digit_value(a) + digit_value(b))
    } else if a == '+' && is_digit(b) {
        Some(digit_value(b))
    } else {
        None
    }
}

/// Where the first `c` in `s` stands, or -1.
pub open spec fn first_index(s: Seq<char>, c: char) -> int
    decreases s.len(),
{
    if s.len() == 0 {
        -1
    } else if first_index(s.drop_last(), c) >= 0 {
        first_index(s.drop_last(), c)
    } else if s.last() == c {
        s.len() - 1
    } else {
        -1
    }
}

/// The time of day, as hour on the 24-hour clock and minute, that a line's timestamp gives.
/// Around the first `:` the two characters before are the hour and the two after the
/// minute; when the hour is not 12 and the characters four and five after the `:` read `pm`,
/// twelve hours are added. A line whose timestamp cannot be read, or names no time of day,
/// gives `None`.
pub open spec fn parse_time_spec(line: Seq<char>) -> Option<(int, int)> {
    let c = first_index(line, ':');
    if c < 2 || c + 3 > line.len() {
        None
    } else {
        match (two_char_value(line[c - 2], line[c - 1]), two_char_value(line[c + 1], line[c + 2])) {
            (Some(h), Some(m)) => {
                let pm = c + 6 <= line.len() && line[c + 4] == 'p' && line[c + 5] == 'm';
                let hour = if h != 12 && pm { h + 12 } else { h };
                if hour < 24 && m < 60 { Some((hour, m)) } else { None }
            },
            _ => None,
        }
    }
}

pub(crate) fn first_index_of(s: &Vec<char>, c: char) -> (r: Option<usize>)
    ensures
        match r {
            Some(i) => first_index(s@, c) == i && i < s@.len(),
            None => first_index(s@, c) == -1,
        },
{
    let mut i: usize = 0;
    while i < s.len()
        invariant
            i <= s@.len(),
            first_index(s@.subrange(0, i as int), c) == -1,
        decreases s@.len() - i,
    {
        assert(s@.subrange(0, i + 1).drop_last() =~= s@.subrange(0, i as int));
        if s[i] == c {
            proof {
                lemma_first_index_prefix(s@, c, i as int + 1);
            }
            return Some(i);
        }
        i = i + 1;
    }
    assert(s@.subrange(0, s@.len() as int) =~= s@);
    None
}

/// Once a prefix of `s` holds `c`, the first `c` of `s` is the prefix's.
proof fn lemma_first_index_prefix(s: Seq<char>, c: char, k: int)
    requires
        0 <= k <= s.len(),
        first_index(s.subrange(0, k), c) >= 0,
    ensures
        first_index(s, c) == first_index(s.subrange(0, k), c),
    decreases s.len() - k,
{
    if k < s.len() {
        assert(s.subrange(0, k + 1).drop_last() =~= s.subrange(0, k));
        lemma_first_index_prefix(s, c, k + 1);
    } else {
        assert(s.subrange(0, k) =~= s);
    }
}

fn two_char_number(a: char, b: char) -> (r: Option<u32>)
    ensures
        match two_char_value(a, b) {
            Some(v) => r == Some(v as u32),
            None => r is None,
        },
{
    let da = '0' <= a && a <= '9';
    let db = '0' <= b && b <= '9';
    if da && db {
        Some(10 * ((a as u32) - ('0' as u32)) + ((b as u32) - ('0' as u32)))
    } else if a == '+' && db {
        Some((b as u32) - ('0' as u32))
    } else {
        None
    }
}

/// The hour (24-hour clock) and minute that the line's timestamp gives, if it gives one.
pub fn parse_time(line: &Vec<char>) -> (r: Option<(u32, u32)>)
    ensures
        match r {
            Some((h, m)) => h < 24 && m < 60 && parse_time_spec(line@) == Some((h as int, m as int)),
            None => parse_time_spec(line@) is None,
        },
{
    let n = line.len();
    let c = match first_index_of(line, ':') {
        Some(c) => c,
        None => {
            return None;
        },
    };
    if c < 2 || n - c < 3 {
        return None;
    }
    let h = match two_char_number(line[c - 2], line[c - 1]) {
        Some(h) => h,
        None => {
            return None;
        },
    };
    let m = match two_char_number(line[c + 1], line[c + 2]) {
        Some(m) => m,
        None => {
            return None;
        },
    };
    let pm = n - c >= 6 && line[c + 4] == 'p' && line[c + 5] == 'm';
    let hour = if h != 12 && pm { h + 12 } else { h };
    assert(two_char_value(line@[c - 2], line@[c - 1]) == Some(h as int));
    assert(two_char_value(line@[c + 1], line@[c + 2]) == Some(m as int));
    if hour < 24 && m < 60 {
        Some((hour, m))
    } else {
        None
    }
}


/// A timestamped line of a day's text: the moment it names in seconds, its text, and whether
/// it starts a block (it holds no tab).
pub type Stamp = (int, Seq<char>, bool);

/// The start of the reference moment's day, shifted by the reference's seconds: timestamps
/// name hours and minutes on that day and keep the reference's seconds.
pub open spec fn day_base(reference: Moment) -> int {
    days_from_ce(reference.date.year as int, reference.date.month as int, reference.date.day as int)
        * 86400 + reference.second
}

/// The stamp of one line, if its timestamp can be read.
pub open spec fn stamp_of(line: Seq<char>, base: int) -> Seq<Stamp> {
    match parse_time_spec(line) {
        Some((h, m)) => seq![(base + h * 3600 + m * 60, line, !has_char(line, '\t'))],
        None => Seq::empty(),
    }
}

/// The stamps of the lines that have a readable timestamp, in the text's order.
pub open spec fn stamps_in(lines: Seq<Seq<char>>, base: int) -> Seq<Stamp>
    decreases lines.len(),
{
    if lines.len() == 0 {
        Seq::empty()
    } else {
        stamps_in(lines.drop_last(), base) + stamp_of(lines.last(), base)
    }
}

/// The label of the closing stamp, which stands for the present moment.
pub open spec fn now_label() -> Seq<char> {
    seq!['<', 'n', 'o', 'w', '>']
}

/// All stamps of a day's text, closed by one for the present moment.
pub open spec fn stamps(text: Seq<char>, reference: Moment, now: Moment) -> Seq<Stamp> {
    stamps_in(split_at_char(text, '\n'), day_base(reference)) + seq![
        (now.instant(), now_label(), true),
    ]
}

/// A breakdown always closes with the stamp for the present moment, a block start labelled
/// `<now>`, so the time since the last unit can always be reported.
pub proof fn lemma_breakdown_closes_with_now(text: Seq<char>, reference: Moment, now: Moment)
    ensures
        stamps(text, reference, now).len() >= 1,
        stamps(text, reference, now).last() == (now.instant(), now_label(), true),
{
}

/// When the block that stamp `i` belongs to started: the last block start before `i`, not
/// counting the first stamp, or else the first stamp.
pub open spec fn block_start(st: Seq<Stamp>, i: int) -> int
    decreases i,
{
    if i <= 1 {
        st[0].0
    } else if st[i - 1].2 {
        st[i - 1].0
    } else {
        block_start(st, i - 1)
    }
}

/// The durations reported at stamp `i`, in seconds: since the first stamp, since the start
/// of the current block, and since the stamp before. Reported after the first stamp, for
/// block starts, or for every stamp when `granular`.
pub open spec fn elapsed_at(st: Seq<Stamp>, i: int, granular: bool) -> Option<(int, int, int)> {
    if i > 0 && (st[i].2 || granular) {
        Some((st[i].0 - st[0].0, st[i].0 - block_start(st, i), st[i].0 - st[i - 1].0))
    } else {
        None
    }
}

/// Elapsed seconds reported at a stamp.
#[derive(Clone, Copy, Debug, PartialEq, Eq, Structural)]
pub struct Elapsed {
    pub since_start: i64,
    pub since_block: i64,
    pub since_last: i64,
}

pub open spec fn elapsed_view(e: Option<Elapsed>) -> Option<(int, int, int)> {
    match e {
        Some(x) => Some((x.since_start as int, x.since_block as int, x.since_last as int)),
        None => None,
    }
}

/// A timestamped line with the moment it names, in seconds, and what is reported there.
#[derive(Debug)]
pub struct TimeMark {
    pub seconds: i64,
    pub text: String,
    pub is_block: bool,
    pub elapsed: Option<Elapsed>,
}

/// The mark holds stamp `j` of `st` and what is reported there.
pub open spec fn mark_matches(m: TimeMark, st: Seq<Stamp>, j: int, granular: bool) -> bool {
    &&& m.seconds == st[j].0
    &&& m.text@ == st[j].1
    &&& m.is_block == st[j].2
    &&& elapsed_view(m.elapsed) == elapsed_at(st, j, granular)
}

/// Three columns hold the stamps `st`, with moments in a range where differences fit `i64`.
pub open spec fn columns_match(secs: Seq<i64>, texts: Seq<Vec<char>>, blocks: Seq<bool>, st: Seq<Stamp>) -> bool {
    &&& secs.len() == texts.len() == blocks.len() == st.len()
    &&& forall|j: int|
        0 <= j < secs.len() ==> {
            &&& #[trigger] secs[j] == st[j].0
            &&& texts[j]@ == st[j].1
            &&& blocks[j] == st[j].2
            &&& -0x2_0000_0000_0000 <= secs[j] <= 0x2_0000_0000_0000
        }
}

/// The time breakdown of a day's text: every line with a readable timestamp, on the day of
/// `reference`, then a closing `<now>` at `now`, each with the durations reported there.
pub fn time_breakdown(text: &str, reference: Moment, now: Moment, granular: bool) -> (r: Vec<
    TimeMark,
>)
    requires
        reference.wf(),
        now.wf(),
    ensures
        r@.len() == stamps(text@, reference, now).len(),
        forall|i: int|
            0 <= i < r@.len() ==> #[trigger] mark_matches(
                r@[i],
                stamps(text@, reference, now),
                i,
                granular,
            ),
{
    let midnight = Moment { date: reference.date, hour: 0, minute: 0, second: reference.second };
    let base = midnight.seconds();
    let ghost gbase = day_base(reference);
    assert(base == gbase);
    let chars = chars_of(text);
    let lines = split_chars(&chars, '\n');
    let ghost ls = split_at_char(chars@, '\n');
    let mut secs: Vec<i64> = Vec::new();
    let mut texts: Vec<Vec<char>> = Vec::new();
    let mut blocks: Vec<bool> = Vec::new();
    let mut i: usize = 0;
    let ghost mut acc: Seq<Stamp> = Seq::empty();
    assert(ls.subrange(0, 0) =~= Seq::<Seq<char>>::empty());
    while i < lines.len()
        invariant
            i <= lines@.len() == ls.len(),
            forall|j: int| 0 <= j < lines@.len() ==> #[trigger] lines@[j]@ == ls[j],
            -0x1_0000_0000_0000 <= base <= 0x1_0000_0000_0000,
            base == gbase,
            acc == stamps_in(ls.subrange(0, i as int), gbase),
            columns_match(secs@, texts@, blocks@, acc),
        decreases lines@.len() - i,
    {
        let ghost prev = stamps_in(ls.subrange(0, i as int), gbase);
        assert(ls.subrange(0, i + 1).drop_last() =~= ls.subrange(0, i as int));
        assert(ls.subrange(0, i + 1).last() == ls[i as int]);
        let ghost next = stamps_in(ls.subrange(0, i + 1), gbase);
        assert(next == prev + stamp_of(ls[i as int], gbase));
        let line = &lines[i];
        let ghost old_secs = secs@;
        let ghost old_texts = texts@;
        let ghost old_blocks = blocks@;
        match parse_time(line) {
            Some((h, m)) => {
                secs.push(base + (h as i64) * 3600 + (m as i64) * 60);
                texts.push(crate::chars::slice_chars(line, 0, line.len()));
                blocks.push(!contains_char(line, '\t'));
                assert(line@.subrange(0, line@.len() as int) =~= line@);
                assert(next.len() == prev.len() + 1);
                assert(next[prev.len() as int] == (
                    gbase + h * 3600 + m * 60,
                    ls[i as int],
                    !has_char(ls[i as int], '\t'),
                ));
            },
            None => {
                assert(next =~= prev);
            },
        }
        assert(secs@.len() == next.len());
        assert forall|j: int| 0 <= j < secs@.len() implies {
            &&& #[trigger] secs@[j] == next[j].0
            &&& texts@[j]@ == next[j].1
            &&& blocks@[j] == next[j].2
            &&& -0x2_0000_0000_0000 <= secs@[j] <= 0x2_0000_0000_0000
        } by {
            if j < prev.len() {
                assert(next[j] == prev[j]);
                assert(secs@[j] == old_secs[j]);
                assert(texts@[j] == old_texts[j]);
                assert(blocks@[j] == old_blocks[j]);
            }
        }
        proof {
            acc = next;
        }
        i = i + 1;
    }
    assert(ls.subrange(0, ls.len() as int) =~= ls);
    assert(chars@ == text@);
    let ghost st = stamps(text@, reference, now);
    let ghost body = stamps_in(ls, gbase);
    secs.push(now.seconds());
    texts.push(vec!['<', 'n', 'o', 'w', '>']);
    blocks.push(true);
    assert(secs@.len() == st.len());
    assert forall|j: int| 0 <= j < secs@.len() implies {
        &&& #[trigger] secs@[j] == st[j].0
        &&& texts@[j]@ == st[j].1
        &&& blocks@[j] == st[j].2
        &&& -0x2_0000_0000_0000 <= secs@[j] <= 0x2_0000_0000_0000
    } by {
        if j < body.len() {
            assert(st[j] == body[j]);
        } else {
            assert(texts@[j]@ =~= now_label());
        }
    }
    assert(columns_match(secs@, texts@, blocks@, st));
    marks_from_columns(&secs, &texts, &blocks, granular, Ghost(st))
}


/// The marks of the stamps held in three columns, each with what is reported there.
pub(crate) fn marks_from_columns(
    secs: &Vec<i64>,
    texts: &Vec<Vec<char>>,
    blocks: &Vec<bool>,
    granular: bool,
    st: Ghost<Seq<Stamp>>,
) -> (r: Vec<TimeMark>)
    requires
        columns_match(secs@, texts@, blocks@, st@),
        st@.len() >= 1,
    ensures
        r@.len() == st@.len(),
        forall|i: int| 0 <= i < r@.len() ==> #[trigger] mark_matches(r@[i], st@, i, granular),
{
    let ghost st = st@;
    let mut out: Vec<TimeMark> = Vec::new();
    let mut block_time: i64 = secs[0];
    let mut k: usize = 0;
    while k < secs.len()
        invariant
            k <= secs@.len() == texts@.len() == blocks@.len() == st.len(),
            st.len() >= 1,
            columns_match(secs@, texts@, blocks@, st),
            block_time == (if k <= 1 { st[0].0 } else { block_start(st, k as int) }),
            -0x2_0000_0000_0000 <= block_time <= 0x2_0000_0000_0000,
            out@.len() == k,
            forall|j: int| 0 <= j < k ==> #[trigger] mark_matches(out@[j], st, j, granular),
        decreases secs@.len() - k,
    {
        let t = secs[k];
        let is_block = blocks[k];
        let elapsed = if k > 0 && (is_block || granular) {
            Some(
                Elapsed {
                    since_start: t - secs[0],
                    since_block: t - block_time,
                    since_last: t - secs[k - 1],
                },
            )
        } else {
            None
        };
        assert(k > 0 ==> block_time == block_start(st, k as int));
        let ghost old_out = out@;
        out.push(TimeMark { seconds: t, text: string_of(&texts[k]), is_block, elapsed });
        assert(mark_matches(out@[k as int], st, k as int, granular));
        assert forall|j: int| 0 <= j < k + 1 implies #[trigger] mark_matches(out@[j], st, j, granular) by {
            if j < k {
                assert(out@[j] == old_out[j]);
            }
        }
        if k > 0 && is_block {
            block_time = t;
        }
        assert(k >= 1 ==> block_start(st, k + 1) == (if st[k as int].2 { st[k as int].0 } else { block_start(st, k as int) }));
        k = k + 1;
    }
    out
}

} // verus!
