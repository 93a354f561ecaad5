//! Time statistics over a log that spans several days: a line holding a `Y/M/D` date sets
//! the day that the timestamps after it fall on, and the first timestamp after such a line
//! starts a block.

use vstd::prelude::*;

use crate::calendar::{Date, MAX_YEAR, MIN_YEAR, Moment, days_from_ce};
use crate::chars::{
    chars_of, contains_char, decimal, decimal_in, has_char, parse_decimal, push_decimal,
    split_at_char, split_chars, string_of,
};
use crate::stats::{
    Stamp, TimeMark, columns_match, mark_matches, marks_from_columns, now_label, parse_time,
    parse_time_spec,
};

verus! {

/// The three groups of the leftmost match of `(\d{4})/(\d{1,2})/(\d{1,2})` in a line.
pub uninterp spec fn date_parts_of(line: Seq<char>) -> Option<(Seq<char>, Seq<char>, Seq<char>)>;

/// Relies on regex's `Regex::captures` with the pattern `(\d{4})/(\d{1,2})/(\d{1,2})`: the
/// groups of the leftmost match, which depend on the line alone.
#[verifier::external_body]
fn date_parts(line: &str) -> (r: Option<(String, String, String)>)
    ensures
        match r {
            Some((y, m, d)) => date_parts_of(line@) == Some((y@, m@, d@)),
            None => date_parts_of(line@) is None,
        },
{
    let re = regex::Regex::new("(\\d{4})/(\\d{1,2})/(\\d{1,2})").unwrap();
    let groups = re.captures(line)?;
    Some((groups[1].to_string(), groups[2].to_string(), groups[3].to_string()))
}

/// The date that a line names, if its leftmost `Y/M/D` match reads as a calendar date.
pub open spec fn log_date_of(line: Seq<char>) -> Option<Date> {
    match date_parts_of(line) {
        Some((ys, ms, ds)) => match (
            decimal_in(ys, MIN_YEAR as int, MAX_YEAR as int),
            decimal_in(ms, 0, u32::MAX as int),
            decimal_in(ds, 0, u32::MAX as int),
        ) {
            (Some(y), Some(m), Some(d)) => {
                let date = Date { year: y as i32, month: m as u32, day: d as u32 };
                if date.wf() { Some(date) } else { None }
            },
            _ => None,
        },
        None => None,
    }
}

/// The date that a line names, if any.
pub fn parse_date(line: &str) -> (r: Option<Date>)
    ensures
        r == log_date_of(line@),
        r matches Some(d) ==> d.wf(),
{
    let (ys, ms, ds) = match date_parts(line) {
        Some(parts) => parts,
        None => {
            return None;
        },
    };
    let y = parse_decimal(ys.as_str(), MIN_YEAR as i128, MAX_YEAR as i128);
    let m = parse_decimal(ms.as_str(), 0, u32::MAX as i128);
    let d = parse_decimal(ds.as_str(), 0, u32::MAX as i128);
    match (y, m, d) {
        (Some(y), Some(m), Some(d)) => Date::new(y as i32, m as u32, d as u32),
        _ => None,
    }
}

/// The scan of a log's lines: its stamps so far, the start of the current day if a date
/// has been seen, and whether a date line came after the last stamp.
pub open spec fn log_scan(lines: Seq<Seq<char>>) -> (Seq<Stamp>, Option<int>, bool)
    decreases lines.len(),
{
    if lines.len() == 0 {
        (Seq::empty(), None, false)
    } else {
        let (st, base, fresh) = log_scan(lines.drop_last());
        let line = lines.last();
        let (base2, fresh2) = match log_date_of(line) {
            Some(d) => (
                Some(days_from_ce(d.year as int, d.month as int, d.day as int) * 86400),
                true,
            ),
            None => (base, fresh),
        };
        match base2 {
            Some(b) => match parse_time_spec(line) {
                Some((h, m)) => (
                    st.push((b + h * 3600 + m * 60, line, !has_char(line, '\t') || fresh2)),
                    base2,
                    false,
                ),
                None => (st, base2, fresh2),
            },
            None => (st, base2, fresh2),
        }
    }
}

/// The stamps of a log, closed by one for the present moment.
pub open spec fn log_stamps(text: Seq<char>, now: Moment) -> Seq<Stamp> {
    log_scan(split_at_char(text, '\n')).0 + seq![(now.instant(), now_label(), true)]
}

/// The time breakdown of a log: every line with a readable timestamp after a line that
/// names a date, on that date, then a closing `<now>` at `now`, each with the durations
/// reported there.
pub fn log_time_breakdown(text: &str, now: Moment, granular: bool) -> (r: Vec<TimeMark>)
    requires
        now.wf(),
    ensures
        r@.len() == log_stamps(text@, now).len(),
        forall|i: int|
            0 <= i < r@.len() ==> #[trigger] mark_matches(r@[i], log_stamps(text@, now), i, granular),
{
    let chars = chars_of(text);
    let lines = split_chars(&chars, '\n');
    let ghost ls = split_at_char(chars@, '\n');
    let mut secs: Vec<i64> = Vec::new();
    let mut texts: Vec<Vec<char>> = Vec::new();
    let mut blocks: Vec<bool> = Vec::new();
    let mut base: Option<i64> = None;
    let mut fresh = false;
    let mut i: usize = 0;
    assert(ls.subrange(0, 0) =~= Seq::<Seq<char>>::empty());
    while i < lines.len()
        invariant
            i <= lines@.len() == ls.len(),
            forall|j: int| 0 <= j < lines@.len() ==> #[trigger] lines@[j]@ == ls[j],
            columns_match(secs@, texts@, blocks@, log_scan(ls.subrange(0, i as int)).0),
            fresh == log_scan(ls.subrange(0, i as int)).2,
            match base {
                Some(b) => log_scan(ls.subrange(0, i as int)).1 == Some(b as int)
                    && -0x1_0000_0000_0000 <= b <= 0x1_0000_0000_0000,
                None => log_scan(ls.subrange(0, i as int)).1 is None,
            },
        decreases lines@.len() - i,
    {
        let ghost prev = log_scan(ls.subrange(0, i as int));
        assert(ls.subrange(0, i + 1).drop_last() =~= ls.subrange(0, i as int));
        let ghost next = log_scan(ls.subrange(0, i + 1));
        let line = &lines[i];
        let line_text = string_of(line);
        if let Some(d) = parse_date(line_text.as_str()) {
            let midnight = Moment { date: d, hour: 0, minute: 0, second: 0 };
            base = Some(midnight.seconds());
            fresh = true;
        }
        let ghost old_secs = secs@;
        let ghost old_texts = texts@;
        let ghost old_blocks = blocks@;
        if let Some(b) = base {
            match parse_time(line) {
                Some((h, m)) => {
                    secs.push(b + (h as i64) * 3600 + (m as i64) * 60);
                    texts.push(crate::chars::slice_chars(line, 0, line.len()));
                    blocks.push(!contains_char(line, '\t') || fresh);
                    assert(line@.subrange(0, line@.len() as int) =~= line@);
                    fresh = false;
                },
                None => {},
            }
        }
        assert(columns_match(secs@, texts@, blocks@, next.0)) by {
            assert forall|j: int| 0 <= j < secs@.len() implies {
                &&& #[trigger] secs@[j] == next.0[j].0
                &&& texts@[j]@ == next.0[j].1
                &&& blocks@[j] == next.0[j].2
                &&& -0x2_0000_0000_0000 <= secs@[j] <= 0x2_0000_0000_0000
            } by {
                if j < old_secs.len() {
                    assert(secs@[j] == old_secs[j]);
                    assert(texts@[j] == old_texts[j]);
                    assert(blocks@[j] == old_blocks[j]);
                    assert(next.0[j] == prev.0[j]);
                }
            }
        }
        i = i + 1;
    }
    assert(ls.subrange(0, ls.len() as int) =~= ls);
    assert(chars@ == text@);
    let ghost st = log_stamps(text@, now);
    let ghost body = log_scan(ls).0;
    secs.push(now.seconds());
    texts.push(vec!['<', 'n', 'o', 'w', '>']);
    blocks.push(true);
    assert(columns_match(secs@, texts@, blocks@, st)) by {
        assert forall|j: int| 0 <= j < secs@.len() implies {
            &&& #[trigger] secs@[j] == st[j].0
            &&& texts@[j]@ == st[j].1
            &&& blocks@[j] == st[j].2
            &&& -0x2_0000_0000_0000 <= secs@[j] <= 0x2_0000_0000_0000
        } by {
            if j < body.len() {
                assert(st[j] == body[j]);
            } else {
                assert(texts@[j]@ =~= now_label());
            }
        }
    }
    marks_from_columns(&secs, &texts, &blocks, granular, Ghost(st))
}


/// A duration given in seconds, as days, hours and minutes: `1d  2h 5m`, `3h`, `45m`; `0`
/// under a minute. Whole minutes, hours and days are counted toward zero, and a duration of
/// a minute or more into the past shows as nothing.
pub open spec fn duration_text_spec(secs: int) -> Seq<char> {
    if secs < 0 {
        if secs > -60 { seq!['0'] } else { Seq::empty() }
    } else if secs / 60 == 0 {
        seq!['0']
    } else {
        let minutes = secs / 60;
        let hours = secs / 3600;
        let days = secs / 86400;
        (if days > 0 {
            decimal(days as nat) + seq!['d', ' '] + (if hours > 0 || minutes > 0 {
                seq![' ']
            } else {
                Seq::empty()
            })
        } else {
            Seq::empty()
        }) + (if hours > 0 {
            decimal((hours % 24) as nat) + seq!['h'] + (if minutes > 0 {
                seq![' ']
            } else {
                Seq::empty()
            })
        } else {
            Seq::empty()
        }) + (if minutes > 0 {
            decimal((minutes % 60) as nat) + seq!['m']
        } else {
            Seq::empty()
        })
    }
}

/// A duration given in seconds, as days, hours and minutes.
pub fn duration_to_str(secs: i64) -> (r: String)
    ensures
        r@ == duration_text_spec(secs as int),
{
    let mut out: Vec<char> = Vec::new();
    if secs < 0 {
        if secs > -60 {
            out.push('0');
        }
        assert(out@ =~= duration_text_spec(secs as int));
        return string_of(&out);
    }
    let s = secs as u64;
    let minutes = s / 60;
    let hours = s / 3600;
    let days = s / 86400;
    if minutes == 0 {
        out.push('0');
        assert(out@ =~= duration_text_spec(secs as int));
        return string_of(&out);
    }
    let ghost a = if days > 0 {
        decimal(days as nat) + seq!['d', ' '] + (if hours > 0 || minutes > 0 {
            seq![' ']
        } else {
            Seq::empty()
        })
    } else {
        Seq::<char>::empty()
    };
    let ghost b = if hours > 0 {
        decimal((hours % 24) as nat) + seq!['h'] + (if minutes > 0 {
            seq![' ']
        } else {
            Seq::empty()
        })
    } else {
        Seq::<char>::empty()
    };
    let ghost c = if minutes > 0 {
        decimal((minutes % 60) as nat) + seq!['m']
    } else {
        Seq::<char>::empty()
    };
    if days > 0 {
        push_decimal(&mut out, days);
        out.push('d');
        out.push(' ');
        if hours > 0 || minutes > 0 {
            out.push(' ');
        }
    }
    assert(out@ =~= a);
    if hours > 0 {
        push_decimal(&mut out, hours % 24);
        out.push('h');
        if minutes > 0 {
            out.push(' ');
        }
    }
    assert(out@ =~= a + b);
    if minutes > 0 {
        push_decimal(&mut out, minutes % 60);
        out.push('m');
    }
    assert(out@ =~= a + b + c);
    string_of(&out)
}

} // verus!
