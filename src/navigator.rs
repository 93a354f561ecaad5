//! The chronological navigator: which dates to look at, one calendar day at a time, to
//! visit a journal's entries in order, across the years that it holds folders for.
//!
//! The caller drives the walk: it asks [`Navigator::next`] for the next date, loads the
//! entry of that date if there is one, hands it to its visitor, and stops when the
//! visitor or the navigator says so.

use vstd::prelude::*;

use crate::calendar::{Date, MAX_YEAR, MIN_YEAR, date_le, date_lt};
use crate::chars::{decimal_in, parse_decimal};
use crate::error::JournalError;

verus! {

/// Which way a walk goes through the calendar.
#[derive(Clone, Copy, Debug, PartialEq, Eq, Structural)]
pub enum Direction {
    Forwards,
    Backwards,
}

/// The year that a folder's name gives: an optional sign and at least one digit, with a
/// value in the supported range of years.
pub open spec fn year_value(s: Seq<char>) -> Option<int> {
    decimal_in(s, MIN_YEAR as int, MAX_YEAR as int)
}

/// Some folder among `folders` is named by the year `y`.
pub open spec fn has_year_folder(folders: Seq<String>, y: int) -> bool {
    exists|i: int| 0 <= i < folders.len() && year_value(#[trigger] folders[i]@) == Some(y)
}

/// `e` lies on the walk's side of `start`: not before it going forwards, not after it going
/// backwards.
pub open spec fn on_side(start: Date, e: Date, dir: Direction) -> bool {
    match dir {
        Direction::Forwards => date_le(start, e),
        Direction::Backwards => date_le(e, start),
    }
}

/// The year that a folder's name gives, if it gives one.
pub fn parse_year(name: &str) -> (r: Option<i32>)
    ensures
        match year_value(name@) {
            Some(v) => r == Some(v as i32),
            None => r is None,
        },
{
    match parse_decimal(name, MIN_YEAR as i128, MAX_YEAR as i128) {
        Some(v) => Some(v as i32),
        None => None,
    }
}

/// The years that the folders are named by, in the folders' order; `InvalidYearFolder` when
/// a folder is not named by a year.
pub fn parse_years(folders: &Vec<String>) -> (r: Result<Vec<i32>, JournalError>)
    ensures
        match r {
            Ok(ys) => ys@.len() == folders@.len() && forall|i: int|
                0 <= i < folders@.len() ==> year_value(#[trigger] folders@[i]@) == Some(
                    ys@[i] as int,
                ),
            Err(e) => e == JournalError::InvalidYearFolder && exists|i: int|
                0 <= i < folders@.len() && year_value(#[trigger] folders@[i]@) is None,
        },
{
    let mut ys: Vec<i32> = Vec::new();
    let mut i: usize = 0;
    while i < folders.len()
        invariant
            i <= folders@.len(),
            ys@.len() == i,
            forall|j: int| 0 <= j < i ==> year_value(#[trigger] folders@[j]@) == Some(ys@[j] as int),
        decreases folders@.len() - i,
    {
        match parse_year(folders[i].as_str()) {
            Some(y) => {
                ys.push(y);
            },
            None => {
                assert(year_value(folders@[i as int]@) is None);
                return Err(JournalError::InvalidYearFolder);
            },
        }
        i = i + 1;
    }
    Ok(ys)
}

/// `ys` holds the year `y`.
fn holds_year(ys: &Vec<i32>, y: i32) -> (r: bool)
    ensures
        r == ys@.contains(y),
{
    let mut i: usize = 0;
    while i < ys.len()
        invariant
            i <= ys@.len(),
            forall|j: int| 0 <= j < i ==> ys@[j] != y,
        decreases ys@.len() - i,
    {
        if ys[i] == y {
            return true;
        }
        i = i + 1;
    }
    false
}

/// The least year of `ys` after `y`.
fn year_after(ys: &Vec<i32>, y: i32) -> (r: Option<i32>)
    ensures
        match r {
            Some(n) => ys@.contains(n) && n > y && forall|k: i32| #[trigger]
                ys@.contains(k) && k > y ==> n <= k,
            None => forall|k: i32| #[trigger] ys@.contains(k) ==> k <= y,
        },
{
    let mut best: Option<i32> = None;
    let mut i: usize = 0;
    while i < ys.len()
        invariant
            i <= ys@.len(),
            forall|j: int| 0 <= j < i && ys@[j] > y ==> best is Some && best->0 <= ys@[j],
            match best {
                Some(b) => b > y && exists|j: int| 0 <= j < i && ys@[j] == b,
                None => true,
            },
        decreases ys@.len() - i,
    {
        let k = ys[i];
        if k > y {
            match best {
                Some(b) => {
                    if k < b {
                        best = Some(k);
                    }
                },
                None => {
                    best = Some(k);
                },
            }
        }
        i = i + 1;
    }
    best
}

/// The greatest year of `ys` before `y`.
fn year_before(ys: &Vec<i32>, y: i32) -> (r: Option<i32>)
    ensures
        match r {
            Some(n) => ys@.contains(n) && n < y && forall|k: i32| #[trigger]
                ys@.contains(k) && k < y ==> k <= n,
            None => forall|k: i32| #[trigger] ys@.contains(k) ==> k >= y,
        },
{
    let mut best: Option<i32> = None;
    let mut i: usize = 0;
    while i < ys.len()
        invariant
            i <= ys@.len(),
            forall|j: int| 0 <= j < i && ys@[j] < y ==> best is Some && ys@[j] <= best->0,
            match best {
                Some(b) => b < y && exists|j: int| 0 <= j < i && ys@[j] == b,
                None => true,
            },
        decreases ys@.len() - i,
    {
        let k = ys[i];
        if k < y {
            match best {
                Some(b) => {
                    if k > b {
                        best = Some(k);
                    }
                },
                None => {
                    best = Some(k);
                },
            }
        }
        i = i + 1;
    }
    best
}


proof fn lemma_next_day_order(d: Date, e: Date)
    requires
        d.wf(),
        e.wf(),
        !d.is_last_of_year(),
    ensures
        date_lt(d, e) <==> date_le(d.next_spec(), e),
{
}

proof fn lemma_prev_day_order(d: Date, e: Date)
    requires
        d.wf(),
        e.wf(),
        !d.is_first_of_year(),
    ensures
        date_lt(e, d) <==> date_le(e, d.prev_spec()),
{
}

/// Where a walk through a journal stands: the years it holds folders for (in any order),
/// the next date to look at, and which way it goes.
#[derive(Debug)]
pub struct Navigator {
    pub years: Vec<i32>,
    pub cursor: Date,
    pub direction: Direction,
    pub done: bool,
}

impl Navigator {
    pub open spec fn wf(&self) -> bool {
        &&& forall|i: int| 0 <= i < self.years@.len() ==> MIN_YEAR <= #[trigger] self.years@[i] <= MAX_YEAR
        &&& !self.done ==> self.cursor.wf() && self.years@.contains(self.cursor.year)
    }

    /// `e` is still to be looked at: a date of one of the years, not yet passed.
    pub open spec fn pending(&self, e: Date) -> bool {
        &&& !self.done
        &&& e.wf()
        &&& self.years@.contains(e.year)
        &&& on_side(self.cursor, e, self.direction)
    }

    /// A walk from `start` in the given direction over the years that `folders` are named
    /// by. It looks at every date of those years on the walk's side of `start`, `start`
    /// included; `InvalidYearFolder` when a folder is not named by a year.
    pub fn new(folders: &Vec<String>, start: Date, direction: Direction) -> (r: Result<
        Navigator,
        JournalError,
    >)
        requires
            start.wf(),
        ensures
            r is Err <==> exists|i: int|
                0 <= i < folders@.len() && year_value(#[trigger] folders@[i]@) is None,
            r is Err ==> r->Err_0 == JournalError::InvalidYearFolder,
            r matches Ok(nav) ==> {
                &&& nav.wf()
                &&& nav.direction == direction
                &&& forall|e: Date| #[trigger]
                    nav.pending(e) <==> (e.wf() && has_year_folder(folders@, e.year as int)
                        && on_side(start, e, direction))
            },
    {
        let years = match parse_years(folders) {
            Ok(ys) => ys,
            Err(e) => {
                return Err(e);
            },
        };
        assert forall|y: i32| #[trigger] years@.contains(y) <==> has_year_folder(folders@, y as int) by {
            if years@.contains(y) {
                let i = choose|i: int| 0 <= i < years@.len() && years@[i] == y;
                assert(year_value(folders@[i]@) == Some(y as int));
            }
            if has_year_folder(folders@, y as int) {
                let i = choose|i: int|
                    0 <= i < folders@.len() && year_value(#[trigger] folders@[i]@) == Some(
                        y as int,
                    );
                assert(years@[i] == y);
            }
        }
        assert forall|i: int| 0 <= i < years@.len() implies MIN_YEAR <= #[trigger] years@[i]
            <= MAX_YEAR by {
            assert(year_value(folders@[i]@) == Some(years@[i] as int));
        }
        let mut nav = Navigator { years, cursor: start, direction, done: false };
        if holds_year(&nav.years, start.year) {
            return Ok(nav);
        }
        match direction {
            Direction::Forwards => match year_after(&nav.years, start.year) {
                Some(y) => {
                    nav.cursor = Date::first_of_year(y);
                    assert forall|e: Date| #[trigger]
                        nav.pending(e) <==> (e.wf() && has_year_folder(folders@, e.year as int)
                            && on_side(start, e, direction)) by {
                        if e.wf() && nav.years@.contains(e.year) {
                            assert(e.year != start.year);
                        }
                    }
                },
                None => {
                    nav.done = true;
                    assert forall|e: Date| #[trigger]
                        nav.pending(e) <==> (e.wf() && has_year_folder(folders@, e.year as int)
                            && on_side(start, e, direction)) by {
                        if e.wf() && nav.years@.contains(e.year) {
                            assert(e.year != start.year);
                        }
                    }
                },
            },
            Direction::Backwards => match year_before(&nav.years, start.year) {
                Some(y) => {
                    nav.cursor = Date::last_of_year(y);
                    assert forall|e: Date| #[trigger]
                        nav.pending(e) <==> (e.wf() && has_year_folder(folders@, e.year as int)
                            && on_side(start, e, direction)) by {
                        if e.wf() && nav.years@.contains(e.year) {
                            assert(e.year != start.year);
                        }
                    }
                },
                None => {
                    nav.done = true;
                    assert forall|e: Date| #[trigger]
                        nav.pending(e) <==> (e.wf() && has_year_folder(folders@, e.year as int)
                            && on_side(start, e, direction)) by {
                        if e.wf() && nav.years@.contains(e.year) {
                            assert(e.year != start.year);
                        }
                    }
                },
            },
        }
        Ok(nav)
    }

    /// The next date to look at, or `None` once the walk has run past the last of its years.
    /// Dates come one calendar day at a time, in the walk's direction, skipping the years
    /// that have no folder.
    pub fn next(&mut self) -> (r: Option<Date>)
        requires
            old(self).wf(),
        ensures
            final(self).wf(),
            final(self).years == old(self).years,
            final(self).direction == old(self).direction,
            r is None <==> forall|e: Date| !old(self).pending(e),
            r matches Some(d) ==> {
                &&& old(self).pending(d)
                &&& forall|e: Date| old(self).pending(e) ==> on_side(d, e, old(self).direction)
                &&& forall|e: Date| #[trigger]
                    final(self).pending(e) <==> (old(self).pending(e) && e != d)
            },
            r is None ==> forall|e: Date| !final(self).pending(e),
    {
        if self.done {
            return None;
        }
        let d = self.cursor;
        assert(self.pending(d));
        match self.direction {
            Direction::Forwards => {
                if d.month == 12 && d.day == 31 {
                    match year_after(&self.years, d.year) {
                        Some(y) => {
                            self.cursor = Date::first_of_year(y);
                        },
                        None => {
                            self.done = true;
                        },
                    }
                } else {
                    self.cursor = d.next();
                    assert forall|e: Date| e.wf() implies date_lt(d, e) <==> date_le(
                        d.next_spec(),
                        e,
                    ) by {
                        lemma_next_day_order(d, e);
                    }
                }
            },
            Direction::Backwards => {
                if d.month == 1 && d.day == 1 {
                    match year_before(&self.years, d.year) {
                        Some(y) => {
                            self.cursor = Date::last_of_year(y);
                        },
                        None => {
                            self.done = true;
                        },
                    }
                } else {
                    self.cursor = d.prev();
                    assert forall|e: Date| e.wf() implies date_lt(e, d) <==> date_le(
                        e,
                        d.prev_spec(),
                    ) by {
                        lemma_prev_day_order(d, e);
                    }
                }
            },
        }
        Some(d)
    }
}


/// One page of a journal's most recent entries, filled during a backward walk: page `p`
/// (from zero) of `n` entries holds the entries numbered `p * n` up to `p * n + n`, counting
/// back from the latest as zero.
#[derive(Debug)]
pub struct Page {
    pub page: u32,
    pub start: u64,
    pub end: u64,
    pub count: u64,
    pub texts: Vec<String>,
}

impl Page {
    /// Page `page_num` of `page_size` entries, pages counted from one; `0` also names the
    /// first page.
    pub fn new(page_size: u32, page_num: u32) -> (r: Page)
        ensures
            r.page == (if page_num > 0 { page_num - 1 } else { 0 }),
            r.start == r.page * page_size,
            r.end == r.start + page_size,
            r.count == 0,
            r.texts@.len() == 0,
    {
        let page: u32 = if page_num > 0 { page_num - 1 } else { 0 };
        assert((page as int) * (page_size as int) <= 0xffff_ffff * 0xffff_ffff) by (nonlinear_arith)
            requires
                page <= 0xffff_ffff,
                page_size <= 0xffff_ffff,
        ;
        let start: u64 = (page as u64) * (page_size as u64);
        Page { page, start, end: start + page_size as u64, count: 0, texts: Vec::new() }
    }

    /// Takes the next entry of the walk, latest first; keeps it when it falls on this page.
    /// Says whether the walk should go on.
    pub fn visit(&mut self, text: String) -> (more: bool)
        requires
            old(self).count < u64::MAX,
        ensures
            final(self).page == old(self).page,
            final(self).start == old(self).start,
            final(self).end == old(self).end,
            final(self).count == old(self).count + 1,
            final(self).texts@ == (if old(self).count >= old(self).start {
                old(self).texts@.push(text)
            } else {
                old(self).texts@
            }),
            more == (final(self).count < final(self).end),
    {
        if self.count >= self.start {
            self.texts.push(text);
        }
        self.count = self.count + 1;
        self.count < self.end
    }

    /// The entries kept, oldest first.
    pub fn entries(&self) -> (r: Vec<String>)
        ensures
            r@.len() == self.texts@.len(),
            forall|i: int|
                0 <= i < r@.len() ==> #[trigger] r@[i]@ == self.texts@[self.texts@.len() - 1 - i]@,
    {
        let n = self.texts.len();
        let mut r: Vec<String> = Vec::new();
        let mut i: usize = 0;
        while i < n
            invariant
                i <= n == self.texts@.len(),
                r@.len() == i,
                forall|k: int| 0 <= k < i ==> #[trigger] r@[k]@ == self.texts@[n - 1 - k]@,
            decreases n - i,
        {
            r.push(self.texts[n - 1 - i].clone());
            i = i + 1;
        }
        r
    }

    /// How far back from the latest entry the `i`-th kept entry, oldest first, stands; `None`
    /// for the latest entry itself on the first page.
    pub fn label_number(&self, i: usize) -> (r: Option<u64>)
        requires
            i < self.texts@.len(),
            self.start + self.texts@.len() <= u64::MAX,
        ensures
            r == (if self.page == 0 && i == self.texts@.len() - 1 {
                None
            } else {
                Some((self.start + self.texts@.len() - 1 - i) as u64)
            }),
    {
        let n = self.texts.len();
        if self.page == 0 && i == n - 1 {
            None
        } else {
            Some(self.start + (n - 1 - i) as u64)
        }
    }
}

} // verus!
