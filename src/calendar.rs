//! Calendar dates and wall-clock moments, as plain values.

use chrono::Datelike;
use vstd::prelude::*;

use crate::chars::{decimal, push_decimal, string_of, two_digits};

verus! {

/// The earliest year a [`Date`] may hold.
pub const MIN_YEAR: i32 = -262143;

/// The latest year a [`Date`] may hold.
pub const MAX_YEAR: i32 = 262142;

/// A day of the proleptic Gregorian calendar.
#[derive(Clone, Copy, Debug, PartialEq, Eq, Structural)]
pub struct Date {
    pub year: i32,
    pub month: u32,
    pub day: u32,
}

pub open spec fn is_leap(year: int) -> bool {
    (year % 4 == 0 && year % 100 != 0) || year % 400 == 0
}

pub open spec fn days_in_month(year: int, month: int) -> int {
    if month == 2 {
        if is_leap(year) { 29 } else { 28 }
    } else if month == 4 || month == 6 || month == 9 || month == 11 {
        30
    } else {
        31
    }
}

/// `a` comes strictly before `b` in the calendar.
pub open spec fn date_lt(a: Date, b: Date) -> bool {
    a.year < b.year || (a.year == b.year && (a.month < b.month || (a.month == b.month && a.day
        < b.day)))
}

pub open spec fn date_le(a: Date, b: Date) -> bool {
    date_lt(a, b) || a == b
}

impl Date {
    /// The date exists in the calendar and lies in the supported range of years.
    pub open spec fn wf(self) -> bool {
        &&& MIN_YEAR <= self.year <= MAX_YEAR
        &&& 1 <= self.month <= 12
        &&& 1 <= self.day <= days_in_month(self.year as int, self.month as int)
    }

    pub open spec fn is_first_of_year(self) -> bool {
        self.month == 1 && self.day == 1
    }

    pub open spec fn is_last_of_year(self) -> bool {
        self.month == 12 && self.day == 31
    }

    /// The calendar day after this one.
    pub open spec fn next_spec(self) -> Date {
        if (self.day as int) < days_in_month(self.year as int, self.month as int) {
            Date { year: self.year, month: self.month, day: (self.day + 1) as u32 }
        } else if self.month < 12 {
            Date { year: self.year, month: (self.month + 1) as u32, day: 1 }
        } else {
            Date { year: (self.year + 1) as i32, month: 1, day: 1 }
        }
    }

    /// The calendar day before this one.
    pub open spec fn prev_spec(self) -> Date {
        if self.day > 1 {
            Date { year: self.year, month: self.month, day: (self.day - 1) as u32 }
        } else if self.month > 1 {
            Date {
                year: self.year,
                month: (self.month - 1) as u32,
                day: days_in_month(self.year as int, self.month - 1) as u32,
            }
        } else {
            Date { year: (self.year - 1) as i32, month: 12, day: 31 }
        }
    }

    /// The date, when it exists and its year is in the supported range.
    pub fn new(year: i32, month: u32, day: u32) -> (r: Option<Date>)
        ensures
            r == (if (Date { year, month, day }).wf() {
                Some(Date { year, month, day })
            } else {
                None
            }),
    {
        if year < MIN_YEAR || year > MAX_YEAR || month < 1 || month > 12 || day < 1 {
            return None;
        }
        if day > month_length(year, month) {
            return None;
        }
        Some(Date { year, month, day })
    }

    /// The first of January of `year`.
    pub fn first_of_year(year: i32) -> (r: Date)
        requires
            MIN_YEAR <= year <= MAX_YEAR,
        ensures
            r.wf(),
            r == (Date { year, month: 1, day: 1 }),
    {
        Date { year, month: 1, day: 1 }
    }

    /// The thirty-first of December of `year`.
    pub fn last_of_year(year: i32) -> (r: Date)
        requires
            MIN_YEAR <= year <= MAX_YEAR,
        ensures
            r.wf(),
            r == (Date { year, month: 12, day: 31 }),
    {
        Date { year, month: 12, day: 31 }
    }

    /// The calendar day after this one.
    pub fn next(self) -> (r: Date)
        requires
            self.wf(),
            !(self.year == MAX_YEAR && self.is_last_of_year()),
        ensures
            r == self.next_spec(),
            r.wf(),
    {
        chrono_succ(self)
    }

    /// The calendar day before this one.
    pub fn prev(self) -> (r: Date)
        requires
            self.wf(),
            !(self.year == MIN_YEAR && self.is_first_of_year()),
        ensures
            r == self.prev_spec(),
            r.wf(),
    {
        chrono_pred(self)
    }
}

fn month_length(year: i32, month: u32) -> (r: u32)
    requires
        1 <= month <= 12,
    ensures
        r == days_in_month(year as int, month as int),
{
    if month == 2 {
        if (year % 4 == 0 && year % 100 != 0) || year % 400 == 0 {
            29
        } else {
            28
        }
    } else if month == 4 || month == 6 || month == 9 || month == 11 {
        30
    } else {
        31
    }
}

/// Relies on chrono's `NaiveDate::succ_opt`, which gives the next calendar day and is `Some`
/// everywhere but on the last representable date.
#[verifier::external_body]
fn chrono_succ(d: Date) -> (r: Date)
    requires
        d.wf(),
        !(d.year == MAX_YEAR && d.is_last_of_year()),
    ensures
        r == d.next_spec(),
{
    let n = chrono::NaiveDate::from_ymd_opt(d.year, d.month, d.day).unwrap().succ_opt().unwrap();
    Date { year: n.year(), month: n.month(), day: n.day() }
}

/// Relies on chrono's `NaiveDate::pred_opt`, which gives the previous calendar day and is `Some`
/// everywhere but on the first representable date.
#[verifier::external_body]
fn chrono_pred(d: Date) -> (r: Date)
    requires
        d.wf(),
        !(d.year == MIN_YEAR && d.is_first_of_year()),
    ensures
        r == d.prev_spec(),
{
    let p = chrono::NaiveDate::from_ymd_opt(d.year, d.month, d.day).unwrap().pred_opt().unwrap();
    Date { year: p.year(), month: p.month(), day: p.day() }
}

/// The day of the week of a date, counted from Monday as 0: the first of January of year 1
/// was a Monday.
pub open spec fn weekday_of(year: int, month: int, day: int) -> nat {
    ((days_from_ce(year, month, day) - 1) % 7) as nat
}

/// Relies on chrono's `Datelike::weekday` with `Weekday::num_days_from_monday`: the day of
/// the week of the date, Monday being 0 and Sunday 6.
#[verifier::external_body]
fn chrono_weekday(d: Date) -> (r: u32)
    requires
        d.wf(),
    ensures
        r == weekday_of(d.year as int, d.month as int, d.day as int),
        r < 7,
{
    chrono::NaiveDate::from_ymd_opt(d.year, d.month, d.day).unwrap().weekday().num_days_from_monday()
}

/// How many days of the year come before the first of `month`.
pub open spec fn days_before_month(year: int, month: int) -> int {
    let leap = if is_leap(year) { 1int } else { 0int };
    if month <= 1 {
        0
    } else if month == 2 {
        31
    } else if month == 3 {
        59 + leap
    } else if month == 4 {
        90 + leap
    } else if month == 5 {
        120 + leap
    } else if month == 6 {
        151 + leap
    } else if month == 7 {
        181 + leap
    } else if month == 8 {
        212 + leap
    } else if month == 9 {
        243 + leap
    } else if month == 10 {
        273 + leap
    } else if month == 11 {
        304 + leap
    } else {
        334 + leap
    }
}

/// The number of the day in the proleptic Gregorian calendar, the first of January of year 1
/// being day 1 (and earlier days zero or negative).
pub open spec fn days_from_ce(year: int, month: int, day: int) -> int {
    let y = year - 1;
    365 * y + y / 4 - y / 100 + y / 400 + days_before_month(year, month) + day
}

/// The day after a date has the next day number, so that the seconds between moments on
/// different days count every day in between.
pub proof fn lemma_next_day_number(d: Date)
    requires
        d.wf(),
        !(d.year == MAX_YEAR && d.is_last_of_year()),
    ensures
        days_from_ce(d.next_spec().year as int, d.next_spec().month as int, d.next_spec().day as int)
            == days_from_ce(d.year as int, d.month as int, d.day as int) + 1,
{
    let y = d.year as int;
    if d.is_last_of_year() {
        let a = y - 1;
        assert(a / 4 == (if y % 4 == 0 { y / 4 - 1 } else { y / 4 })) by (nonlinear_arith)
            requires
                a == y - 1,
        ;
        assert(a / 100 == (if y % 100 == 0 { y / 100 - 1 } else { y / 100 })) by (nonlinear_arith)
            requires
                a == y - 1,
        ;
        assert(a / 400 == (if y % 400 == 0 { y / 400 - 1 } else { y / 400 })) by (nonlinear_arith)
            requires
                a == y - 1,
        ;
    }
}

/// Relies on chrono's `Datelike::num_days_from_ce`: the day's number, the first of January
/// of year 1 being day 1.
#[verifier::external_body]
fn chrono_day_number(d: Date) -> (r: i32)
    requires
        d.wf(),
    ensures
        r == days_from_ce(d.year as int, d.month as int, d.day as int),
{
    chrono::NaiveDate::from_ymd_opt(d.year, d.month, d.day).unwrap().num_days_from_ce()
}

/// The English name of the day of the week numbered from Monday as 0.
pub open spec fn weekday_name(w: nat) -> Seq<char> {
    if w == 0 {
        seq!['M', 'o', 'n', 'd', 'a', 'y']
    } else if w == 1 {
        seq!['T', 'u', 'e', 's', 'd', 'a', 'y']
    } else if w == 2 {
        seq!['W', 'e', 'd', 'n', 'e', 's', 'd', 'a', 'y']
    } else if w == 3 {
        seq!['T', 'h', 'u', 'r', 's', 'd', 'a', 'y']
    } else if w == 4 {
        seq!['F', 'r', 'i', 'd', 'a', 'y']
    } else if w == 5 {
        seq!['S', 'a', 't', 'u', 'r', 'd', 'a', 'y']
    } else {
        seq!['S', 'u', 'n', 'd', 'a', 'y']
    }
}


/// A wall-clock moment: a date and a time of day, to the second.
#[derive(Clone, Copy, Debug, PartialEq, Eq, Structural)]
pub struct Moment {
    pub date: Date,
    pub hour: u32,
    pub minute: u32,
    pub second: u32,
}

impl Moment {
    pub open spec fn wf(self) -> bool {
        &&& self.date.wf()
        &&& self.hour < 24
        &&& self.minute < 60
        &&& self.second < 60
    }

    /// Seconds since the start of the day numbered zero.
    pub open spec fn instant(self) -> int {
        days_from_ce(self.date.year as int, self.date.month as int, self.date.day as int) * 86400
            + self.hour * 3600 + self.minute * 60 + self.second
    }

    /// Seconds since the start of the day numbered zero.
    pub fn seconds(self) -> (r: i64)
        requires
            self.wf(),
        ensures
            r == self.instant(),
            -0x1_0000_0000_0000 <= r <= 0x1_0000_0000_0000,
    {
        let days = chrono_day_number(self.date) as i64;
        days * 86400 + (self.hour as i64) * 3600 + (self.minute as i64) * 60 + self.second as i64
    }
}

/// The hour on a twelve-hour clock: 12 for midnight and noon.
pub open spec fn hour12(hour: nat) -> nat {
    if hour % 12 == 0 { 12 } else { hour % 12 }
}

/// `HH:MM am` or `HH:MM pm`, both fields padded to two digits.
pub open spec fn timestamp_text(hour: nat, minute: nat) -> Seq<char> {
    two_digits(hour12(hour)) + seq![':'] + two_digits(minute) + seq![' '] + (if hour >= 12 {
        seq!['p', 'm']
    } else {
        seq!['a', 'm']
    })
}

/// The year as written in text: a minus sign before the digits of a negative year.
pub open spec fn year_text(year: int) -> Seq<char> {
    if year < 0 { seq!['-'] + decimal((-year) as nat) } else { decimal(year as nat) }
}

/// `Y/M/D`, month and day without padding.
pub open spec fn datestamp_text(d: Date) -> Seq<char> {
    year_text(d.year as int) + seq!['/'] + decimal(d.month as nat) + seq!['/'] + decimal(
        d.day as nat,
    )
}

/// `Y/MM/DD`, month and day padded to two digits.
pub open spec fn padded_datestamp_text(d: Date) -> Seq<char> {
    year_text(d.year as int) + seq!['/'] + two_digits(d.month as nat) + seq!['/'] + two_digits(
        d.day as nat,
    )
}

/// Appends `HH:MM` followed by ` am` or ` pm` for the given time of day.
pub fn push_timestamp(out: &mut Vec<char>, hour: u32, minute: u32)
    requires
        hour < 24,
    ensures
        final(out)@ == old(out)@ + timestamp_text(hour as nat, minute as nat),
{
    let h12: u32 = if hour % 12 == 0 { 12 } else { hour % 12 };
    if h12 < 10 {
        out.push('0');
    }
    push_decimal(out, h12 as u64);
    out.push(':');
    if minute < 10 {
        out.push('0');
    }
    push_decimal(out, minute as u64);
    out.push(' ');
    if hour >= 12 {
        out.push('p');
    } else {
        out.push('a');
    }
    out.push('m');
    assert(final(out)@ =~= old(out)@ + timestamp_text(hour as nat, minute as nat));
}

/// The time of day of `time` as `HH:MM am|pm`.
pub fn timestamp(time: Moment) -> (r: String)
    requires
        time.hour < 24,
    ensures
        r@ == timestamp_text(time.hour as nat, time.minute as nat),
{
    let mut out: Vec<char> = Vec::new();
    push_timestamp(&mut out, time.hour, time.minute);
    string_of(&out)
}

/// Appends the year's numeral.
pub fn push_year(out: &mut Vec<char>, year: i32)
    ensures
        final(out)@ == old(out)@ + year_text(year as int),
{
    if year < 0 {
        out.push('-');
        let magnitude: u64 = (0 - (year as i64)) as u64;
        push_decimal(out, magnitude);
        assert(final(out)@ =~= old(out)@ + year_text(year as int));
    } else {
        push_decimal(out, year as u64);
    }
}

/// Appends `Y/M/D`.
pub fn push_datestamp(out: &mut Vec<char>, d: Date)
    ensures
        final(out)@ == old(out)@ + datestamp_text(d),
{
    push_year(out, d.year);
    out.push('/');
    push_decimal(out, d.month as u64);
    out.push('/');
    push_decimal(out, d.day as u64);
    assert(final(out)@ =~= old(out)@ + datestamp_text(d));
}

/// The date as `Y/M/D`, month and day without padding.
pub fn datestamp(d: Date) -> (r: String)
    ensures
        r@ == datestamp_text(d),
{
    let mut out: Vec<char> = Vec::new();
    push_datestamp(&mut out, d);
    string_of(&out)
}

/// Appends `Y/MM/DD`.
pub fn push_padded_datestamp(out: &mut Vec<char>, d: Date)
    ensures
        final(out)@ == old(out)@ + padded_datestamp_text(d),
{
    push_year(out, d.year);
    out.push('/');
    if d.month < 10 {
        out.push('0');
    }
    push_decimal(out, d.month as u64);
    out.push('/');
    if d.day < 10 {
        out.push('0');
    }
    push_decimal(out, d.day as u64);
    assert(final(out)@ =~= old(out)@ + padded_datestamp_text(d));
}

/// Appends the English name of the date's day of the week.
pub fn push_weekday_name(out: &mut Vec<char>, d: Date)
    requires
        d.wf(),
    ensures
        final(out)@ == old(out)@ + weekday_name(weekday_of(d.year as int, d.month as int, d.day as int)),
{
    let w = chrono_weekday(d);
    let name: &str = if w == 0 {
        "Monday"
    } else if w == 1 {
        "Tuesday"
    } else if w == 2 {
        "Wednesday"
    } else if w == 3 {
        "Thursday"
    } else if w == 4 {
        "Friday"
    } else if w == 5 {
        "Saturday"
    } else {
        "Sunday"
    };
    proof {
        reveal_strlit("Monday");
        reveal_strlit("Tuesday");
        reveal_strlit("Wednesday");
        reveal_strlit("Thursday");
        reveal_strlit("Friday");
        reveal_strlit("Saturday");
        reveal_strlit("Sunday");
    }
    let v = crate::chars::chars_of(name);
    assert(v@ =~= weekday_name(w as nat));
    crate::chars::append_chars(out, &v);
}

} // verus!
