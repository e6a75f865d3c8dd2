//! Calendar timestamps: the second-precision date-and-time values a session
//! records, their fixed `DD-MM-YYYY` / `HH:MM:SS` text forms, and the
//! calendar arithmetic (backed by chrono) used to shift a session in time.

use vstd::prelude::*;
use chrono::{Datelike, Timelike};

verus! {

/// A calendar date and time of day, second precision, proleptic Gregorian,
/// years 1 through 9999.
#[derive(Clone, Copy, PartialEq, Eq, Structural, Debug)]
pub struct Timestamp {
    pub year: u32,
    pub month: u32,
    pub day: u32,
    pub hour: u32,
    pub minute: u32,
    pub second: u32,
}

pub open spec fn is_leap_year_spec(y: int) -> bool {
    y % 4 == 0 && (y % 100 != 0 || y % 400 == 0)
}

pub open spec fn days_in_month_spec(y: int, m: int) -> int {
    if m == 2 {
        if is_leap_year_spec(y) {
            29
        } else {
            28
        }
    } else if m == 4 || m == 6 || m == 9 || m == 11 {
        30
    } else {
        31
    }
}

pub fn days_in_month(y: u32, m: u32) -> (r: u32)
    ensures
        r as int == days_in_month_spec(y as int, m as int),
{
    if m == 2 {
        if y % 4 == 0 && (y % 100 != 0 || y % 400 == 0) {
            29
        } else {
            28
        }
    } else if m == 4 || m == 6 || m == 9 || m == 11 {
        30
    } else {
        31
    }
}

/// The day number of a calendar date, with January 1 of year 1 as day 1.
/// What it is on given values only chrono computes; the contracts of
/// `date_to_days` and `days_to_date` are the only facts assumed of it.
pub uninterp spec fn day_number(year: int, month: int, day: int) -> int;

impl Timestamp {
    /// A valid calendar date with a valid time of day, year 1 through 9999.
    pub open spec fn wf(&self) -> bool {
        &&& 1 <= self.year <= 9999
        &&& 1 <= self.month <= 12
        &&& 1 <= self.day
        &&& self.day as int <= days_in_month_spec(self.year as int, self.month as int)
        &&& self.hour < 24
        &&& self.minute < 60
        &&& self.second < 60
    }

    /// The timestamp on a linear scale: seconds elapsed at this instant,
    /// counted from the scale's origin one day before January 1 of year 1.
    pub open spec fn linear(&self) -> int {
        day_number(self.year as int, self.month as int, self.day as int) * 86400
            + self.hour * 3600 + self.minute * 60 + self.second
    }

    /// Whether the given fields form a well-formed timestamp.
    pub fn valid(year: u32, month: u32, day: u32, hour: u32, minute: u32, second: u32) -> (r:
        bool)
        ensures
            r == (Timestamp { year, month, day, hour, minute, second }).wf(),
    {
        1 <= year && year <= 9999 && 1 <= month && month <= 12 && 1 <= day && day
            <= days_in_month(year, month) && hour < 24 && minute < 60 && second < 60
    }
}


/// The `linear()` value of the first representable instant, the start of
/// January 1 of year 1: day number 1.
pub open spec fn min_linear() -> int {
    86400
}

/// The `linear()` value of the last representable instant, the end of
/// December 31 of year 9999: years 1 through 9999 hold exactly 3,652,059
/// days (9999 years of 365 days plus 2,424 leap days).
pub open spec fn max_linear() -> int {
    (3_652_059 * 86400 + 86399) as int
}

/// Relies on chrono's `NaiveDate::from_ymd_opt` and
/// `Datelike::num_days_from_ce`: the day number of the given calendar date in
/// the proleptic Gregorian calendar, with January 1 of year 1 as day 1. The
/// bounds restate that count for years 1 through 9999: from 1 (January 1 of
/// year 1) to 3,652,059 (December 31 of year 9999).
#[verifier::external_body]
fn date_to_days(year: u32, month: u32, day: u32) -> (r: i32)
    requires
        1 <= year <= 9999,
        1 <= month <= 12,
        1 <= day,
        day as int <= days_in_month_spec(year as int, month as int),
    ensures
        r as int == day_number(year as int, month as int, day as int),
        1 <= r <= 3_652_059,
{
    chrono::NaiveDate::from_ymd_opt(year as i32, month, day).unwrap().num_days_from_ce()
}

/// Relies on chrono's `NaiveDate::from_num_days_from_ce_opt`, the inverse of
/// `Datelike::num_days_from_ce`: the valid proleptic Gregorian calendar date
/// with the given day number, or `None` when the number lies outside chrono's
/// supported range. Day 1 is January 1 of year 1 and chrono's range reaches
/// far past year 9999, so every day number from 1 through 3,652,059 (the days
/// of years 1 through 9999) yields a date in those years.
#[verifier::external_body]
fn days_to_date(days: i32) -> (r: Option<(i32, u32, u32)>)
    ensures
        r matches Some(p) ==> {
            &&& 1 <= p.1 <= 12
            &&& 1 <= p.2
            &&& p.2 as int <= days_in_month_spec(p.0 as int, p.1 as int)
            &&& day_number(p.0 as int, p.1 as int, p.2 as int) == days as int
        },
        r is None ==> !(1 <= days <= 3_652_059),
        r matches Some(p) ==> (1 <= days <= 3_652_059 ==> 1 <= p.0 <= 9999),
{
    match chrono::NaiveDate::from_num_days_from_ce_opt(days) {
        Some(d) => Some((d.year(), d.month(), d.day())),
        None => None,
    }
}

/// Relies on chrono's `Local::now` with the `Datelike` and `Timelike`
/// getters: the clock's current local calendar date and time. Only the
/// documented ranges of the getters are assumed; the clock's value itself is
/// arbitrary.
#[verifier::external_body]
fn now_parts() -> (r: (i32, u32, u32, u32, u32, u32))
    ensures
        1 <= r.1 <= 12,
        1 <= r.2,
        r.2 as int <= days_in_month_spec(r.0 as int, r.1 as int),
        r.3 < 24,
        r.4 < 60,
        r.5 < 60,
{
    let now = chrono::Local::now().naive_local();
    (now.year(), now.month(), now.day(), now.hour(), now.minute(), now.second())
}

/// The timestamp made of raw clock parts — a signed year and calendar
/// components — exactly when they form a well-formed timestamp in years 1
/// through 9999; `None` otherwise.
pub fn timestamp_from_parts(
    year: i32,
    month: u32,
    day: u32,
    hour: u32,
    minute: u32,
    second: u32,
) -> (r: Option<Timestamp>)
    ensures
        r is Some <==> 1 <= year <= 9999 && (Timestamp {
            year: year as u32,
            month,
            day,
            hour,
            minute,
            second,
        }).wf(),
        r matches Some(t) ==> t == (Timestamp {
            year: year as u32,
            month,
            day,
            hour,
            minute,
            second,
        }),
{
    if 1 <= year && year <= 9999 && Timestamp::valid(year as u32, month, day, hour, minute, second)
    {
        Some(Timestamp { year: year as u32, month, day, hour, minute, second })
    } else {
        None
    }
}

/// The current local time, or `None` when the clock's year falls outside the
/// representable range of 1 through 9999.
pub fn current_time() -> (r: Option<Timestamp>)
    ensures
        r matches Some(t) ==> t.wf(),
{
    let (year, month, day, hour, minute, second) = now_parts();
    timestamp_from_parts(year, month, day, hour, minute, second)
}

/// Seconds from `b` to `a` on the linear scale.
pub fn diff_seconds(a: &Timestamp, b: &Timestamp) -> (r: i64)
    requires
        a.wf(),
        b.wf(),
    ensures
        r as int == a.linear() - b.linear(),
        -320_000_000_000 <= r <= 320_000_000_000,
{
    let da = date_to_days(a.year, a.month, a.day) as i64;
    let db = date_to_days(b.year, b.month, b.day) as i64;
    let ta = (a.hour * 3600 + a.minute * 60 + a.second) as i64;
    let tb = (b.hour * 3600 + b.minute * 60 + b.second) as i64;
    (da - db) * 86400 + (ta - tb)
}

/// `t` moved by `delta` seconds: exactly when the moved instant still lies
/// in the representable years 1 through 9999, it is returned; outside that
/// band the move fails.
pub fn shift_seconds(t: &Timestamp, delta: i64) -> (r: Option<Timestamp>)
    requires
        t.wf(),
        -400_000_000_000 <= delta <= 400_000_000_000,
    ensures
        r is Some <==> min_linear() <= t.linear() + delta <= max_linear(),
        r matches Some(u) ==> u.wf() && u.linear() == t.linear() + delta,
{
    let days = date_to_days(t.year, t.month, t.day) as i64;
    let tod = (t.hour * 3600 + t.minute * 60 + t.second) as i64;
    let total = days * 86400 + tod + delta;
    if total < 0 {
        return None;
    }
    let totalu = total as u64;
    let new_days = totalu / 86400;
    let new_tod = totalu % 86400;
    assert(new_days * 86400 + new_tod == totalu) by {
        vstd::arithmetic::div_mod::lemma_fundamental_div_mod(totalu as int, 86400);
    }
    if new_days < 1 || new_days > 3_652_059 {
        return None;
    }
    match days_to_date(new_days as i32) {
        None => None,
        Some((year, month, day)) => {
            if year < 1 || year > 9999 {
                None
            } else {
                let hour = (new_tod / 3600) as u32;
                let rem = (new_tod % 3600) as u32;
                let minute = rem / 60;
                let second = rem % 60;
                assert(hour * 3600 + rem == new_tod) by {
                    vstd::arithmetic::div_mod::lemma_fundamental_div_mod(new_tod as int, 3600);
                }
                assert(minute * 60 + second == rem) by {
                    vstd::arithmetic::div_mod::lemma_fundamental_div_mod(rem as int, 60);
                }
                let u = Timestamp {
                    year: year as u32,
                    month,
                    day,
                    hour,
                    minute,
                    second,
                };
                assert(u.linear() == t.linear() + delta);
                Some(u)
            }
        },
    }
}

pub open spec fn digit_char(d: int) -> char {
    if d == 0 {
        '0'
    } else if d == 1 {
        '1'
    } else if d == 2 {
        '2'
    } else if d == 3 {
        '3'
    } else if d == 4 {
        '4'
    } else if d == 5 {
        '5'
    } else if d == 6 {
        '6'
    } else if d == 7 {
        '7'
    } else if d == 8 {
        '8'
    } else {
        '9'
    }
}

pub open spec fn is_digit_char(c: char) -> bool {
    c == '0' || c == '1' || c == '2' || c == '3' || c == '4' || c == '5' || c == '6' || c == '7'
        || c == '8' || c == '9'
}

pub open spec fn digit_val(c: char) -> int {
    if c == '0' {
        0
    } else if c == '1' {
        1
    } else if c == '2' {
        2
    } else if c == '3' {
        3
    } else if c == '4' {
        4
    } else if c == '5' {
        5
    } else if c == '6' {
        6
    } else if c == '7' {
        7
    } else if c == '8' {
        8
    } else {
        9
    }
}

/// `n` in decimal, padded to two digits.
pub open spec fn two_digit_chars(n: int) -> Seq<char> {
    seq![digit_char(n / 10), digit_char(n % 10)]
}

/// `n` in decimal, padded to four digits.
pub open spec fn four_digit_chars(n: int) -> Seq<char> {
    seq![digit_char(n / 1000), digit_char((n / 100) % 10), digit_char((n / 10) % 10), digit_char(
        n % 10,
    )]
}

/// `n` in decimal, no padding.
pub open spec fn dec_chars(n: int) -> Seq<char>
    decreases n,
{
    if n < 10 {
        seq![digit_char(n)]
    } else {
        dec_chars(n / 10) + seq![digit_char(n % 10)]
    }
}

fn digit_to_char(d: u32) -> (r: char)
    requires
        d < 10,
    ensures
        r == digit_char(d as int),
{
    if d == 0 {
        '0'
    } else if d == 1 {
        '1'
    } else if d == 2 {
        '2'
    } else if d == 3 {
        '3'
    } else if d == 4 {
        '4'
    } else if d == 5 {
        '5'
    } else if d == 6 {
        '6'
    } else if d == 7 {
        '7'
    } else if d == 8 {
        '8'
    } else {
        '9'
    }
}

fn char_digit(c: char) -> (r: Option<u32>)
    ensures
        r is Some <==> is_digit_char(c),
        r matches Some(d) ==> d as int == digit_val(c) && d < 10,
{
    if c == '0' {
        Some(0)
    } else if c == '1' {
        Some(1)
    } else if c == '2' {
        Some(2)
    } else if c == '3' {
        Some(3)
    } else if c == '4' {
        Some(4)
    } else if c == '5' {
        Some(5)
    } else if c == '6' {
        Some(6)
    } else if c == '7' {
        Some(7)
    } else if c == '8' {
        Some(8)
    } else if c == '9' {
        Some(9)
    } else {
        None
    }
}

pub fn push_two_digits(v: &mut Vec<char>, n: u32)
    requires
        n < 100,
    ensures
        final(v)@ == old(v)@ + two_digit_chars(n as int),
{
    v.push(digit_to_char(n / 10));
    v.push(digit_to_char(n % 10));
    assert(v@ =~= old(v)@ + two_digit_chars(n as int));
}

pub fn push_four_digits(v: &mut Vec<char>, n: u32)
    requires
        n < 10000,
    ensures
        final(v)@ == old(v)@ + four_digit_chars(n as int),
{
    v.push(digit_to_char(n / 1000));
    v.push(digit_to_char((n / 100) % 10));
    v.push(digit_to_char((n / 10) % 10));
    v.push(digit_to_char(n % 10));
    assert(v@ =~= old(v)@ + four_digit_chars(n as int));
}

/// `n` in decimal appended to `v`.
pub fn push_dec(v: &mut Vec<char>, n: u64)
    ensures
        final(v)@ == old(v)@ + dec_chars(n as int),
    decreases n,
{
    if n < 10 {
        v.push(digit_to_char(n as u32));
        assert(v@ =~= old(v)@ + dec_chars(n as int));
    } else {
        push_dec(v, n / 10);
        v.push(digit_to_char((n % 10) as u32));
        assert(v@ =~= old(v)@ + dec_chars(n as int));
    }
}

pub open spec fn parse2_spec(s: Seq<char>) -> Option<int> {
    if s.len() == 2 && is_digit_char(s[0]) && is_digit_char(s[1]) {
        Some(10 * digit_val(s[0]) + digit_val(s[1]))
    } else {
        None
    }
}

pub open spec fn parse4_spec(s: Seq<char>) -> Option<int> {
    if s.len() == 4 && is_digit_char(s[0]) && is_digit_char(s[1]) && is_digit_char(s[2])
        && is_digit_char(s[3]) {
        Some(1000 * digit_val(s[0]) + 100 * digit_val(s[1]) + 10 * digit_val(s[2]) + digit_val(
            s[3],
        ))
    } else {
        None
    }
}

/// The date component, day first: `DD-MM-YYYY`.
pub open spec fn date_chars_spec(t: Timestamp) -> Seq<char> {
    two_digit_chars(t.day as int) + seq!['-'] + two_digit_chars(t.month as int) + seq!['-']
        + four_digit_chars(t.year as int)
}

/// The time-of-day component: `HH:MM:SS`.
pub open spec fn time_chars_spec(t: Timestamp) -> Seq<char> {
    two_digit_chars(t.hour as int) + seq![':'] + two_digit_chars(t.minute as int) + seq![':']
        + two_digit_chars(t.second as int)
}

/// A parsed `DD-MM-YYYY` date: `(year, month, day)` of a valid calendar day,
/// or `None` when the text does not denote one.
pub open spec fn parse_date_spec(s: Seq<char>) -> Option<(int, int, int)> {
    if s.len() == 10 && s[2] == '-' && s[5] == '-' {
        match (parse2_spec(s.subrange(0, 2)), parse2_spec(s.subrange(3, 5)), parse4_spec(
            s.subrange(6, 10),
        )) {
            (Some(d), Some(m), Some(y)) => if 1 <= y && 1 <= m <= 12 && 1 <= d && d
                <= days_in_month_spec(y, m) {
                Some((y, m, d))
            } else {
                None
            },
            _ => None,
        }
    } else {
        None
    }
}

/// A parsed `HH:MM:SS` time of day: `(hour, minute, second)` in range, or
/// `None` when the text does not denote one.
pub open spec fn parse_time_spec(s: Seq<char>) -> Option<(int, int, int)> {
    if s.len() == 8 && s[2] == ':' && s[5] == ':' {
        match (parse2_spec(s.subrange(0, 2)), parse2_spec(s.subrange(3, 5)), parse2_spec(
            s.subrange(6, 8),
        )) {
            (Some(h), Some(m), Some(sec)) => if h < 24 && m < 60 && sec < 60 {
                Some((h, m, sec))
            } else {
                None
            },
            _ => None,
        }
    } else {
        None
    }
}

/// A timestamp assembled from a date text and a time-of-day text.
pub open spec fn parse_ts_spec(date: Seq<char>, time: Seq<char>) -> Option<Timestamp> {
    match (parse_date_spec(date), parse_time_spec(time)) {
        (Some(ymd), Some(hms)) => Some(
            Timestamp {
                year: ymd.0 as u32,
                month: ymd.1 as u32,
                day: ymd.2 as u32,
                hour: hms.0 as u32,
                minute: hms.1 as u32,
                second: hms.2 as u32,
            },
        ),
        _ => None,
    }
}

impl Timestamp {
    /// This timestamp's date component as `DD-MM-YYYY`.
    pub fn date_chars(&self) -> (r: Vec<char>)
        requires
            self.wf(),
        ensures
            r@ == date_chars_spec(*self),
    {
        let mut v: Vec<char> = Vec::new();
        push_two_digits(&mut v, self.day);
        v.push('-');
        push_two_digits(&mut v, self.month);
        v.push('-');
        push_four_digits(&mut v, self.year);
        assert(v@ =~= date_chars_spec(*self));
        v
    }

    /// This timestamp's time-of-day component as `HH:MM:SS`.
    pub fn time_chars(&self) -> (r: Vec<char>)
        requires
            self.wf(),
        ensures
            r@ == time_chars_spec(*self),
    {
        let mut v: Vec<char> = Vec::new();
        push_two_digits(&mut v, self.hour);
        v.push(':');
        push_two_digits(&mut v, self.minute);
        v.push(':');
        push_two_digits(&mut v, self.second);
        assert(v@ =~= time_chars_spec(*self));
        v
    }
}

fn parse_two(v: &Vec<char>, start: usize) -> (r: Option<u32>)
    requires
        start + 2 <= v@.len(),
    ensures
        r is Some <==> parse2_spec(v@.subrange(start as int, start + 2)) is Some,
        r matches Some(n) ==> Some(n as int) == parse2_spec(v@.subrange(start as int, start + 2))
            && n < 100,
{
    let n = v.len();
    let ghost piece = v@.subrange(start as int, start + 2);
    assert(piece.len() == 2 && piece[0] == v@[start as int] && piece[1] == v@[start + 1]);
    match (char_digit(v[start]), char_digit(v[start + 1])) {
        (Some(a), Some(b)) => Some(10 * a + b),
        _ => None,
    }
}

fn parse_four(v: &Vec<char>, start: usize) -> (r: Option<u32>)
    requires
        start + 4 <= v@.len(),
    ensures
        r is Some <==> parse4_spec(v@.subrange(start as int, start + 4)) is Some,
        r matches Some(n) ==> Some(n as int) == parse4_spec(v@.subrange(start as int, start + 4))
            && n < 10000,
{
    let n = v.len();
    let ghost piece = v@.subrange(start as int, start + 4);
    assert(piece.len() == 4 && piece[0] == v@[start as int] && piece[1] == v@[start + 1]
        && piece[2] == v@[start + 2] && piece[3] == v@[start + 3]);
    match (char_digit(v[start]), char_digit(v[start + 1]), char_digit(v[start + 2]), char_digit(
        v[start + 3],
    )) {
        (Some(a), Some(b), Some(c), Some(d)) => Some(1000 * a + 100 * b + 10 * c + d),
        _ => None,
    }
}

/// The timestamp a date text and a time-of-day text denote, or `None` when
/// either is malformed or out of range.
pub fn parse_timestamp(date: &Vec<char>, time: &Vec<char>) -> (r: Option<Timestamp>)
    ensures
        r == parse_ts_spec(date@, time@),
{
    if date.len() != 10 || time.len() != 8 {
        return None;
    }
    if date[2] != '-' || date[5] != '-' {
        return None;
    }
    if time[2] != ':' || time[5] != ':' {
        return None;
    }
    let day = parse_two(date, 0);
    let month = parse_two(date, 3);
    let year = parse_four(date, 6);
    let hour = parse_two(time, 0);
    let minute = parse_two(time, 3);
    let second = parse_two(time, 6);
    match (day, month, year, hour, minute, second) {
        (Some(d), Some(mo), Some(y), Some(h), Some(mi), Some(s)) => {
            if 1 <= y && 1 <= mo && mo <= 12 && 1 <= d && d <= days_in_month(y, mo) && h < 24 && mi
                < 60 && s < 60 {
                Some(Timestamp { year: y, month: mo, day: d, hour: h, minute: mi, second: s })
            } else {
                None
            }
        },
        _ => None,
    }
}

/// Parsing a formatted two-digit number gives the number back.
pub proof fn lemma_two_digit_roundtrip(n: int)
    requires
        0 <= n < 100,
    ensures
        parse2_spec(two_digit_chars(n)) == Some(n),
{
}

/// Parsing a formatted four-digit number gives the number back.
pub proof fn lemma_four_digit_roundtrip(n: int)
    requires
        0 <= n < 10000,
    ensures
        parse4_spec(four_digit_chars(n)) == Some(n),
{
    let q1 = n / 10;
    let r1 = n % 10;
    let q2 = q1 / 10;
    let r2 = q1 % 10;
    let q3 = q2 / 10;
    let r3 = q2 % 10;
    vstd::arithmetic::div_mod::lemma_fundamental_div_mod(n, 10);
    vstd::arithmetic::div_mod::lemma_fundamental_div_mod(q1, 10);
    vstd::arithmetic::div_mod::lemma_fundamental_div_mod(q2, 10);
    vstd::arithmetic::div_mod::lemma_div_denominator(n, 10, 10);
    vstd::arithmetic::div_mod::lemma_div_denominator(n, 100, 10);
    assert(q2 == n / 100);
    assert(q3 == n / 1000);
    assert(n == 1000 * q3 + 100 * r3 + 10 * r2 + r1);
}

/// Parsing a formatted date and time gives back the timestamp they came
/// from: the date component of `d`, the time component of `t`.
pub proof fn lemma_ts_roundtrip(d: Timestamp, t: Timestamp)
    requires
        d.wf(),
        t.wf(),
    ensures
        parse_ts_spec(date_chars_spec(d), time_chars_spec(t)) == Some(
            Timestamp {
                year: d.year,
                month: d.month,
                day: d.day,
                hour: t.hour,
                minute: t.minute,
                second: t.second,
            },
        ),
{
    let ds = date_chars_spec(d);
    let ts = time_chars_spec(t);
    assert(ds.subrange(0, 2) =~= two_digit_chars(d.day as int));
    assert(ds.subrange(3, 5) =~= two_digit_chars(d.month as int));
    assert(ds.subrange(6, 10) =~= four_digit_chars(d.year as int));
    lemma_two_digit_roundtrip(d.day as int);
    lemma_two_digit_roundtrip(d.month as int);
    lemma_four_digit_roundtrip(d.year as int);
    assert(ts.subrange(0, 2) =~= two_digit_chars(t.hour as int));
    assert(ts.subrange(3, 5) =~= two_digit_chars(t.minute as int));
    assert(ts.subrange(6, 8) =~= two_digit_chars(t.second as int));
    lemma_two_digit_roundtrip(t.hour as int);
    lemma_two_digit_roundtrip(t.minute as int);
    lemma_two_digit_roundtrip(t.second as int);
}

/// Every character of a formatted date or time is a digit, `-`, or `:`.
pub proof fn lemma_ts_chars_plain(t: Timestamp)
    ensures
        forall|i: int|
            0 <= i < date_chars_spec(t).len() ==> is_digit_char(#[trigger] date_chars_spec(t)[i])
                || date_chars_spec(t)[i] == '-',
        forall|i: int|
            0 <= i < time_chars_spec(t).len() ==> is_digit_char(#[trigger] time_chars_spec(t)[i])
                || time_chars_spec(t)[i] == ':',
{
}

/// The three-letter month name used in the on-screen date.
pub open spec fn month_abbrev_chars(m: int) -> Seq<char> {
    if m == 1 {
        seq!['J', 'a', 'n']
    } else if m == 2 {
        seq!['F', 'e', 'b']
    } else if m == 3 {
        seq!['M', 'a', 'r']
    } else if m == 4 {
        seq!['A', 'p', 'r']
    } else if m == 5 {
        seq!['M', 'a', 'y']
    } else if m == 6 {
        seq!['J', 'u', 'n']
    } else if m == 7 {
        seq!['J', 'u', 'l']
    } else if m == 8 {
        seq!['A', 'u', 'g']
    } else if m == 9 {
        seq!['S', 'e', 'p']
    } else if m == 10 {
        seq!['O', 'c', 't']
    } else if m == 11 {
        seq!['N', 'o', 'v']
    } else {
        seq!['D', 'e', 'c']
    }
}

/// The on-screen date: day, abbreviated month name, two-digit year.
pub open spec fn display_date_chars_spec(t: Timestamp) -> Seq<char> {
    two_digit_chars(t.day as int) + seq![' '] + month_abbrev_chars(t.month as int) + seq![' ']
        + two_digit_chars((t.year as int) % 100)
}

fn push_month_abbrev(v: &mut Vec<char>, m: u32)
    requires
        1 <= m <= 12,
    ensures
        final(v)@ == old(v)@ + month_abbrev_chars(m as int),
{
    let (a, b, c): (char, char, char) = if m == 1 {
        ('J', 'a', 'n')
    } else if m == 2 {
        ('F', 'e', 'b')
    } else if m == 3 {
        ('M', 'a', 'r')
    } else if m == 4 {
        ('A', 'p', 'r')
    } else if m == 5 {
        ('M', 'a', 'y')
    } else if m == 6 {
        ('J', 'u', 'n')
    } else if m == 7 {
        ('J', 'u', 'l')
    } else if m == 8 {
        ('A', 'u', 'g')
    } else if m == 9 {
        ('S', 'e', 'p')
    } else if m == 10 {
        ('O', 'c', 't')
    } else if m == 11 {
        ('N', 'o', 'v')
    } else {
        ('D', 'e', 'c')
    };
    v.push(a);
    v.push(b);
    v.push(c);
    assert(v@ =~= old(v)@ + month_abbrev_chars(m as int));
}

impl Timestamp {
    /// This timestamp's date as shown in the session list:
    /// day, abbreviated month name, two-digit year.
    pub fn display_date_chars(&self) -> (r: Vec<char>)
        requires
            self.wf(),
        ensures
            r@ == display_date_chars_spec(*self),
    {
        let mut v: Vec<char> = Vec::new();
        push_two_digits(&mut v, self.day);
        v.push(' ');
        push_month_abbrev(&mut v, self.month);
        v.push(' ');
        push_two_digits(&mut v, self.year % 100);
        assert(v@ =~= display_date_chars_spec(*self));
        v
    }
}

/// Elapsed time shown as `HH:MM:SS`: hours widened past two digits when
/// needed, a leading minus sign when the span is negative.
pub open spec fn duration_chars_spec(d: int) -> Seq<char> {
    if d < 0 {
        seq!['-'] + nonneg_duration_chars(-d)
    } else {
        nonneg_duration_chars(d)
    }
}

pub open spec fn nonneg_duration_chars(d: int) -> Seq<char> {
    let hours = d / 3600;
    let minutes = (d % 3600) / 60;
    let seconds = d % 60;
    (if hours < 100 {
        two_digit_chars(hours)
    } else {
        dec_chars(hours)
    }) + seq![':'] + two_digit_chars(minutes) + seq![':'] + two_digit_chars(seconds)
}

/// The elapsed-time text for a span of `d` seconds.
pub fn duration_chars(d: i64) -> (r: Vec<char>)
    ensures
        r@ == duration_chars_spec(d as int),
{
    let mut v: Vec<char> = Vec::new();
    let du: u64 = if d >= 0 {
        d as u64
    } else {
        v.push('-');
        (-(d + 1)) as u64 + 1
    };
    let hours = du / 3600;
    let minutes = (du % 3600) / 60;
    let seconds = du % 60;
    proof {
        vstd::arithmetic::div_mod::lemma_mod_bound(du as int, 3600);
        vstd::arithmetic::div_mod::lemma_mod_bound(du as int, 60);
        assert((du as int) % 3600 / 60 < 60);
        assert(minutes == (du as int) % 3600 / 60);
        assert(seconds == (du as int) % 60);
    }
    if hours < 100 {
        push_two_digits(&mut v, hours as u32);
    } else {
        push_dec(&mut v, hours);
    }
    v.push(':');
    push_two_digits(&mut v, minutes as u32);
    v.push(':');
    push_two_digits(&mut v, seconds as u32);
    assert(v@ =~= duration_chars_spec(d as int));
    v
}

} // verus!
