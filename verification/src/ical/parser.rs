//! The date-time and duration texts of iCalendar values.
use vstd::prelude::*;

use crate::dav::caltypes::{UtcTime, FLOATING_DATETIME_FMT, UTC_DATETIME_FMT};
use crate::text::chars_of;

verus! {

/// The time `chrono` reads from a text in a `strftime`-style format
/// (`NaiveDateTime::parse_from_str`, taken as UTC), if the text fits it.
pub uninterp spec fn naive_datetime_parse(s: Seq<char>, fmt: Seq<char>) -> Option<UtcTime>;

/// `chrono::NaiveDateTime::parse_from_str` followed by `and_utc`, given as
/// seconds and nanoseconds since the UNIX epoch; nothing when the text does
/// not fit the format. The result is named, not described.
#[verifier::external_body]
pub(crate) fn parse_naive_utc(s: &str, fmt: &str) -> (r: Option<UtcTime>)
    ensures
        r == naive_datetime_parse(s@, fmt@),
{
    match chrono::NaiveDateTime::parse_from_str(s, fmt) {
        Ok(v) => {
            let u = v.and_utc();
            Some(UtcTime { secs: u.timestamp(), nanos: u.timestamp_subsec_nanos() })
        },
        Err(_) => None,
    }
}

/// The time an iCalendar date-time text stands for: a text ending in `Z`
/// is read as UTC, any other as a floating time taken as UTC; an empty text
/// stands for nothing.
pub open spec fn date_time_of(dt: Seq<char>) -> Option<UtcTime> {
    if dt.len() == 0 {
        None
    } else if dt.last() == 'Z' {
        naive_datetime_parse(dt, UTC_DATETIME_FMT@)
    } else {
        naive_datetime_parse(dt, FLOATING_DATETIME_FMT@)
    }
}

/// Reads an iCalendar date-time: UTC when the text ends in `Z`, floating
/// (taken as UTC) otherwise.
pub fn date_time(dt: &str) -> (r: Option<UtcTime>)
    ensures
        r == date_time_of(dt@),
{
    let cs = chars_of(dt);
    let n = cs.len();
    if n == 0 {
        return None;
    }
    if cs[n - 1] == 'Z' {
        parse_naive_utc(dt, UTC_DATETIME_FMT)
    } else {
        parse_naive_utc(dt, FLOATING_DATETIME_FMT)
    }
}

/// A duration of whole seconds, in the range of `chrono::TimeDelta`: at
/// most `i64::MAX` milliseconds either way.
#[derive(Debug, PartialEq, Clone, Copy)]
pub struct TimeDelta {
    pub secs: i64,
}

/// The largest number of whole seconds a duration can hold.
pub const MAX_DELTA_SECS: i64 = 9223372036854775;

/// Whether a number of seconds is a duration.
pub open spec fn delta_ok(s: int) -> bool {
    -MAX_DELTA_SECS <= s <= MAX_DELTA_SECS
}

/// A duration of `n` units of `unit` seconds, if it fits.
pub open spec fn delta_of(n: int, unit: int) -> Option<int> {
    if i64::MIN <= n * unit <= i64::MAX && delta_ok(n * unit) {
        Some(n * unit)
    } else {
        None
    }
}

/// How a piece of a duration text reads from a position: `None` when
/// reading it overflows a sum of durations, `Some(None)` when it does not
/// fit, `Some(Some((end, secs)))` when it reads up to `end` as `secs`.
pub type Outcome = Option<Option<(int, int)>>;

/// Whether `c` is the character `up` in either case.
pub open spec fn is_letter(c: char, up: char) -> bool {
    (c as u32) == (up as u32) || (c as u32) == (up as u32) + 32
}

/// Whether a character is a decimal digit.
pub open spec fn is_digit(c: char) -> bool {
    '0' <= c <= '9'
}

/// The end of the run of digits from `p`.
pub open spec fn digits_end(c: Seq<char>, p: int) -> int
    decreases c.len() - p,
{
    if 0 <= p < c.len() && is_digit(c[p]) {
        digits_end(c, p + 1)
    } else {
        p
    }
}

/// The number the digits `c[p..e]` write.
pub open spec fn digits_value(c: Seq<char>, p: int, e: int) -> int
    decreases e - p,
{
    if e <= p {
        0
    } else {
        digits_value(c, p, e - 1) * 10 + (c[e - 1] as int - '0' as int)
    }
}

/// A signed decimal integer at `p` (an optional `+` or `-`, then digits),
/// as `nom::character::complete::i64` reads it: its end and value, or
/// nothing when there is no digit or the value leaves `i64`.
pub open spec fn int_at(c: Seq<char>, p: int) -> Option<(int, int)> {
    let neg = p < c.len() && c[p] == '-';
    let q = if p < c.len() && (c[p] == '+' || c[p] == '-') {
        p + 1
    } else {
        p
    };
    let e = digits_end(c, q);
    let v = if neg {
        -digits_value(c, q, e)
    } else {
        digits_value(c, q, e)
    };
    if e == q || v < i64::MIN || v > i64::MAX {
        None
    } else {
        Some((e, v))
    }
}

/// An integer at `p` followed by the letter `unit` (either case): the end
/// and the integer.
pub open spec fn count_at(c: Seq<char>, p: int, unit: char) -> Option<(int, int)> {
    match int_at(c, p) {
        Some((e, v)) => if e < c.len() && is_letter(c[e], unit) {
            Some((e + 1, v))
        } else {
            None
        },
        None => None,
    }
}

/// `dur-second = 1*DIGIT "S"`.
pub open spec fn dur_second_at(c: Seq<char>, p: int) -> Outcome {
    match count_at(c, p, 'S') {
        Some((e, v)) => match delta_of(v, 1) {
            Some(d) => Some(Some((e, d))),
            None => Some(None),
        },
        None => Some(None),
    }
}

/// A duration unit with an optional smaller part after it: the part is
/// read if it fits, and the sum of the two overflows if it leaves the
/// duration range.
pub open spec fn with_tail(head: Option<(int, int)>, unit: int, tail: Outcome, e: int) -> Outcome {
    match head {
        None => Some(None),
        Some((_, v)) => match tail {
            None => None,
            Some(t) => match delta_of(v, unit) {
                None => Some(None),
                Some(d) => match t {
                    None => Some(Some((e, d))),
                    Some((e2, d2)) => if delta_ok(d + d2) {
                        Some(Some((e2, d + d2)))
                    } else {
                        None
                    },
                },
            },
        },
    }
}

/// `dur-minute = 1*DIGIT "M" [dur-second]`.
pub open spec fn dur_minute_at(c: Seq<char>, p: int) -> Outcome {
    match count_at(c, p, 'M') {
        None => Some(None),
        Some((e, v)) => with_tail(Some((e, v)), 60, dur_second_at(c, e), e),
    }
}

/// `dur-hour = 1*DIGIT "H" [dur-minute]`.
pub open spec fn dur_hour_at(c: Seq<char>, p: int) -> Outcome {
    match count_at(c, p, 'H') {
        None => Some(None),
        Some((e, v)) => with_tail(Some((e, v)), 3600, dur_minute_at(c, e), e),
    }
}

/// The first of the alternatives that fits; an overflow stops the search.
pub open spec fn first_of(a: Outcome, b: Outcome) -> Outcome {
    match a {
        Some(None) => b,
        _ => a,
    }
}

/// `dur-time = "T" (dur-hour / dur-minute / dur-second)`.
pub open spec fn dur_time_at(c: Seq<char>, p: int) -> Outcome {
    if p < c.len() && is_letter(c[p], 'T') {
        first_of(dur_hour_at(c, p + 1), first_of(dur_minute_at(c, p + 1), dur_second_at(c, p + 1)))
    } else {
        Some(None)
    }
}

/// `dur-week = 1*DIGIT "W"`.
pub open spec fn dur_week_at(c: Seq<char>, p: int) -> Outcome {
    match count_at(c, p, 'W') {
        Some((e, v)) => match delta_of(v, 604800) {
            Some(d) => Some(Some((e, d))),
            None => Some(None),
        },
        None => Some(None),
    }
}

/// `dur-date = dur-day [dur-time]`.
pub open spec fn dur_date_at(c: Seq<char>, p: int) -> Outcome {
    match count_at(c, p, 'D') {
        None => Some(None),
        Some((e, v)) => with_tail(Some((e, v)), 86400, dur_time_at(c, e), e),
    }
}

/// `dur-value = (["+"] / "-") "P" (dur-date / dur-time / dur-week)`: how
/// the text reads from its start.
pub open spec fn dur_value_of(c: Seq<char>) -> Outcome {
    let sign: int = if c.len() > 0 && c[0] == '-' {
        -1
    } else {
        1
    };
    let p: int = if c.len() > 0 && (c[0] == '+' || c[0] == '-') {
        1
    } else {
        0
    };
    if p < c.len() && is_letter(c[p], 'P') {
        match first_of(dur_date_at(c, p + 1), first_of(dur_time_at(c, p + 1), dur_week_at(c, p + 1))) {
            Some(Some((e, d))) => Some(Some((e, d * sign))),
            other => other,
        }
    } else {
        Some(None)
    }
}

/// What reading a piece of a duration text gave.
#[derive(Debug, PartialEq, Clone, Copy)]
pub enum DurStep {
    /// The text does not fit.
    Fail,
    /// A sum of durations left the duration range.
    Overflow,
    /// Read up to a position, as a number of seconds.
    Done(usize, i64),
}

/// The outcome a step stands for.
pub open spec fn step_outcome(s: DurStep) -> Outcome {
    match s {
        DurStep::Fail => Some(None),
        DurStep::Overflow => None,
        DurStep::Done(e, d) => Some(Some((e as int, d as int))),
    }
}

proof fn lemma_digits_end(c: Seq<char>, p: int)
    requires
        0 <= p <= c.len(),
    ensures
        p <= digits_end(c, p) <= c.len(),
        forall|k: int| p <= k < digits_end(c, p) ==> is_digit(#[trigger] c[k]),
    decreases c.len() - p,
{
    if p < c.len() && is_digit(c[p]) {
        lemma_digits_end(c, p + 1);
    }
}

/// Where an integer read ends, and that its value is an `i64`.
proof fn lemma_int_at(c: Seq<char>, p: int)
    requires
        0 <= p <= c.len(),
    ensures
        int_at(c, p) matches Some((e, v)) ==> p < e <= c.len() && i64::MIN <= v <= i64::MAX,
        count_at(c, p, 'S') matches Some((e, v)) ==> p < e <= c.len() && i64::MIN <= v <= i64::MAX,
        count_at(c, p, 'M') matches Some((e, v)) ==> p < e <= c.len() && i64::MIN <= v <= i64::MAX,
        count_at(c, p, 'H') matches Some((e, v)) ==> p < e <= c.len() && i64::MIN <= v <= i64::MAX,
        count_at(c, p, 'D') matches Some((e, v)) ==> p < e <= c.len() && i64::MIN <= v <= i64::MAX,
        count_at(c, p, 'W') matches Some((e, v)) ==> p < e <= c.len() && i64::MIN <= v <= i64::MAX,
{
    let q = if p < c.len() && (c[p] == '+' || c[p] == '-') {
        p + 1
    } else {
        p
    };
    lemma_digits_end(c, q);
}

/// Reads a signed decimal integer at `p`.
pub(crate) fn read_int(c: &Vec<char>, p: usize) -> (r: Option<(usize, i64)>)
    requires
        p <= c@.len(),
    ensures
        r is None <==> int_at(c@, p as int) is None,
        r matches Some((e, v)) ==> int_at(c@, p as int) == Some((e as int, v as int)) && e <= c@.len(),
{
    let n = c.len();
    let neg = p < n && c[p] == '-';
    let q = if p < n && (c[p] == '+' || c[p] == '-') {
        p + 1
    } else {
        p
    };
    proof {
        lemma_digits_end(c@, q as int);
    }
    let mut e = q;
    let mut v: i64 = 0;
    let mut overflow = false;
    while e < n && '0' <= c[e] && c[e] <= '9'
        invariant
            q <= e <= n == c@.len(),
            digits_end(c@, q as int) == digits_end(c@, e as int),
            forall|k: int| q <= k < e ==> is_digit(#[trigger] c@[k]),
            !overflow ==> v == if neg {
                -digits_value(c@, q as int, e as int)
            } else {
                digits_value(c@, q as int, e as int)
            },
            overflow ==> (if neg {
                -digits_value(c@, q as int, e as int)
            } else {
                digits_value(c@, q as int, e as int)
            }) < i64::MIN || (if neg {
                -digits_value(c@, q as int, e as int)
            } else {
                digits_value(c@, q as int, e as int)
            }) > i64::MAX,
            digits_value(c@, q as int, e as int) >= 0,
        decreases n - e,
    {
        let d = (c[e] as u32 - '0' as u32) as i64;
        proof {
            assert(digits_value(c@, q as int, e + 1) == digits_value(c@, q as int, e as int) * 10 + d);
        }
        if !overflow {
            if neg {
                match v.checked_mul(10) {
                    Some(m) => match m.checked_sub(d) {
                        Some(x) => {
                            v = x;
                        },
                        None => {
                            overflow = true;
                        },
                    },
                    None => {
                        overflow = true;
                    },
                }
            } else {
                match v.checked_mul(10) {
                    Some(m) => match m.checked_add(d) {
                        Some(x) => {
                            v = x;
                        },
                        None => {
                            overflow = true;
                        },
                    },
                    None => {
                        overflow = true;
                    },
                }
            }
        }
        e = e + 1;
    }
    if e == q || overflow {
        None
    } else {
        Some((e, v))
    }
}

/// Reads an integer followed by the letter `unit` in either case.
fn read_count(c: &Vec<char>, p: usize, unit: char) -> (r: Option<(usize, i64)>)
    requires
        p <= c@.len(),
        'A' <= unit <= 'Z',
    ensures
        r is None <==> count_at(c@, p as int, unit) is None,
        r matches Some((e, v)) ==> count_at(c@, p as int, unit) == Some((e as int, v as int)) && e <= c@.len(),
{
    proof {
        lemma_int_at(c@, p as int);
    }
    assert(c.len() == c@.len());
    match read_int(c, p) {
        Some((e, v)) => {
            if e < c.len() && ((c[e] as u32) == (unit as u32) || (c[e] as u32) == (unit as u32) + 32) {
                Some((e + 1, v))
            } else {
                None
            }
        },
        None => None,
    }
}

/// `n` units of `unit` seconds, if it is a duration.
fn make_delta(n: i64, unit: i64) -> (r: Option<i64>)
    requires
        unit > 0,
    ensures
        match delta_of(n as int, unit as int) {
            Some(d) => r == Some(d as i64),
            None => r is None,
        },
{
    match n.checked_mul(unit) {
        Some(x) => if -MAX_DELTA_SECS <= x && x <= MAX_DELTA_SECS {
            Some(x)
        } else {
            None
        },
        None => None,
    }
}

/// A unit with an optional smaller part after it.
fn add_tail(e: usize, v: i64, unit: i64, tail: DurStep) -> (r: DurStep)
    requires
        unit > 0,
    ensures
        step_outcome(r) == with_tail(Some((e as int, v as int)), unit as int, step_outcome(tail), e as int),
        r matches DurStep::Done(_, d) ==> -MAX_DELTA_SECS <= d <= MAX_DELTA_SECS,
{
    match tail {
        DurStep::Overflow => DurStep::Overflow,
        _ => match make_delta(v, unit) {
            None => DurStep::Fail,
            Some(d) => match tail {
                DurStep::Done(e2, d2) => {
                    let sum = d as i128 + d2 as i128;
                    if -(MAX_DELTA_SECS as i128) <= sum && sum <= MAX_DELTA_SECS as i128 {
                        DurStep::Done(e2, (d + d2) as i64)
                    } else {
                        DurStep::Overflow
                    }
                },
                _ => DurStep::Done(e, d),
            },
        },
    }
}

/// `dur-second`.
fn dur_second(c: &Vec<char>, p: usize) -> (r: DurStep)
    requires
        p <= c@.len(),
    ensures
        step_outcome(r) == dur_second_at(c@, p as int),
        r matches DurStep::Done(e, _) ==> e <= c@.len(),
        r matches DurStep::Done(_, d) ==> -MAX_DELTA_SECS <= d <= MAX_DELTA_SECS,
{
    proof {
        lemma_int_at(c@, p as int);
    }
    match read_count(c, p, 'S') {
        Some((e, v)) => {
            match make_delta(v, 1) {
                Some(d) => DurStep::Done(e, d),
                None => DurStep::Fail,
            }
        },
        None => DurStep::Fail,
    }
}

/// `dur-minute`.
fn dur_minute(c: &Vec<char>, p: usize) -> (r: DurStep)
    requires
        p <= c@.len(),
    ensures
        step_outcome(r) == dur_minute_at(c@, p as int),
        r matches DurStep::Done(e, _) ==> e <= c@.len(),
        r matches DurStep::Done(_, d) ==> -MAX_DELTA_SECS <= d <= MAX_DELTA_SECS,
{
    proof {
        lemma_int_at(c@, p as int);
    }
    match read_count(c, p, 'M') {
        Some((e, v)) => add_tail(e, v, 60, dur_second(c, e)),
        None => DurStep::Fail,
    }
}

/// `dur-hour`.
fn dur_hour(c: &Vec<char>, p: usize) -> (r: DurStep)
    requires
        p <= c@.len(),
    ensures
        step_outcome(r) == dur_hour_at(c@, p as int),
        r matches DurStep::Done(e, _) ==> e <= c@.len(),
        r matches DurStep::Done(_, d) ==> -MAX_DELTA_SECS <= d <= MAX_DELTA_SECS,
{
    proof {
        lemma_int_at(c@, p as int);
    }
    match read_count(c, p, 'H') {
        Some((e, v)) => add_tail(e, v, 3600, dur_minute(c, e)),
        None => DurStep::Fail,
    }
}

/// `dur-time`.
fn dur_time(c: &Vec<char>, p: usize) -> (r: DurStep)
    requires
        p <= c@.len(),
    ensures
        step_outcome(r) == dur_time_at(c@, p as int),
        r matches DurStep::Done(e, _) ==> e <= c@.len(),
        r matches DurStep::Done(_, d) ==> -MAX_DELTA_SECS <= d <= MAX_DELTA_SECS,
{
    if p < c.len() && ((c[p] as u32) == ('T' as u32) || (c[p] as u32) == ('T' as u32) + 32) {
        match dur_hour(c, p + 1) {
            DurStep::Fail => match dur_minute(c, p + 1) {
                DurStep::Fail => dur_second(c, p + 1),
                other => other,
            },
            other => other,
        }
    } else {
        DurStep::Fail
    }
}

/// `dur-week`.
fn dur_week(c: &Vec<char>, p: usize) -> (r: DurStep)
    requires
        p <= c@.len(),
    ensures
        step_outcome(r) == dur_week_at(c@, p as int),
        r matches DurStep::Done(e, _) ==> e <= c@.len(),
        r matches DurStep::Done(_, d) ==> -MAX_DELTA_SECS <= d <= MAX_DELTA_SECS,
{
    proof {
        lemma_int_at(c@, p as int);
    }
    match read_count(c, p, 'W') {
        Some((e, v)) => match make_delta(v, 604800) {
            Some(d) => DurStep::Done(e, d),
            None => DurStep::Fail,
        },
        None => DurStep::Fail,
    }
}

/// `dur-date`.
fn dur_date(c: &Vec<char>, p: usize) -> (r: DurStep)
    requires
        p <= c@.len(),
    ensures
        step_outcome(r) == dur_date_at(c@, p as int),
        r matches DurStep::Done(e, _) ==> e <= c@.len(),
        r matches DurStep::Done(_, d) ==> -MAX_DELTA_SECS <= d <= MAX_DELTA_SECS,
{
    proof {
        lemma_int_at(c@, p as int);
    }
    match read_count(c, p, 'D') {
        Some((e, v)) => add_tail(e, v, 86400, dur_time(c, e)),
        None => DurStep::Fail,
    }
}

/// Reads an RFC 5545 duration value at the start of `text`: how far it
/// reads and the duration, or that the text is not one, or that a sum of
/// its parts leaves the duration range.
pub fn try_dur_value(text: &str) -> (r: DurStep)
    ensures
        step_outcome(r) == dur_value_of(text@),
        r matches DurStep::Done(_, d) ==> -MAX_DELTA_SECS <= d <= MAX_DELTA_SECS,
{
    let c = chars_of(text);
    let n = c.len();
    let sign: i64 = if n > 0 && c[0] == '-' {
        -1
    } else {
        1
    };
    let p: usize = if n > 0 && (c[0] == '+' || c[0] == '-') {
        1
    } else {
        0
    };
    if p < n && ((c[p] as u32) == ('P' as u32) || (c[p] as u32) == ('P' as u32) + 32) {
        let found = match dur_date(&c, p + 1) {
            DurStep::Fail => match dur_time(&c, p + 1) {
                DurStep::Fail => dur_week(&c, p + 1),
                other => other,
            },
            other => other,
        };
        match found {
            DurStep::Done(e, d) => DurStep::Done(e, d * sign),
            other => other,
        }
    } else {
        DurStep::Fail
    }
}

/// Reads an RFC 5545 duration value at the start of `text`:
///
/// ```abnf
/// dur-value  = (["+"] / "-") "P" (dur-date / dur-time / dur-week)
/// dur-date   = dur-day [dur-time]
/// dur-time   = "T" (dur-hour / dur-minute / dur-second)
/// dur-week   = 1*DIGIT "W"
/// dur-hour   = 1*DIGIT "H" [dur-minute]
/// dur-minute = 1*DIGIT "M" [dur-second]
/// dur-second = 1*DIGIT "S"
/// dur-day    = 1*DIGIT "D"
/// ```
///
/// Gives the number of characters read and the duration, or nothing when
/// the text does not start with a duration. The text must not hold parts
/// whose sum leaves the duration range.
pub fn dur_value(text: &str) -> (r: Option<(usize, TimeDelta)>)
    requires
        dur_value_of(text@) is Some,
    ensures
        match dur_value_of(text@) {
            Some(Some((e, d))) => r == Some((e as usize, TimeDelta { secs: d as i64 })),
            _ => r is None,
        },
{
    match try_dur_value(text) {
        DurStep::Done(e, d) => Some((e, TimeDelta { secs: d })),
        _ => None,
    }
}

} // verus!
