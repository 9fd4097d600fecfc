//! The grammar of date/time literals.
//!
//! Three productions, tried most specific first: a date and time with a fraction
//! of a second and a zone, a date and time with a zone, and a date alone (which
//! means midnight UTC). Quoted literals take the first two; the permissive form
//! takes all three. Each production yields the instant in UTC.
use vstd::prelude::*;
use vstd::string::StringSliceAdditionalSpecFns;

use crate::calendar::{date_to_days, epoch_days, valid_date};
use crate::datetime::{Datetime, MAX_SECS, SECS_PER_DAY};
use crate::field::{
    byte_at, day, hour, minute, month, nanosecond, second, spec_day, spec_hour, spec_minute,
    spec_month, spec_nanosecond, spec_second, spec_year, spec_zone, year, zone, lift_i32, lift_u32,
};

verus! {

/// `year-month-day`.
pub open spec fn spec_date_fields(s: Seq<u8>, p: int) -> Option<((int, int, int), int)> {
    match spec_year(s, p) {
        None => None,
        Some((y, q1)) => if !byte_at(s, q1, 45) {
            None
        } else {
            match spec_month(s, q1 + 1) {
                None => None,
                Some((mo, q2)) => if !byte_at(s, q2, 45) {
                    None
                } else {
                    match spec_day(s, q2 + 1) {
                        None => None,
                        Some((d, q3)) => Some(((y, mo, d), q3)),
                    }
                },
            }
        },
    }
}

/// `Thour:minute:second`.
pub open spec fn spec_clock_fields(s: Seq<u8>, p: int) -> Option<((int, int, int), int)> {
    if !byte_at(s, p, 84) {
        None
    } else {
        match spec_hour(s, p + 1) {
            None => None,
            Some((h, q1)) => if !byte_at(s, q1, 58) {
                None
            } else {
                match spec_minute(s, q1 + 1) {
                    None => None,
                    Some((mi, q2)) => if !byte_at(s, q2, 58) {
                        None
                    } else {
                        match spec_second(s, q2 + 1) {
                            None => None,
                            Some((sec, q3)) => Some(((h, mi, sec), q3)),
                        }
                    },
                }
            },
        }
    }
}

/// The instant of the wall-clock reading `y-mo-d h:mi:sec` plus `ns` nanoseconds
/// at `off` seconds east of UTC. There is none when the date does not exist, the
/// hour is 24, or the offset is a whole day or more.
pub open spec fn spec_construct(y: int, mo: int, d: int, h: int, mi: int, sec: int, ns: int, off: int) -> Option<Datetime> {
    if valid_date(y, mo, d) && h < 24 && -86400 < off < 86400 {
        Some(
            Datetime {
                secs: (epoch_days(y, mo, d) * 86400 + h * 3600 + mi * 60 + sec - off) as i64,
                nanos: ns as u32,
            },
        )
    } else {
        None
    }
}

pub open spec fn spec_nano(s: Seq<u8>, p: int) -> Option<(Datetime, int)> {
    match spec_date_fields(s, p) {
        None => None,
        Some((dt, q1)) => match spec_clock_fields(s, q1) {
            None => None,
            Some((cl, q2)) => match spec_nanosecond(s, q2) {
                None => None,
                Some((ns, q3)) => match spec_zone(s, q3) {
                    None => None,
                    Some((off, q4)) => match spec_construct(dt.0, dt.1, dt.2, cl.0, cl.1, cl.2, ns, off) {
                        None => None,
                        Some(t) => Some((t, q4)),
                    },
                },
            },
        },
    }
}

pub open spec fn spec_time(s: Seq<u8>, p: int) -> Option<(Datetime, int)> {
    match spec_date_fields(s, p) {
        None => None,
        Some((dt, q1)) => match spec_clock_fields(s, q1) {
            None => None,
            Some((cl, q2)) => match spec_zone(s, q2) {
                None => None,
                Some((off, q3)) => match spec_construct(dt.0, dt.1, dt.2, cl.0, cl.1, cl.2, 0, off) {
                    None => None,
                    Some(t) => Some((t, q3)),
                },
            },
        },
    }
}

pub open spec fn spec_date(s: Seq<u8>, p: int) -> Option<(Datetime, int)> {
    match spec_date_fields(s, p) {
        None => None,
        Some((dt, q1)) => match spec_construct(dt.0, dt.1, dt.2, 0, 0, 0, 0, 0) {
            None => None,
            Some(t) => Some((t, q1)),
        },
    }
}

/// A date and time with a zone, with or without a fraction of a second.
pub open spec fn spec_raw(s: Seq<u8>, p: int) -> Option<(Datetime, int)> {
    match spec_nano(s, p) {
        Some(r) => Some(r),
        None => spec_time(s, p),
    }
}

/// As `spec_raw`, or else a date alone.
pub open spec fn spec_all_raw(s: Seq<u8>, p: int) -> Option<(Datetime, int)> {
    match spec_raw(s, p) {
        Some(r) => Some(r),
        None => spec_date(s, p),
    }
}

/// `spec_raw` between two `q` bytes.
pub open spec fn spec_delimited(s: Seq<u8>, p: int, q: u8) -> Option<(Datetime, int)> {
    if !byte_at(s, p, q) {
        None
    } else {
        match spec_raw(s, p + 1) {
            None => None,
            Some((t, e)) => if byte_at(s, e, q) {
                Some((t, e + 1))
            } else {
                None
            },
        }
    }
}

/// A quoted literal: between single quotes, or else between double quotes.
pub open spec fn spec_quoted(s: Seq<u8>, p: int) -> Option<(Datetime, int)> {
    match spec_delimited(s, p, 39) {
        Some(r) => Some(r),
        None => spec_delimited(s, p, 34),
    }
}

pub open spec fn lift_dt(r: Option<(Datetime, usize)>) -> Option<(Datetime, int)> {
    match r {
        Some((t, q)) => Some((t, q as int)),
        None => None,
    }
}

pub open spec fn lift_fields(r: Option<((i32, u32, u32), usize)>) -> Option<((int, int, int), int)> {
    match r {
        Some((f, q)) => Some(((f.0 as int, f.1 as int, f.2 as int), q as int)),
        None => None,
    }
}

pub open spec fn lift_clock(r: Option<((u32, u32, u32), usize)>) -> Option<((int, int, int), int)> {
    match r {
        Some((f, q)) => Some(((f.0 as int, f.1 as int, f.2 as int), q as int)),
        None => None,
    }
}

fn date_fields(s: &[u8], p: usize) -> (r: Option<((i32, u32, u32), usize)>)
    ensures
        lift_fields(r) == spec_date_fields(s@, p as int),
        r matches Some((f, q)) ==> -9999 <= f.0 <= 9999 && 1 <= f.1 <= 12 && 1 <= f.2 <= 31 && q <= s@.len(),
{
    let (y, q1) = match year(s, p) {
        Some(x) => x,
        None => {
            return None;
        },
    };
    if q1 >= s.len() || s[q1] != 45 {
        return None;
    }
    let (mo, q2) = match month(s, q1 + 1) {
        Some(x) => x,
        None => {
            return None;
        },
    };
    if q2 >= s.len() || s[q2] != 45 {
        return None;
    }
    let (d, q3) = match day(s, q2 + 1) {
        Some(x) => x,
        None => {
            return None;
        },
    };
    Some(((y, mo, d), q3))
}

fn clock_fields(s: &[u8], p: usize) -> (r: Option<((u32, u32, u32), usize)>)
    ensures
        lift_clock(r) == spec_clock_fields(s@, p as int),
        r matches Some((f, q)) ==> f.0 <= 24 && f.1 <= 59 && f.2 <= 59 && q <= s@.len(),
{
    if p >= s.len() || s[p] != 84 {
        return None;
    }
    let (h, q1) = match hour(s, p + 1) {
        Some(x) => x,
        None => {
            return None;
        },
    };
    if q1 >= s.len() || s[q1] != 58 {
        return None;
    }
    let (mi, q2) = match minute(s, q1 + 1) {
        Some(x) => x,
        None => {
            return None;
        },
    };
    if q2 >= s.len() || s[q2] != 58 {
        return None;
    }
    let (sec, q3) = match second(s, q2 + 1) {
        Some(x) => x,
        None => {
            return None;
        },
    };
    Some(((h, mi, sec), q3))
}

/// Years of four digits lie within `MAX_DAYS` of day 0.
proof fn lemma_days_of_four_digit_year(y: int, m: int, d: int)
    requires
        -9999 <= y <= 9999,
        valid_date(y, m, d),
    ensures
        -4_400_000 <= epoch_days(y, m, d) <= 3_000_000,
{
}

/// Builds the instant of a wall-clock reading at an offset east of UTC.
fn construct(y: i32, mo: u32, d: u32, h: u32, mi: u32, sec: u32, ns: u32, off: i32) -> (r: Option<Datetime>)
    requires
        -9999 <= y <= 9999,
        mi <= 59,
        sec <= 59,
        ns < 1_000_000_000,
        -89940 <= off <= 89940,
    ensures
        r == spec_construct(y as int, mo as int, d as int, h as int, mi as int, sec as int, ns as int, off as int),
        r matches Some(t) ==> t.wf(),
{
    if h >= 24 || off <= -86400 || off >= 86400 {
        return None;
    }
    match date_to_days(y, mo, d) {
        Some(days) => {
            proof {
                lemma_days_of_four_digit_year(y as int, mo as int, d as int);
            }
            let secs = (days as i64) * SECS_PER_DAY + (h as i64) * 3600 + (mi as i64) * 60 + (sec as i64) - (off as i64);
            assert(-MAX_SECS <= secs <= MAX_SECS);
            Some(Datetime { secs, nanos: ns })
        },
        None => None,
    }
}

/// Date, time, fraction of a second and zone.
fn nano(s: &[u8], p: usize) -> (r: Option<(Datetime, usize)>)
    ensures
        lift_dt(r) == spec_nano(s@, p as int),
        r matches Some((t, _)) ==> t.wf(),
{
    let ((y, mo, d), q1) = match date_fields(s, p) {
        Some(x) => x,
        None => {
            return None;
        },
    };
    let ((h, mi, sec), q2) = match clock_fields(s, q1) {
        Some(x) => x,
        None => {
            return None;
        },
    };
    let (ns, q3) = match nanosecond(s, q2) {
        Some(x) => x,
        None => {
            return None;
        },
    };
    let (off, q4) = match zone(s, q3) {
        Some(x) => x,
        None => {
            return None;
        },
    };
    match construct(y, mo, d, h, mi, sec, ns, off) {
        Some(t) => Some((t, q4)),
        None => None,
    }
}

/// Date, time and zone.
fn time(s: &[u8], p: usize) -> (r: Option<(Datetime, usize)>)
    ensures
        lift_dt(r) == spec_time(s@, p as int),
        r matches Some((t, _)) ==> t.wf(),
{
    let ((y, mo, d), q1) = match date_fields(s, p) {
        Some(x) => x,
        None => {
            return None;
        },
    };
    let ((h, mi, sec), q2) = match clock_fields(s, q1) {
        Some(x) => x,
        None => {
            return None;
        },
    };
    let (off, q3) = match zone(s, q2) {
        Some(x) => x,
        None => {
            return None;
        },
    };
    match construct(y, mo, d, h, mi, sec, 0, off) {
        Some(t) => Some((t, q3)),
        None => None,
    }
}

/// A date alone, taken as midnight UTC.
fn date(s: &[u8], p: usize) -> (r: Option<(Datetime, usize)>)
    ensures
        lift_dt(r) == spec_date(s@, p as int),
        r matches Some((t, _)) ==> t.wf(),
{
    let ((y, mo, d), q1) = match date_fields(s, p) {
        Some(x) => x,
        None => {
            return None;
        },
    };
    match construct(y, mo, d, 0, 0, 0, 0, 0) {
        Some(t) => Some((t, q1)),
        None => None,
    }
}

fn raw_at(s: &[u8], p: usize) -> (r: Option<(Datetime, usize)>)
    ensures
        lift_dt(r) == spec_raw(s@, p as int),
        r matches Some((t, _)) ==> t.wf(),
{
    match nano(s, p) {
        Some(x) => Some(x),
        None => time(s, p),
    }
}

fn all_raw_at(s: &[u8], p: usize) -> (r: Option<(Datetime, usize)>)
    ensures
        lift_dt(r) == spec_all_raw(s@, p as int),
        r matches Some((t, _)) ==> t.wf(),
{
    match raw_at(s, p) {
        Some(x) => Some(x),
        None => date(s, p),
    }
}

fn delimited(s: &[u8], p: usize, q: u8) -> (r: Option<(Datetime, usize)>)
    ensures
        lift_dt(r) == spec_delimited(s@, p as int, q),
        r matches Some((t, _)) ==> t.wf(),
{
    if p >= s.len() || s[p] != q {
        return None;
    }
    match raw_at(s, p + 1) {
        Some((t, e)) => {
            if e < s.len() && s[e] == q {
                Some((t, e + 1))
            } else {
                None
            }
        },
        None => None,
    }
}

/// Why a literal was not accepted: it does not match the grammar, or names no
/// instant of the calendar.
#[derive(Clone, Copy, Debug, PartialEq, Eq, Structural)]
pub struct ParseError;

pub open spec fn lift_result(r: Result<(usize, Datetime), ParseError>) -> Option<(Datetime, int)> {
    match r {
        Ok((n, t)) => Some((t, n as int)),
        Err(_) => None,
    }
}

/// A quoted date/time literal at the start of `i`, between single or double
/// quotes, with a time and a zone. Gives how many bytes of `i` it took, and the
/// instant.
pub fn datetime(i: &str) -> (r: Result<(usize, Datetime), ParseError>)
    ensures
        lift_result(r) == spec_quoted(i.spec_bytes(), 0),
        r matches Ok((_, t)) ==> t.wf(),
{
    let s = i.as_bytes();
    let r = match delimited(s, 0, 39) {
        Some(x) => Some(x),
        None => delimited(s, 0, 34),
    };
    match r {
        Some((t, n)) => Ok((n, t)),
        None => Err(ParseError),
    }
}

/// Single-quoted literal at the start of `i`.
pub fn datetime_single(i: &str) -> (r: Result<(usize, Datetime), ParseError>)
    ensures
        lift_result(r) == spec_delimited(i.spec_bytes(), 0, 39),
        r matches Ok((_, t)) ==> t.wf(),
{
    match delimited(i.as_bytes(), 0, 39) {
        Some((t, n)) => Ok((n, t)),
        None => Err(ParseError),
    }
}

/// Double-quoted literal at the start of `i`.
pub fn datetime_double(i: &str) -> (r: Result<(usize, Datetime), ParseError>)
    ensures
        lift_result(r) == spec_delimited(i.spec_bytes(), 0, 34),
        r matches Ok((_, t)) ==> t.wf(),
{
    match delimited(i.as_bytes(), 0, 34) {
        Some((t, n)) => Ok((n, t)),
        None => Err(ParseError),
    }
}

/// An unquoted date and time with a zone at the start of `i`.
pub fn datetime_raw(i: &str) -> (r: Result<(usize, Datetime), ParseError>)
    ensures
        lift_result(r) == spec_raw(i.spec_bytes(), 0),
        r matches Ok((_, t)) ==> t.wf(),
{
    match raw_at(i.as_bytes(), 0) {
        Some((t, n)) => Ok((n, t)),
        None => Err(ParseError),
    }
}

/// An unquoted date and time with a zone, or a date alone, at the start of `i`.
pub fn datetime_all_raw(i: &str) -> (r: Result<(usize, Datetime), ParseError>)
    ensures
        lift_result(r) == spec_all_raw(i.spec_bytes(), 0),
        r matches Ok((_, t)) ==> t.wf(),
{
    match all_raw_at(i.as_bytes(), 0) {
        Some((t, n)) => Ok((n, t)),
        None => Err(ParseError),
    }
}

impl Datetime {
    /// The instant that `s` begins with, in any of the three forms, or else
    /// `fallback`.
    pub fn parse_or(s: &str, fallback: Datetime) -> (r: Datetime)
        ensures
            r == (match spec_all_raw(s.spec_bytes(), 0) {
                Some((t, _)) => t,
                None => fallback,
            }),
    {
        match datetime_all_raw(s) {
            Ok((_, t)) => t,
            Err(_) => fallback,
        }
    }

    /// The instant that `s` begins with, in any of the three forms.
    ///
    /// This never fails: text that holds no instant gives the instant of the
    /// call, read from the system clock as `Datetime::default` reads it (see
    /// `Datetime::from_clock_reading` for what a reading becomes). Malformed
    /// input is thereby read as "now"; callers that must tell the two apart use
    /// `datetime`, and `parse_or` states the same choice for a given fallback.
    pub fn from_str_or_now(s: &str) -> (r: Datetime)
        ensures
            r.wf(),
            spec_all_raw(s.spec_bytes(), 0) matches Some((t, _)) ==> r == t,
    {
        match datetime_all_raw(s) {
            Ok((_, t)) => t,
            Err(_) => Datetime::default(),
        }
    }
}

} // verus!
