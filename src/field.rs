//! Field readers: a fixed number of decimal digits checked against a range, the
//! sign of a year or an offset, and the fraction of a second.
//!
//! Each reader takes the input bytes and a position, and gives the value read and
//! the position after it, or `None` without consuming anything.
use vstd::prelude::*;

verus! {

pub open spec fn is_digit(b: u8) -> bool {
    48 <= b <= 57
}

/// `n` digits stand at position `p`.
pub open spec fn digits_at(s: Seq<u8>, p: int, n: int) -> bool {
    0 <= p && 0 <= n && p + n <= s.len() && forall|i: int| p <= i < p + n ==> is_digit(#[trigger] s[i])
}

/// The decimal value of the `n` bytes at position `p`.
pub open spec fn digits_value(s: Seq<u8>, p: int, n: int) -> int
    decreases n,
{
    if n <= 0 {
        0
    } else {
        digits_value(s, p, n - 1) * 10 + (s[p + n - 1] - 48)
    }
}

pub open spec fn pow10(n: int) -> int
    decreases n,
{
    if n <= 0 {
        1
    } else {
        10 * pow10(n - 1)
    }
}

/// How many digits follow one another from position `p`.
pub open spec fn digit_run(s: Seq<u8>, p: int) -> int
    decreases s.len() - p,
{
    if 0 <= p < s.len() && is_digit(s[p]) {
        1 + digit_run(s, p + 1)
    } else {
        0
    }
}

/// Exactly `n` digits at `p` whose value lies in `lo..=hi`.
pub open spec fn spec_digits_range(s: Seq<u8>, p: int, n: int, lo: int, hi: int) -> Option<(int, int)> {
    if digits_at(s, p, n) && lo <= digits_value(s, p, n) <= hi {
        Some((digits_value(s, p, n), p + n))
    } else {
        None
    }
}

pub open spec fn byte_at(s: Seq<u8>, p: int, c: u8) -> bool {
    0 <= p < s.len() && s[p] == c
}

/// `-` gives -1, `+` gives 1.
pub open spec fn spec_sign(s: Seq<u8>, p: int) -> Option<(int, int)> {
    if byte_at(s, p, 45) {
        Some((-1, p + 1))
    } else if byte_at(s, p, 43) {
        Some((1, p + 1))
    } else {
        None
    }
}

/// An optional sign, then exactly four digits.
pub open spec fn spec_year(s: Seq<u8>, p: int) -> Option<(int, int)> {
    match spec_sign(s, p) {
        Some((sg, q)) => if digits_at(s, q, 4) {
            Some((sg * digits_value(s, q, 4), q + 4))
        } else {
            None
        },
        None => if digits_at(s, p, 4) {
            Some((digits_value(s, p, 4), p + 4))
        } else {
            None
        },
    }
}

pub open spec fn spec_month(s: Seq<u8>, p: int) -> Option<(int, int)> {
    spec_digits_range(s, p, 2, 1, 12)
}

pub open spec fn spec_day(s: Seq<u8>, p: int) -> Option<(int, int)> {
    spec_digits_range(s, p, 2, 1, 31)
}

pub open spec fn spec_hour(s: Seq<u8>, p: int) -> Option<(int, int)> {
    spec_digits_range(s, p, 2, 0, 24)
}

pub open spec fn spec_minute(s: Seq<u8>, p: int) -> Option<(int, int)> {
    spec_digits_range(s, p, 2, 0, 59)
}

pub open spec fn spec_second(s: Seq<u8>, p: int) -> Option<(int, int)> {
    spec_digits_range(s, p, 2, 0, 59)
}

/// A `.` and one to nine digits, scaled to nanoseconds: `d` digits of value `v`
/// stand for `v * 10^(9 - d)` nanoseconds. Ten digits or more are refused.
pub open spec fn spec_nanosecond(s: Seq<u8>, p: int) -> Option<(int, int)> {
    let d = digit_run(s, p + 1);
    if byte_at(s, p, 46) && 1 <= d <= 9 {
        Some((digits_value(s, p + 1, d) * pow10(9 - d), p + 1 + d))
    } else {
        None
    }
}

/// `Z`, which is UTC, or a signed `HH:MM`; the result is the offset east of UTC
/// in seconds, so `Z`, `+00:00` and `-00:00` all give 0.
pub open spec fn spec_zone(s: Seq<u8>, p: int) -> Option<(int, int)> {
    if byte_at(s, p, 90) {
        Some((0, p + 1))
    } else {
        spec_zone_offset(s, p)
    }
}

pub open spec fn spec_zone_offset(s: Seq<u8>, p: int) -> Option<(int, int)> {
    match spec_sign(s, p) {
        None => None,
        Some((sg, q)) => match spec_hour(s, q) {
            None => None,
            Some((h, q2)) => if byte_at(s, q2, 58) {
                match spec_minute(s, q2 + 1) {
                    None => None,
                    Some((m, q3)) => Some((sg * (h * 3600 + m * 60), q3)),
                }
            } else {
                None
            },
        },
    }
}

pub open spec fn lift_u32(r: Option<(u32, usize)>) -> Option<(int, int)> {
    match r {
        Some((v, q)) => Some((v as int, q as int)),
        None => None,
    }
}

pub open spec fn lift_i32(r: Option<(i32, usize)>) -> Option<(int, int)> {
    match r {
        Some((v, q)) => Some((v as int, q as int)),
        None => None,
    }
}

pub proof fn lemma_digits_value_bound(s: Seq<u8>, p: int, n: int)
    requires
        digits_at(s, p, n),
    ensures
        0 <= digits_value(s, p, n) < pow10(n),
    decreases n,
{
    if n > 0 {
        lemma_digits_value_bound(s, p, n - 1);
        assert(is_digit(s[p + n - 1]));
    }
}

/// Reads exactly `n` digits at `p`.
fn take_digits(s: &[u8], p: usize, n: usize) -> (r: Option<u32>)
    requires
        n <= 9,
    ensures
        r is Some <==> digits_at(s@, p as int, n as int),
        r matches Some(v) ==> v == digits_value(s@, p as int, n as int) && v < pow10(n as int),
        r is Some ==> p + n <= s.len(),
{
    if p > s.len() || n > s.len() - p {
        return None;
    }
    let end = p + n;
    let mut v: u32 = 0;
    let mut i: usize = 0;
    while i < n
        invariant
            i <= n <= 9,
            end == p + n,
            end <= s@.len(),
            digits_at(s@, p as int, i as int),
            v == digits_value(s@, p as int, i as int),
            v < pow10(i as int),
        decreases n - i,
    {
        let b = s[p + i];
        if b < 48 || b > 57 {
            assert(!digits_at(s@, p as int, n as int) || !is_digit(s@[p + i]));
            return None;
        }
        assert(pow10(i + 1) == 10 * pow10(i as int));
        assert(pow10(i as int) <= 100_000_000) by {
            lemma_pow10_mono(i as int, 8);
            reveal_with_fuel(pow10, 9);
        }
        v = v * 10 + (b - 48) as u32;
        i = i + 1;
    }
    Some(v)
}

proof fn lemma_pow10_mono(a: int, b: int)
    requires
        0 <= a <= b,
    ensures
        pow10(a) <= pow10(b),
        pow10(a) >= 1,
    decreases b,
{
    if a < b {
        lemma_pow10_mono(a, b - 1);
    } else if a > 0 {
        lemma_pow10_mono(a - 1, a - 1);
    }
}

fn take_digits_range(s: &[u8], p: usize, n: usize, lo: u32, hi: u32) -> (r: Option<(u32, usize)>)
    requires
        n <= 9,
    ensures
        lift_u32(r) == spec_digits_range(s@, p as int, n as int, lo as int, hi as int),
{
    match take_digits(s, p, n) {
        Some(v) => {
            if lo <= v && v <= hi {
                Some((v, p + n))
            } else {
                None
            }
        },
        None => None,
    }
}

pub fn sign(s: &[u8], p: usize) -> (r: Option<(i32, usize)>)
    ensures
        lift_i32(r) == spec_sign(s@, p as int),
{
    if p < s.len() && s[p] == 45 {
        Some((-1, p + 1))
    } else if p < s.len() && s[p] == 43 {
        Some((1, p + 1))
    } else {
        None
    }
}

/// An optional `+` or `-`, then exactly four digits.
pub fn year(s: &[u8], p: usize) -> (r: Option<(i32, usize)>)
    ensures
        lift_i32(r) == spec_year(s@, p as int),
        r matches Some((v, _)) ==> -9999 <= v <= 9999,
{
    let (sg, q) = match sign(s, p) {
        Some(x) => x,
        None => (1, p),
    };
    match take_digits(s, q, 4) {
        Some(y) => {
            proof {
                reveal_with_fuel(pow10, 5);
                assert(y < 10000);
            }
            Some((sg * (y as i32), q + 4))
        },
        None => None,
    }
}

/// Two digits, `01` to `12`.
pub fn month(s: &[u8], p: usize) -> (r: Option<(u32, usize)>)
    ensures
        lift_u32(r) == spec_month(s@, p as int),
{
    take_digits_range(s, p, 2, 1, 12)
}

/// Two digits, `01` to `31`; whether the month has that day is decided later.
pub fn day(s: &[u8], p: usize) -> (r: Option<(u32, usize)>)
    ensures
        lift_u32(r) == spec_day(s@, p as int),
{
    take_digits_range(s, p, 2, 1, 31)
}

/// Two digits, `00` to `24`.
pub fn hour(s: &[u8], p: usize) -> (r: Option<(u32, usize)>)
    ensures
        lift_u32(r) == spec_hour(s@, p as int),
{
    take_digits_range(s, p, 2, 0, 24)
}

/// Two digits, `00` to `59`.
pub fn minute(s: &[u8], p: usize) -> (r: Option<(u32, usize)>)
    ensures
        lift_u32(r) == spec_minute(s@, p as int),
{
    take_digits_range(s, p, 2, 0, 59)
}

/// Two digits, `00` to `59`.
pub fn second(s: &[u8], p: usize) -> (r: Option<(u32, usize)>)
    ensures
        lift_u32(r) == spec_second(s@, p as int),
{
    take_digits_range(s, p, 2, 0, 59)
}

/// A `.` and one to nine digits, as nanoseconds: `.5` is 500000000.
pub fn nanosecond(s: &[u8], p: usize) -> (r: Option<(u32, usize)>)
    ensures
        lift_u32(r) == spec_nanosecond(s@, p as int),
        r matches Some((v, _)) ==> v < 1_000_000_000,
{
    if p >= s.len() || s[p] != 46 {
        return None;
    }
    let start = p + 1;
    let mut d: usize = 0;
    while d < 10 && d < s.len() - start && 48 <= s[start + d] && s[start + d] <= 57
        invariant
            start == p + 1,
            start <= s@.len(),
            d <= 10,
            start + d <= s@.len(),
            forall|i: int| start <= i < start + d ==> is_digit(#[trigger] s@[i]),
            digit_run(s@, start as int) == d + digit_run(s@, start + d),
        decreases 10 - d,
    {
        assert(digit_run(s@, start + d) == 1 + digit_run(s@, start + d + 1));
        d = d + 1;
    }
    if d == 0 || d == 10 {
        proof {
            if d == 10 {
                assert(digit_run(s@, start + d) >= 0) by {
                    lemma_digit_run_nonneg(s@, start + d);
                }
            }
        }
        return None;
    }
    let value = match take_digits(s, start, d) {
        Some(v) => v,
        None => {
            return None;
        },
    };
    let mut v: u32 = value;
    let mut k: usize = d;
    while k < 9
        invariant
            1 <= d <= k <= 9,
            v == value * pow10(k - d),
            v < pow10(k as int),
        decreases 9 - k,
    {
        proof {
            lemma_pow10_mono(k as int, 8);
            reveal_with_fuel(pow10, 9);
            assert(pow10(k + 1 - d) == 10 * pow10(k - d));
            assert(pow10(k + 1) == 10 * pow10(k as int));
            assert(value * (10 * pow10(k - d)) == 10 * (value * pow10(k - d))) by (nonlinear_arith);
        }
        v = v * 10;
        k = k + 1;
    }
    proof {
        reveal_with_fuel(pow10, 10);
    }
    Some((v, start + d))
}

proof fn lemma_digit_run_nonneg(s: Seq<u8>, p: int)
    ensures
        digit_run(s, p) >= 0,
    decreases s.len() - p,
{
    if 0 <= p < s.len() && is_digit(s[p]) {
        lemma_digit_run_nonneg(s, p + 1);
    }
}

/// `Z` or a signed `HH:MM`, as an offset east of UTC in seconds.
pub fn zone(s: &[u8], p: usize) -> (r: Option<(i32, usize)>)
    ensures
        lift_i32(r) == spec_zone(s@, p as int),
        r matches Some((v, _)) ==> -89940 <= v <= 89940,
{
    match zone_utc(s, p) {
        Some(x) => Some(x),
        None => zone_all(s, p),
    }
}

fn zone_utc(s: &[u8], p: usize) -> (r: Option<(i32, usize)>)
    ensures
        lift_i32(r) == (if byte_at(s@, p as int, 90) {
            Some((0int, p + 1))
        } else {
            None::<(int, int)>
        }),
        r matches Some((v, _)) ==> v == 0,
{
    if p < s.len() && s[p] == 90 {
        Some((0, p + 1))
    } else {
        None
    }
}

fn zone_all(s: &[u8], p: usize) -> (r: Option<(i32, usize)>)
    ensures
        lift_i32(r) == spec_zone_offset(s@, p as int),
        r matches Some((v, _)) ==> -89940 <= v <= 89940,
{
    let (sg, q) = match sign(s, p) {
        Some(x) => x,
        None => {
            return None;
        },
    };
    let (h, q2) = match hour(s, q) {
        Some(x) => x,
        None => {
            return None;
        },
    };
    if q2 >= s.len() || s[q2] != 58 {
        return None;
    }
    let (m, q3) = match minute(s, q2 + 1) {
        Some(x) => x,
        None => {
            return None;
        },
    };
    let off = (h * 3600 + m * 60) as i32;
    Some((sg * off, q3))
}

} // verus!
