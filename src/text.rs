//! The canonical text of an instant: `YYYY-MM-DDTHH:MM:SS[.fraction]Z` in UTC.
//!
//! The fraction appears only when the nanoseconds are not zero, with three, six
//! or nine digits: the fewest of those that hold the value exactly. A year outside
//! `0000..=9999` is written with its sign and at least four digits.
use vstd::prelude::*;

use crate::calendar::{date_of_day, days_to_date, lemma_year_bound, MAX_DAYS};
use crate::datetime::{Datetime, MAX_SECS, SECS_PER_DAY};

verus! {

/// The last `w` decimal digits of `n`, zero-padded.
pub open spec fn decimal(n: int, w: int) -> Seq<u8>
    decreases w,
{
    if w <= 0 {
        Seq::empty()
    } else {
        decimal(n / 10, w - 1).push((48 + n % 10) as u8)
    }
}

pub open spec fn year_text(y: int) -> Seq<u8> {
    if 0 <= y <= 9999 {
        decimal(y, 4)
    } else if y < 0 {
        seq![45u8] + (if -y <= 9999 {
            decimal(-y, 4)
        } else {
            decimal(-y, 5)
        })
    } else {
        seq![43u8] + decimal(y, 5)
    }
}

pub open spec fn fraction_text(ns: int) -> Seq<u8> {
    if ns == 0 {
        Seq::empty()
    } else if ns % 1_000_000 == 0 {
        seq![46u8] + decimal(ns / 1_000_000, 3)
    } else if ns % 1000 == 0 {
        seq![46u8] + decimal(ns / 1000, 6)
    } else {
        seq![46u8] + decimal(ns, 9)
    }
}

/// The canonical text of `t`, without quotes.
pub open spec fn raw_text(t: Datetime) -> Seq<u8> {
    let c = date_of_day(t.day());
    let sd = t.second_of_day();
    year_text(c.0) + seq![45u8] + decimal(c.1, 2) + seq![45u8] + decimal(c.2, 2) + seq![84u8]
        + decimal(sd / 3600, 2) + seq![58u8] + decimal(sd % 3600 / 60, 2) + seq![58u8]
        + decimal(sd % 60, 2) + fraction_text(t.nanos as int) + seq![90u8]
}

/// The canonical text of `t` as a literal: between single quotes.
pub open spec fn literal_text(t: Datetime) -> Seq<u8> {
    seq![39u8] + raw_text(t) + seq![39u8]
}

/// The characters of ASCII bytes.
pub open spec fn chars_of(b: Seq<u8>) -> Seq<char> {
    b.map_values(|x: u8| x as char)
}

pub open spec fn is_ascii_bytes(b: Seq<u8>) -> bool {
    forall|i: int| 0 <= i < b.len() ==> #[trigger] b[i] < 128
}

/// Relies on std's `String::from_utf8`, which keeps the bytes of valid UTF-8 as
/// they are; an ASCII byte is the character of the same number.
#[verifier::external_body]
fn ascii_to_string(b: Vec<u8>) -> (r: String)
    requires
        is_ascii_bytes(b@),
    ensures
        r@ == chars_of(b@),
{
    String::from_utf8(b).unwrap_or_default()
}

fn push_decimal(v: &mut Vec<u8>, n: u32, w: usize)
    ensures
        final(v)@ == old(v)@ + decimal(n as int, w as int),
    decreases w,
{
    if w > 0 {
        push_decimal(v, n / 10, w - 1);
        v.push(48 + (n % 10) as u8);
    } else {
        assert(old(v)@ + decimal(n as int, w as int) =~= old(v)@);
    }
}

proof fn lemma_decimal_ascii(n: int, w: int)
    ensures
        is_ascii_bytes(decimal(n, w)),
        decimal(n, w).len() == if w <= 0 {
            0
        } else {
            w
        },
    decreases w,
{
    if w > 0 {
        lemma_decimal_ascii(n / 10, w - 1);
    }
}

fn push_year(v: &mut Vec<u8>, y: i32)
    requires
        -99999 <= y <= 99999,
    ensures
        final(v)@ == old(v)@ + year_text(y as int),
{
    if 0 <= y && y <= 9999 {
        push_decimal(v, y as u32, 4);
    } else if y < 0 {
        v.push(45);
        let m = (-y) as u32;
        if m <= 9999 {
            push_decimal(v, m, 4);
        } else {
            push_decimal(v, m, 5);
        }
        assert(final(v)@ =~= old(v)@ + year_text(y as int));
    } else {
        v.push(43);
        push_decimal(v, y as u32, 5);
        assert(final(v)@ =~= old(v)@ + year_text(y as int));
    }
}

fn push_fraction(v: &mut Vec<u8>, ns: u32)
    ensures
        final(v)@ == old(v)@ + fraction_text(ns as int),
{
    if ns == 0 {
        assert(old(v)@ + fraction_text(ns as int) =~= old(v)@);
    } else if ns % 1_000_000 == 0 {
        v.push(46);
        push_decimal(v, ns / 1_000_000, 3);
        assert(final(v)@ =~= old(v)@ + fraction_text(ns as int));
    } else if ns % 1000 == 0 {
        v.push(46);
        push_decimal(v, ns / 1000, 6);
        assert(final(v)@ =~= old(v)@ + fraction_text(ns as int));
    } else {
        v.push(46);
        push_decimal(v, ns, 9);
        assert(final(v)@ =~= old(v)@ + fraction_text(ns as int));
    }
}

/// The bytes of the canonical text, without quotes.
fn raw_bytes(t: &Datetime, v: &mut Vec<u8>)
    requires
        t.wf(),
    ensures
        final(v)@ == old(v)@ + raw_text(*t),
{
    let shifted = (t.secs + MAX_SECS + 1) as u64;
    let day = (shifted / (SECS_PER_DAY as u64)) as i64 - (MAX_DAYS as i64);
    let sd = (shifted % (SECS_PER_DAY as u64)) as u32;
    assert(day == t.day() && sd == t.second_of_day());
    let (y, mo, d) = days_to_date(day as i32);
    proof {
        lemma_year_bound(y as int, mo as int, d as int);
    }
    let ghost v0 = v@;
    push_year(v, y);
    v.push(45);
    push_decimal(v, mo, 2);
    v.push(45);
    push_decimal(v, d, 2);
    v.push(84);
    push_decimal(v, sd / 3600, 2);
    v.push(58);
    push_decimal(v, sd % 3600 / 60, 2);
    v.push(58);
    push_decimal(v, sd % 60, 2);
    push_fraction(v, t.nanos);
    v.push(90);
    assert(v@ =~= v0 + raw_text(*t));
}

impl Datetime {
    /// The canonical text of the instant, without quotes:
    /// `2012-04-24T02:25:43.511Z`.
    pub fn to_raw(&self) -> (r: String)
        requires
            self.wf(),
        ensures
            r@ == chars_of(raw_text(*self)),
    {
        let mut v: Vec<u8> = Vec::new();
        raw_bytes(self, &mut v);
        proof {
            lemma_raw_text_ascii(*self);
            assert(v@ =~= raw_text(*self));
        }
        ascii_to_string(v)
    }

    /// The instant as a literal: its canonical text between single quotes,
    /// `'2012-04-24T02:25:43.511Z'`.
    pub fn to_string(&self) -> (r: String)
        requires
            self.wf(),
        ensures
            r@ == chars_of(literal_text(*self)),
    {
        let mut v: Vec<u8> = Vec::new();
        v.push(39);
        raw_bytes(self, &mut v);
        v.push(39);
        proof {
            lemma_raw_text_ascii(*self);
            assert(v@ =~= literal_text(*self));
        }
        ascii_to_string(v)
    }
}

pub proof fn lemma_raw_text_ascii(t: Datetime)
    ensures
        is_ascii_bytes(raw_text(t)),
{
    let c = date_of_day(t.day());
    let sd = t.second_of_day();
    let ns = t.nanos as int;
    lemma_decimal_ascii(c.0, 4);
    lemma_decimal_ascii(-c.0, 4);
    lemma_decimal_ascii(-c.0, 5);
    lemma_decimal_ascii(c.0, 5);
    lemma_decimal_ascii(c.1, 2);
    lemma_decimal_ascii(c.2, 2);
    lemma_decimal_ascii(sd / 3600, 2);
    lemma_decimal_ascii(sd % 3600 / 60, 2);
    lemma_decimal_ascii(sd % 60, 2);
    lemma_decimal_ascii(ns / 1_000_000, 3);
    lemma_decimal_ascii(ns / 1000, 6);
    lemma_decimal_ascii(ns, 9);
    assert(is_ascii_bytes(year_text(c.0)));
    assert(is_ascii_bytes(fraction_text(ns)));
}

} // verus!
