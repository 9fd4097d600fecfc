//! Laws that relate the parser, the canonical text and the arithmetic.
use vstd::prelude::*;

use crate::calendar::{date_of_day, epoch_days, is_date_of, lemma_date_of_day};
use crate::datetime::{elapsed, Datetime};
use crate::field::{
    byte_at, digit_run, digits_at, digits_value, is_digit, lemma_digits_value_bound, pow10,
    spec_nanosecond, spec_sign,
    spec_year, spec_zone,
};
use crate::grammar::{
    spec_clock_fields, spec_construct, spec_date_fields, spec_nano, spec_quoted, spec_raw,
    spec_time, spec_delimited,
};
use crate::text::{
    chars_of, decimal, fraction_text, is_ascii_bytes, lemma_raw_text_ascii, literal_text, year_text,
};
use vstd::string::StringSliceAdditionalSpecFns;
use vstd::utf8::{encode_utf8, is_ascii_chars, is_ascii_chars_encode_utf8};

verus! {

proof fn lemma_decimal_digits(n: int, w: int)
    ensures
        decimal(n, w).len() == if w <= 0 {
            0
        } else {
            w
        },
        forall|i: int| 0 <= i < decimal(n, w).len() ==> is_digit(#[trigger] decimal(n, w)[i]),
    decreases w,
{
    if w > 0 {
        lemma_decimal_digits(n / 10, w - 1);
    }
}

/// `w` digits of `n` written at `p` read back as `n`.
proof fn lemma_read_decimal(s: Seq<u8>, p: int, n: int, w: int)
    requires
        1 <= w,
        0 <= p,
        p + w <= s.len(),
        0 <= n < pow10(w),
        forall|i: int| 0 <= i < w ==> s[p + i] == #[trigger] decimal(n, w)[i],
    ensures
        digits_at(s, p, w),
        digits_value(s, p, w) == n,
    decreases w,
{
    lemma_decimal_digits(n, w);
    assert forall|i: int| p <= i < p + w implies is_digit(#[trigger] s[i]) by {
        assert(s[p + (i - p)] == decimal(n, w)[i - p]);
    }
    if w > 1 {
        assert forall|i: int| 0 <= i < w - 1 implies s[p + i] == #[trigger] decimal(n / 10, w - 1)[i] by {
            assert(s[p + i] == decimal(n, w)[i]);
        }
        assert(pow10(w) == 10 * pow10(w - 1));
        lemma_read_decimal(s, p, n / 10, w - 1);
    } else {
        assert(pow10(1) == 10) by {
            reveal_with_fuel(pow10, 2);
        }
    }
    assert(s[p + (w - 1)] == decimal(n, w)[w - 1]);
    assert(decimal(n, w)[w - 1] == 48 + n % 10);
    assert(digits_value(s, p, w) == digits_value(s, p, w - 1) * 10 + (s[p + w - 1] - 48));
}

/// A run of exactly `k` digits.
proof fn lemma_digit_run(s: Seq<u8>, p: int, k: int)
    requires
        0 <= k,
        0 <= p,
        p + k < s.len(),
        forall|i: int| p <= i < p + k ==> is_digit(#[trigger] s[i]),
        !is_digit(s[p + k]),
    ensures
        digit_run(s, p) == k,
    decreases k,
{
    if k > 0 {
        lemma_digit_run(s, p + 1, k - 1);
    }
}

proof fn lemma_split_second_of_day(t: Datetime)
    ensures
        ({
            let sd = t.second_of_day();
            &&& 0 <= sd / 3600 < 24
            &&& 0 <= sd % 3600 / 60 < 60
            &&& 0 <= sd % 60 < 60
            &&& (sd / 3600) * 3600 + (sd % 3600 / 60) * 60 + sd % 60 == sd
            &&& t.day() * 86400 + sd == t.secs
        }),
{
    let sd = t.second_of_day();
    assert(0 <= sd < 86400);
    assert((sd % 3600) % 60 == sd % 60) by (nonlinear_arith)
        requires
            0 <= sd,
    ;
}

/// Where each piece of the canonical literal stands.
proof fn lemma_literal_layout(t: Datetime)
    ensures
        ({
            let c = date_of_day(t.day());
            let sd = t.second_of_day();
            let yt = year_text(c.0);
            let ft = fraction_text(t.nanos as int);
            let l = literal_text(t);
            let a: int = 1 + yt.len() as int;
            let fl: int = ft.len() as int;
            &&& l.len() == a + 17 + ft.len()
            &&& l[0] == 39
            &&& forall|i: int| 0 <= i < yt.len() ==> l[1 + i] == #[trigger] yt[i]
            &&& l[a] == 45
            &&& forall|i: int| 0 <= i < 2 ==> l[a + 1 + i] == #[trigger] decimal(c.1, 2)[i]
            &&& l[a + 3] == 45
            &&& forall|i: int| 0 <= i < 2 ==> l[a + 4 + i] == #[trigger] decimal(c.2, 2)[i]
            &&& l[a + 6] == 84
            &&& forall|i: int| 0 <= i < 2 ==> l[a + 7 + i] == #[trigger] decimal(sd / 3600, 2)[i]
            &&& l[a + 9] == 58
            &&& forall|i: int| 0 <= i < 2 ==> l[a + 10 + i] == #[trigger] decimal(sd % 3600 / 60, 2)[i]
            &&& l[a + 12] == 58
            &&& forall|i: int| 0 <= i < 2 ==> l[a + 13 + i] == #[trigger] decimal(sd % 60, 2)[i]
            &&& forall|i: int| 0 <= i < ft.len() ==> l[a + 15 + i] == #[trigger] ft[i]
            &&& l[a + 15 + fl] == 90
            &&& l[a + 16 + fl] == 39
        }),
{
    let c = date_of_day(t.day());
    let sd = t.second_of_day();
    lemma_decimal_digits(c.1, 2);
    lemma_decimal_digits(c.2, 2);
    lemma_decimal_digits(sd / 3600, 2);
    lemma_decimal_digits(sd % 3600 / 60, 2);
    lemma_decimal_digits(sd % 60, 2);
}

proof fn lemma_read_year(l: Seq<u8>, y: int)
    requires
        -9999 <= y <= 9999,
        1 + year_text(y).len() < l.len(),
        forall|i: int| 0 <= i < year_text(y).len() ==> l[1 + i] == #[trigger] year_text(y)[i],
    ensures
        spec_year(l, 1) == Some((y, 1 + year_text(y).len() as int)),
        year_text(y).len() == if y >= 0 { 4int } else { 5 },
{
    let yt = year_text(y);
    reveal_with_fuel(pow10, 5);
    lemma_decimal_digits(y, 4);
    lemma_decimal_digits(-y, 4);
    if y >= 0 {
        lemma_read_decimal(l, 1, y, 4);
        assert(is_digit(l[1]));
        assert(spec_sign(l, 1) is None);
        assert(digits_at(l, 1, 4));
        assert(spec_year(l, 1) == Some((y, 5int)));
    } else {
        assert forall|i: int| 0 <= i < 4 implies l[2 + i] == #[trigger] decimal(-y, 4)[i] by {
            assert(l[1 + (i + 1)] == yt[i + 1]);
        }
        lemma_read_decimal(l, 2, -y, 4);
        assert(l[1] == yt[0]);
        assert(spec_sign(l, 1) == Some((-1int, 2int)));
        assert(-1 * (-y) == y);
        assert(digits_at(l, 2, 4));
        assert(spec_year(l, 1) == Some((y, 6int)));
    }
}

proof fn lemma_read_fraction(l: Seq<u8>, p: int, ns: int)
    requires
        0 < ns < 1_000_000_000,
        0 <= p,
        p + fraction_text(ns).len() < l.len(),
        forall|i: int| 0 <= i < fraction_text(ns).len() ==> l[p + i] == #[trigger] fraction_text(ns)[i],
        l[p + fraction_text(ns).len()] == 90,
    ensures
        spec_nanosecond(l, p) == Some((ns, p + fraction_text(ns).len() as int)),
{
    let ft = fraction_text(ns);
    reveal_with_fuel(pow10, 10);
    let k: int = if ns % 1_000_000 == 0 {
        3
    } else if ns % 1000 == 0 {
        6
    } else {
        9
    };
    let x: int = if ns % 1_000_000 == 0 {
        ns / 1_000_000
    } else if ns % 1000 == 0 {
        ns / 1000
    } else {
        ns
    };
    lemma_decimal_digits(x, k);
    assert(ft == seq![46u8] + decimal(x, k));
    assert forall|i: int| 0 <= i < k implies l[p + 1 + i] == #[trigger] decimal(x, k)[i] by {
        assert(l[p + (i + 1)] == ft[i + 1]);
    }
    assert(l[p] == ft[0]);
    lemma_read_decimal(l, p + 1, x, k);
    lemma_digit_run(l, p + 1, k);
    if k == 3 {
        assert(pow10(9 - k) == 1_000_000);
        assert(x * 1_000_000 == ns) by (nonlinear_arith)
            requires
                ns % 1_000_000 == 0,
                x == ns / 1_000_000,
        ;
        assert(x * pow10(9 - k) == ns);
    } else if k == 6 {
        assert(pow10(9 - k) == 1000);
        assert(x * 1000 == ns) by (nonlinear_arith)
            requires
                ns % 1000 == 0,
                x == ns / 1000,
        ;
        assert(x * pow10(9 - k) == ns);
    } else {
        assert(pow10(9 - k) == 1);
        assert(x == ns);
        let m = pow10(9 - k);
        assert(x * m == ns) by (nonlinear_arith)
            requires
                m == 1,
                x == ns,
        ;
    }
}

/// Reading back the canonical literal of an instant gives the same instant and
/// takes the whole literal. This holds of every instant whose year in UTC has
/// at most four digits: those are the years that the grammar can write.
#[verifier::rlimit(60)]
pub proof fn law_round_trip(t: Datetime)
    requires
        t.wf(),
        -9999 <= date_of_day(t.day()).0 <= 9999,
    ensures
        spec_quoted(literal_text(t), 0) == Some((t, literal_text(t).len() as int)),
{
    let c = date_of_day(t.day());
    lemma_date_of_day(t.day());
    let y = c.0;
    let mo = c.1;
    let d = c.2;
    let sd = t.second_of_day();
    let h = sd / 3600;
    let mi = sd % 3600 / 60;
    let sec = sd % 60;
    let ns = t.nanos as int;
    lemma_split_second_of_day(t);
    let yt = year_text(y);
    let ft = fraction_text(ns);
    let l = literal_text(t);
    lemma_literal_layout(t);
    lemma_read_year(l, y);
    let a: int = 1 + yt.len() as int;
    let fl: int = ft.len() as int;
    reveal_with_fuel(pow10, 3);
    lemma_read_decimal(l, a + 1, mo, 2);
    lemma_read_decimal(l, a + 4, d, 2);
    lemma_read_decimal(l, a + 7, h, 2);
    lemma_read_decimal(l, a + 10, mi, 2);
    lemma_read_decimal(l, a + 13, sec, 2);
    assert(spec_date_fields(l, 1) == Some(((y, mo, d), a + 6)));
    assert(spec_clock_fields(l, a + 6) == Some(((h, mi, sec), a + 15)));
    assert(is_date_of(c, t.day()));
    assert(spec_construct(y, mo, d, h, mi, sec, ns, 0) == Some(t));
    if ns == 0 {
        assert(fl == 0);
        assert(spec_nanosecond(l, a + 15) is None);
        assert(spec_nano(l, 1) is None);
        assert(spec_zone(l, a + 15) == Some((0int, a + 16)));
        assert(spec_time(l, 1) == Some((t, a + 16)));
    } else {
        lemma_read_fraction(l, a + 15, ns);
        assert(spec_zone(l, a + 15 + fl) == Some((0int, a + 16 + fl)));
        assert(spec_nano(l, 1) == Some((t, a + 16 + fl)));
    }
    assert(spec_raw(l, 1) == Some((t, a + 16 + fl)));
    assert(spec_delimited(l, 0, 39) == Some((t, a + 17 + fl)));
}

/// The text of ASCII bytes, encoded again, is those bytes.
proof fn lemma_ascii_encoding(b: Seq<u8>)
    requires
        is_ascii_bytes(b),
    ensures
        encode_utf8(chars_of(b)) == b,
{
    let c = chars_of(b);
    assert(is_ascii_chars(c));
    is_ascii_chars_encode_utf8(c);
    assert(encode_utf8(c) =~= b);
}

/// What `to_string` gives for an instant reads back through `datetime` as the
/// same instant, taking the whole text (for years of at most four digits).
pub proof fn law_round_trip_text(t: Datetime, s: &str)
    requires
        t.wf(),
        -9999 <= date_of_day(t.day()).0 <= 9999,
        s@ == chars_of(literal_text(t)),
    ensures
        spec_quoted(s.spec_bytes(), 0) == Some((t, s.spec_bytes().len() as int)),
{
    lemma_raw_text_ascii(t);
    let l = literal_text(t);
    assert(is_ascii_bytes(l));
    lemma_ascii_encoding(l);
    law_round_trip(t);
}

/// Two wall-clock readings at two offsets that name the same instant give the
/// same `Datetime`, and so the same text, whatever the offsets were.
pub proof fn law_zone_normalization(
    y1: int, mo1: int, d1: int, h1: int, mi1: int, s1: int, off1: int,
    y2: int, mo2: int, d2: int, h2: int, mi2: int, s2: int, off2: int,
    ns: int,
)
    requires
        spec_construct(y1, mo1, d1, h1, mi1, s1, ns, off1) is Some,
        spec_construct(y2, mo2, d2, h2, mi2, s2, ns, off2) is Some,
        epoch_days(y1, mo1, d1) * 86400 + h1 * 3600 + mi1 * 60 + s1 - off1
            == epoch_days(y2, mo2, d2) * 86400 + h2 * 3600 + mi2 * 60 + s2 - off2,
    ensures
        spec_construct(y1, mo1, d1, h1, mi1, s1, ns, off1) == spec_construct(y2, mo2, d2, h2, mi2, s2, ns, off2),
        literal_text(spec_construct(y1, mo1, d1, h1, mi1, s1, ns, off1).unwrap())
            == literal_text(spec_construct(y2, mo2, d2, h2, mi2, s2, ns, off2).unwrap()),
{
}

/// Subtraction is total and never negative: `a - b` is a well-formed span for
/// every two instants, the span between them when `b` comes first, and no time
/// at all when `a` comes first.
pub proof fn law_elapsed_non_negative(a: Datetime, b: Datetime)
    requires
        a.wf(),
        b.wf(),
    ensures
        elapsed(a, b).wf(),
        elapsed(a, b).total_nanos() >= 0,
        a.total_nanos() >= b.total_nanos() ==> elapsed(a, b).total_nanos() == a.total_nanos() - b.total_nanos(),
        a.total_nanos() < b.total_nanos() ==> elapsed(a, b).secs == 0 && elapsed(a, b).nanos == 0,
{
    let d = a.total_nanos() - b.total_nanos();
    assert(d < 0x1_0000_0000_0000_0000 * 1_000_000_000) by (nonlinear_arith)
        requires
            d == a.secs * 1_000_000_000 + a.nanos - (b.secs * 1_000_000_000 + b.nanos),
            a.secs <= 431_999_999_999,
            b.secs >= -431_999_999_999,
            a.nanos < 1_000_000_000,
    ;
}

proof fn lemma_pow10_add(a: int, b: int)
    requires
        0 <= a,
        0 <= b,
    ensures
        pow10(a + b) == pow10(a) * pow10(b),
    decreases a,
{
    if a > 0 {
        lemma_pow10_add(a - 1, b);
        assert(pow10(a) * pow10(b) == 10 * (pow10(a - 1) * pow10(b))) by (nonlinear_arith)
            requires
                pow10(a) == 10 * pow10(a - 1),
        ;
    }
}

/// A run of digits is made of digits.
proof fn lemma_run_is_digits(s: Seq<u8>, p: int, d: int)
    requires
        0 <= p <= s.len(),
        0 <= d <= digit_run(s, p),
    ensures
        digits_at(s, p, d),
    decreases d,
{
    if d > 0 {
        assert(0 <= p < s.len() && is_digit(s[p]));
        lemma_run_is_digits(s, p + 1, d - 1);
        assert forall|i: int| p <= i < p + d implies is_digit(#[trigger] s[i]) by {
            if i > p {
                assert(digits_at(s, p + 1, d - 1));
            }
        }
    }
}

/// A fraction of a second reads as less than a second.
proof fn lemma_nanosecond_bound(s: Seq<u8>, p: int)
    requires
        0 <= p,
    ensures
        spec_nanosecond(s, p) matches Some((v, _)) ==> 0 <= v < 1_000_000_000,
{
    let d = digit_run(s, p + 1);
    if byte_at(s, p, 46) && 1 <= d <= 9 {
        lemma_run_is_digits(s, p + 1, d);
        lemma_digits_value_bound(s, p + 1, d);
        lemma_pow10_add(d, 9 - d);
        assert(pow10(9) == 1_000_000_000) by {
            reveal_with_fuel(pow10, 10);
        }
        let x = digits_value(s, p + 1, d);
        let m = pow10(9 - d);
        let big = pow10(d);
        assert(m >= 1) by {
            lemma_pow10_pos(9 - d);
        }
        assert(0 <= x * m < 1_000_000_000) by (nonlinear_arith)
            requires
                0 <= x < big,
                big * m == 1_000_000_000,
                m >= 1,
        ;
    }
}

proof fn lemma_pow10_pos(n: int)
    ensures
        pow10(n) >= 1,
    decreases n,
{
    if n > 0 {
        lemma_pow10_pos(n - 1);
    }
}

/// The nanoseconds of what the strict grammar reads are below one second.
proof fn lemma_raw_nanos(s: Seq<u8>)
    ensures
        spec_raw(s, 0) matches Some((t, _)) ==> t.nanos < 1_000_000_000,
{
    match spec_date_fields(s, 0) {
        None => {},
        Some((dt, q1)) => match spec_clock_fields(s, q1) {
            None => {},
            Some((cl, q2)) => {
                if q2 >= 0 {
                    lemma_nanosecond_bound(s, q2);
                }
            },
        },
    }
}

/// Two literals that name the same instant, whatever their offsets (`Z`,
/// `+00:00` and `-00:00` all being UTC), read as the same `Datetime` and so have
/// the same canonical text, which is written in UTC.
pub proof fn law_zone_normalization_text(s1: Seq<u8>, s2: Seq<u8>)
    requires
        spec_raw(s1, 0) is Some,
        spec_raw(s2, 0) is Some,
        spec_raw(s1, 0).unwrap().0.total_nanos() == spec_raw(s2, 0).unwrap().0.total_nanos(),
    ensures
        spec_raw(s1, 0).unwrap().0 == spec_raw(s2, 0).unwrap().0,
        literal_text(spec_raw(s1, 0).unwrap().0) == literal_text(spec_raw(s2, 0).unwrap().0),
{
    lemma_raw_nanos(s1);
    lemma_raw_nanos(s2);
    let t1 = spec_raw(s1, 0).unwrap().0;
    let t2 = spec_raw(s2, 0).unwrap().0;
    assert(t1.secs == t2.secs) by (nonlinear_arith)
        requires
            t1.secs * 1_000_000_000 + t1.nanos == t2.secs * 1_000_000_000 + t2.nanos,
            0 <= t1.nanos < 1_000_000_000,
            0 <= t2.nanos < 1_000_000_000,
    ;
}

/// The canonical literal of any instant is its UTC text between single quotes,
/// ending in `Z`: after the date no `+` or `-` appears, so it never carries a
/// numeric offset, whatever offset the instant was read with.
pub proof fn law_text_in_utc(t: Datetime)
    ensures
        ({
            let l = literal_text(t);
            let a: int = 1 + year_text(date_of_day(t.day()).0).len() as int;
            &&& l.len() >= 3
            &&& l[0] == 39
            &&& l[l.len() - 1] == 39
            &&& l[l.len() - 2] == 90
            &&& forall|i: int| a <= i < l.len() ==> #[trigger] l[i] != 43 && l[i] != 45 || i == a || i == a + 3
        }),
{
    let c = date_of_day(t.day());
    let sd = t.second_of_day();
    let ns = t.nanos as int;
    let l = literal_text(t);
    let yt = year_text(c.0);
    let ft = fraction_text(ns);
    let a: int = 1 + yt.len() as int;
    let fl: int = ft.len() as int;
    lemma_literal_layout(t);
    lemma_decimal_digits(c.1, 2);
    lemma_decimal_digits(c.2, 2);
    lemma_decimal_digits(sd / 3600, 2);
    lemma_decimal_digits(sd % 3600 / 60, 2);
    lemma_decimal_digits(sd % 60, 2);
    lemma_decimal_digits(ns / 1_000_000, 3);
    lemma_decimal_digits(ns / 1000, 6);
    lemma_decimal_digits(ns, 9);
    assert forall|i: int| 0 <= i < fl implies #[trigger] ft[i] != 43 && ft[i] != 45 by {
        if i > 0 {
            assert(is_digit(ft[i]));
        }
    }
    assert forall|i: int| a <= i < l.len() implies #[trigger] l[i] != 43 && l[i] != 45 || i == a || i == a + 3 by {
        if a + 1 <= i < a + 3 {
            assert(l[a + 1 + (i - a - 1)] == decimal(c.1, 2)[i - a - 1]);
        } else if a + 4 <= i < a + 6 {
            assert(l[a + 4 + (i - a - 4)] == decimal(c.2, 2)[i - a - 4]);
        } else if a + 7 <= i < a + 9 {
            assert(l[a + 7 + (i - a - 7)] == decimal(sd / 3600, 2)[i - a - 7]);
        } else if a + 10 <= i < a + 12 {
            assert(l[a + 10 + (i - a - 10)] == decimal(sd % 3600 / 60, 2)[i - a - 10]);
        } else if a + 13 <= i < a + 15 {
            assert(l[a + 13 + (i - a - 13)] == decimal(sd % 60, 2)[i - a - 13]);
        } else if a + 15 <= i < a + 15 + fl {
            assert(l[a + 15 + (i - a - 15)] == ft[i - a - 15]);
        }
    }
}

/// A canonical literal whose year needs five digits does not read back: the
/// grammar's years have four.
proof fn lemma_long_year_unreadable(t: Datetime)
    requires
        !(-9999 <= date_of_day(t.day()).0 <= 9999),
    ensures
        spec_quoted(literal_text(t), 0) is None,
{
    let y = date_of_day(t.day()).0;
    let l = literal_text(t);
    let yt = year_text(y);
    lemma_literal_layout(t);
    let m = if y > 0 { y } else { -y };
    lemma_decimal_digits(m, 5);
    assert(yt == seq![if y > 0 { 43u8 } else { 45u8 }] + decimal(m, 5));
    assert(l[1] == yt[0]);
    assert(l[6int] == yt[5int]);
    assert(is_digit(yt[5]));
    assert(spec_date_fields(l, 1) is None);
    assert(spec_raw(l, 1) is None);
}

/// Writing an instant, reading the text back and writing again gives the same
/// text, whenever the text reads back at all.
pub proof fn law_canonical_fixpoint_text(t: Datetime)
    requires
        t.wf(),
        spec_quoted(literal_text(t), 0) is Some,
    ensures
        literal_text(spec_quoted(literal_text(t), 0).unwrap().0) == literal_text(t),
{
    if !(-9999 <= date_of_day(t.day()).0 <= 9999) {
        lemma_long_year_unreadable(t);
    }
    law_round_trip(t);
}

} // verus!
