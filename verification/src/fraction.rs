//! Fractions of a second in the time part of ISO-8601 text.

use vstd::prelude::*;

use crate::temporal::{
    all_digits, decimal_value, find_t, is_digit_byte, lemma_decimal_bound, lemma_digit_run_end,
    lemma_find_t_skip, pow10, spec_fraction, spec_offset_at, spec_offset_tail, spec_parse_datetime,
    spec_parse_time,
};

verus! {

/// `z` ASCII zero digits.
pub open spec fn zeros(z: nat) -> Seq<u8> {
    Seq::new(z, |_i: int| 48u8)
}

/// `10^(a + b) = 10^a * 10^b`.
proof fn lemma_pow10_add(a: nat, b: nat)
    ensures
        pow10(a + b) == pow10(a) * pow10(b),
    decreases a,
{
    if a == 0 {
        assert(a + b == b);
        assert(pow10(0) == 1);
    } else {
        let c = (a - 1) as nat;
        lemma_pow10_add(c, b);
        assert(pow10(a) == 10 * pow10(c));
        assert(((a + b) - 1) as nat == c + b);
        assert(pow10(a + b) == 10 * pow10(c + b));
        let x = pow10(c);
        let y = pow10(b);
        assert(10 * (x * y) == (10 * x) * y) by (nonlinear_arith);
    }
}

/// Every power of ten is positive.
proof fn lemma_pow10_positive(n: nat)
    ensures
        pow10(n) > 0,
    decreases n,
{
    if n > 0 {
        lemma_pow10_positive((n - 1) as nat);
    }
}

/// Zeros after a run of digits multiply its value by a power of ten.
proof fn lemma_decimal_zeros(d: Seq<u8>, z: nat)
    ensures
        decimal_value(d + zeros(z)) == decimal_value(d) * pow10(z),
    decreases z,
{
    if z == 0 {
        assert(d + zeros(0) =~= d);
        assert(pow10(0) == 1);
    } else {
        let m = (z - 1) as nat;
        lemma_decimal_zeros(d, m);
        let s = d + zeros(z);
        assert(s.drop_last() =~= d + zeros(m));
        assert(s.last() == 48u8);
        assert(s.len() > 0);
        assert(decimal_value(s) == decimal_value(s.drop_last()) * 10 + (s.last() - 48) as nat);
        assert(decimal_value(s) == decimal_value(d + zeros(m)) * 10);
        assert(pow10(z) == 10 * pow10(m));
        let v = decimal_value(d);
        let p = pow10(m);
        assert((v * p) * 10 == v * (10 * p)) by (nonlinear_arith);
    }
}

/// An offset read after any prefix is the offset read from the start of
/// what follows, moved by the prefix's length.
proof fn lemma_offset_at_shift(x: Seq<u8>, c: Seq<u8>)
    ensures
        spec_offset_at(x + c, x.len() as int) == match spec_offset_at(c, 0) {
            Some((v, n)) => Some((v, n + x.len())),
            None => None,
        },
{
    let b = x + c;
    let o = x.len() as int;
    assert forall|j: int| 0 <= j < c.len() implies #[trigger] b[o + j] == c[j] by {}
    assert(b.len() == o + c.len());
    if c.len() > 0 { assert(b[o] == c[0]); }
    if c.len() > 1 { assert(b[o + 1] == c[1]); }
    if c.len() > 2 { assert(b[o + 2] == c[2]); }
    if c.len() > 3 { assert(b[o + 3] == c[3]); }
    if c.len() > 4 { assert(b[o + 4] == c[4]); }
    if c.len() > 5 { assert(b[o + 5] == c[5]); }
    if c.len() > 6 { assert(b[o + 6] == c[6]); }
    if c.len() > 7 { assert(b[o + 7] == c[7]); }
    if c.len() > 8 { assert(b[o + 8] == c[8]); }
}

/// How a time part ends depends only on what follows its fraction.
proof fn lemma_offset_tail_shift(x: Seq<u8>, c: Seq<u8>)
    ensures
        spec_offset_tail(x + c, x.len() as int) == spec_offset_tail(c, 0),
{
    let b = x + c;
    let o = x.len() as int;
    lemma_offset_at_shift(x, c);
    assert(b.len() == o + c.len());
    if c.len() > 0 {
        assert(b[o] == c[0]);
    }
}

/// The fraction after the dot at position 8 is the digit run `ds` that
/// follows it, scaled to nanoseconds.
proof fn lemma_fraction_run(b: Seq<u8>, ds: Seq<u8>)
    requires
        1 <= ds.len() <= 9,
        all_digits(ds),
        b.len() >= 9 + ds.len(),
        b[8] == 46u8,
        b.subrange(9, 9 + ds.len() as int) == ds,
        b.len() == 9 + ds.len() || !is_digit_byte(b[9 + ds.len() as int]),
    ensures
        spec_fraction(b, 8) == Some(
            (
                (decimal_value(ds) * pow10((9 - ds.len()) as nat)) as u32,
                9 + ds.len() as int,
            ),
        ),
{
    let e = 9 + ds.len() as int;
    assert forall|k: int| 9 <= k < e implies is_digit_byte(#[trigger] b[k]) by {
        assert(b[k] == b.subrange(9, e)[k - 9]);
    }
    lemma_digit_run_end(b, 9, e);
}

/// Digits followed by zeros are all digits.
proof fn lemma_digits_zeros(d: Seq<u8>, z: nat)
    requires
        all_digits(d),
    ensures
        all_digits(d + zeros(z)),
{
    let s = d + zeros(z);
    assert forall|i: int| 0 <= i < s.len() implies is_digit_byte(#[trigger] s[i]) by {
        if i < d.len() {
            assert(s[i] == d[i]);
        } else {
            assert(s[i] == zeros(z)[i - d.len()]);
        }
    }
}

/// Scaling `d` followed by `z` zeros to nine digits gives what scaling `d`
/// gives, and that stays below `10^9`.
proof fn lemma_scaled_zeros(d: Seq<u8>, z: nat)
    requires
        1 <= d.len(),
        d.len() + z <= 9,
        all_digits(d),
    ensures
        decimal_value(d + zeros(z)) * pow10((9 - d.len() - z) as nat) == decimal_value(d) * pow10(
            (9 - d.len()) as nat,
        ),
        decimal_value(d) * pow10((9 - d.len()) as nat) < 1_000_000_000,
{
    let r = (9 - d.len() - z) as nat;
    let q = (9 - d.len()) as nat;
    lemma_decimal_zeros(d, z);
    lemma_pow10_add(z, r);
    assert(z + r == q);
    let v = decimal_value(d);
    let pz = pow10(z);
    let pr = pow10(r);
    assert((v * pz) * pr == v * (pz * pr)) by (nonlinear_arith);
    lemma_decimal_bound(d);
    lemma_pow10_add(d.len(), q);
    assert(d.len() + q == 9);
    assert(pow10(9) == 1_000_000_000) by {
        reveal_with_fuel(pow10, 10);
    }
    let pq = pow10(q);
    let pd = pow10(d.len());
    lemma_pow10_positive(q);
    assert(v * pq < pd * pq) by (nonlinear_arith)
        requires
            v < pd,
            pq > 0,
    ;
}

/// Two texts that agree on `HH:MM:SS`, whose fractions hold the same
/// nanoseconds, and whose parts after the fraction end alike, parse alike.
proof fn lemma_parse_time_congruence(b1: Seq<u8>, b2: Seq<u8>)
    requires
        b1.len() >= 9,
        b2.len() >= 9,
        forall|i: int| 0 <= i < 8 ==> #[trigger] b1[i] == b2[i],
        spec_fraction(b1, 8) is Some,
        spec_fraction(b2, 8) is Some,
        spec_fraction(b1, 8).unwrap().0 == spec_fraction(b2, 8).unwrap().0,
        spec_offset_tail(b1, spec_fraction(b1, 8).unwrap().1) == spec_offset_tail(
            b2,
            spec_fraction(b2, 8).unwrap().1,
        ),
    ensures
        spec_parse_time(b1) == spec_parse_time(b2),
{
    assert(b1[0] == b2[0] && b1[1] == b2[1] && b1[2] == b2[2] && b1[3] == b2[3]);
    assert(b1[4] == b2[4] && b1[5] == b2[5] && b1[6] == b2[6] && b1[7] == b2[7]);
}

/// Trailing zeros of a fraction change nothing: a time part `HH:MM:SS.`
/// followed by the digits `d`, then zeros, then a tail that does not start
/// with a digit, parses exactly as the same text without the zeros; and
/// the fraction counts `d` scaled to nine digits of nanoseconds.
pub proof fn law_fraction_trailing_zeros_time(hms: Seq<u8>, d: Seq<u8>, z: nat, tail: Seq<u8>)
    requires
        hms.len() == 8,
        1 <= d.len(),
        d.len() + z <= 9,
        all_digits(d),
        tail.len() == 0 || !is_digit_byte(tail[0]),
    ensures
        spec_parse_time(hms + seq![46u8] + d + zeros(z) + tail) == spec_parse_time(
            hms + seq![46u8] + d + tail,
        ),
        spec_parse_time(hms + seq![46u8] + d + tail) matches Ok(r) ==> r.3 == decimal_value(d)
            * pow10((9 - d.len()) as nat),
{
    let head = hms + seq![46u8];
    let dz = d + zeros(z);
    let long = head + dz;
    let short = head + d;
    let b1 = long + tail;
    let b2 = short + tail;
    assert(hms + seq![46u8] + d + zeros(z) + tail =~= b1);
    assert(hms + seq![46u8] + d + tail =~= b2);
    assert forall|i: int| 0 <= i < 8 implies #[trigger] b1[i] == b2[i] by {
        assert(b1[i] == hms[i]);
        assert(b2[i] == hms[i]);
    }
    lemma_digits_zeros(d, z);
    assert(b1[8] == 46u8);
    assert(b2[8] == 46u8);
    assert(b1.subrange(9, 9 + dz.len() as int) =~= dz);
    assert(b2.subrange(9, 9 + d.len() as int) =~= d);
    if tail.len() > 0 {
        assert(b1[9 + dz.len() as int] == tail[0]);
        assert(b2[9 + d.len() as int] == tail[0]);
    }
    lemma_fraction_run(b1, dz);
    lemma_fraction_run(b2, d);
    lemma_scaled_zeros(d, z);
    assert(long.len() == 9 + dz.len());
    assert(short.len() == 9 + d.len());
    lemma_offset_tail_shift(long, tail);
    lemma_offset_tail_shift(short, tail);
    lemma_parse_time_congruence(b1, b2);
}

/// A datetime `date T time` is read as its date before the first `T`
/// and its time after it.
proof fn lemma_split_at_t(date: Seq<u8>, time: Seq<u8>)
    requires
        forall|i: int| 0 <= i < date.len() ==> #[trigger] date[i] != 84u8,
    ensures
        ({
            let b = date + seq![84u8] + time;
            &&& find_t(b, 0) == Some(date.len() as int)
            &&& b.subrange(0, date.len() as int) == date
            &&& b.subrange(date.len() as int + 1, b.len() as int) == time
        }),
{
    let b = date + seq![84u8] + time;
    let t = date.len() as int;
    assert forall|k: int| 0 <= k < t implies #[trigger] b[k] != 84u8 by {
        assert(b[k] == date[k]);
    }
    lemma_find_t_skip(b, 0, t);
    assert(b[t] == 84u8);
    assert(b.subrange(0, t) =~= date);
    assert(b.subrange(t + 1, b.len() as int) =~= time);
}

/// Trailing zeros of a fraction change nothing in a whole datetime either:
/// `date T HH:MM:SS.` followed by the digits `d` and `z` zeros (`d` and the
/// zeros nine digits at most), then a tail that does not start with a
/// digit, parses exactly as the same text without the zeros, so
/// `...05.500Z` reads as `...05.5Z`.
pub proof fn law_fraction_trailing_zeros(
    date: Seq<u8>,
    hms: Seq<u8>,
    d: Seq<u8>,
    z: nat,
    tail: Seq<u8>,
)
    requires
        forall|i: int| 0 <= i < date.len() ==> #[trigger] date[i] != 84u8,
        hms.len() == 8,
        1 <= d.len(),
        d.len() + z <= 9,
        all_digits(d),
        tail.len() == 0 || !is_digit_byte(tail[0]),
    ensures
        spec_parse_datetime(date + seq![84u8] + hms + seq![46u8] + d + zeros(z) + tail)
            == spec_parse_datetime(date + seq![84u8] + hms + seq![46u8] + d + tail),
{
    let t1 = hms + seq![46u8] + d + zeros(z) + tail;
    let t2 = hms + seq![46u8] + d + tail;
    assert(date + seq![84u8] + hms + seq![46u8] + d + zeros(z) + tail =~= date + seq![84u8] + t1);
    assert(date + seq![84u8] + hms + seq![46u8] + d + tail =~= date + seq![84u8] + t2);
    lemma_split_at_t(date, t1);
    lemma_split_at_t(date, t2);
    law_fraction_trailing_zeros_time(hms, d, z, tail);
}

} // verus!
