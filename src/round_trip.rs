//! Formatting a quantity and parsing the text back: the proof that the
//! formatter's texts read back as values that format the same way.

use crate::error::PhysicErrorView;
use crate::physic::{
    band_exp,
    band_symbol,
    body_end,
    decimal_text,
    digit_char,
    digit_value,
    digits,
    digits_value,
    exponent,
    frac_len,
    is_digit,
    is_negative,
    is_numeral_char,
    is_unit,
    magnitude,
    nano_text,
    normalized,
    numeral_body,
    numeral_error,
    numeral_len,
    parse_quantity,
    points,
    pow10,
    quantity_text,
    rounded_div,
    si_prefix,
    sign_len,
    significand,
    trailing_zeros,
    unit_symbol,
    zero_padded,
    maxInt64,
    lemma_digits_value_prefix,
    Quantity,
};
use vstd::prelude::*;

verus! {

proof fn lemma_pow10_positive(n: nat)
    ensures
        pow10(n) >= 1,
    decreases n,
{
    if n > 0 {
        lemma_pow10_positive((n - 1) as nat);
    }
}

proof fn lemma_pow10_add(a: nat, b: nat)
    ensures
        pow10(a + b) == pow10(a) * pow10(b),
    decreases b,
{
    if b > 0 {
        let b1 = (b - 1) as nat;
        lemma_pow10_add(a, b1);
        assert(pow10(a + b) == 10 * pow10(a + b1));
        assert(pow10(b) == 10 * pow10(b1));
        let x = pow10(a);
        let y = pow10(b1);
        assert(x * (10 * y) == 10 * (x * y)) by (nonlinear_arith);
    }
}

proof fn lemma_pow10_monotone(a: nat, b: nat)
    requires
        a <= b,
    ensures
        pow10(a) <= pow10(b),
    decreases b,
{
    if a < b {
        lemma_pow10_monotone(a, (b - 1) as nat);
        lemma_pow10_positive((b - 1) as nat);
    }
}

proof fn lemma_decimal_text(n: nat)
    ensures
        decimal_text(n).len() >= 1,
        forall|i: int| 0 <= i < decimal_text(n).len() ==> is_digit(#[trigger] decimal_text(n)[i]),
        digits_value(decimal_text(n)) == n,
        n < 1000 ==> decimal_text(n).len() <= 3,
        n < 100 ==> decimal_text(n).len() <= 2,
        n < 10 ==> decimal_text(n).len() == 1,
    decreases n,
{
    let t = decimal_text(n);
    let c = digit_char(n % 10);
    assert(digit_value(c) == n % 10);
    assert(digits_value(t) == digits_value(t.drop_last()) * 10 + digit_value(t.last()));
    if n < 10 {
        assert(t.drop_last() =~= Seq::<char>::empty());
        assert(t.last() == c);
    } else {
        lemma_decimal_text(n / 10);
        let p = decimal_text(n / 10);
        assert(t.drop_last() =~= p);
        assert(t.last() == c);
        assert(n == (n / 10) * 10 + n % 10);
        assert forall|i: int| 0 <= i < t.len() implies is_digit(#[trigger] t[i]) by {
            if i < p.len() {
                assert(t[i] == p[i]);
            }
        }
    }
}

proof fn lemma_body_end_run(s: Seq<char>, i: int, j: int)
    requires
        0 <= i <= j <= s.len(),
        forall|k: int| i <= k < j ==> is_numeral_char(#[trigger] s[k]),
        j == s.len() || !is_numeral_char(s[j]),
    ensures
        body_end(s, i) == j,
    decreases j - i,
{
    if i < j {
        lemma_body_end_run(s, i + 1, j);
    }
}

pub open spec fn all_digits(a: Seq<char>) -> bool {
    forall|i: int| 0 <= i < a.len() ==> is_digit(#[trigger] a[i])
}

proof fn lemma_plain_digits(a: Seq<char>)
    requires
        all_digits(a),
    ensures
        points(a) == 0,
        digits(a) == a,
        frac_len(a) == 0,
    decreases a.len(),
{
    if a.len() > 0 {
        lemma_plain_digits(a.drop_last());
        assert(a.drop_last().push(a.last()) =~= a);
    }
}

proof fn lemma_point_digits(a: Seq<char>, b: Seq<char>)
    requires
        all_digits(a),
        all_digits(b),
    ensures
        points(a + seq!['.'] + b) == 1,
        digits(a + seq!['.'] + b) == a + b,
        frac_len(a + seq!['.'] + b) == b.len(),
    decreases b.len(),
{
    let body = a + seq!['.'] + b;
    if b.len() == 0 {
        assert(body.drop_last() =~= a);
        assert(body =~= a + seq!['.']);
        assert(a + b =~= a);
        lemma_plain_digits(a);
    } else {
        let b0 = b.drop_last();
        lemma_point_digits(a, b0);
        assert(body.drop_last() =~= a + seq!['.'] + b0);
        assert((a + b0).push(b.last()) =~= a + b);
    }
}

proof fn lemma_digits_value_append(a: Seq<char>, b: Seq<char>)
    ensures
        digits_value(a + b) == digits_value(a) * pow10(b.len()) + digits_value(b),
    decreases b.len(),
{
    if b.len() == 0 {
        assert(a + b =~= a);
    } else {
        let b0 = b.drop_last();
        lemma_digits_value_append(a, b0);
        assert((a + b).drop_last() =~= a + b0);
        assert((a + b).last() == b.last());
        assert(pow10(b.len()) == 10 * pow10(b0.len()));
        let x = digits_value(a);
        let p = pow10(b0.len());
        let y = digits_value(b0);
        assert((x * p + y) * 10 == x * (10 * p) + y * 10) by (nonlinear_arith);
    }
}

proof fn lemma_zeros_value(n: nat)
    ensures
        digits_value(Seq::new(n, |i: int| '0')) == 0,
    decreases n,
{
    if n > 0 {
        lemma_zeros_value((n - 1) as nat);
        assert(Seq::new(n, |i: int| '0').drop_last() =~= Seq::new((n - 1) as nat, |i: int| '0'));
    }
}

/// The significand times ten to the count of trailing zeros gives back all the digits.
proof fn lemma_significand_scale(ds: Seq<char>)
    ensures
        trailing_zeros(ds) <= ds.len(),
        digits_value(ds.take(ds.len() - trailing_zeros(ds))) * pow10(trailing_zeros(ds))
            == digits_value(ds),
    decreases ds.len(),
{
    let tz = trailing_zeros(ds);
    let k = ds.len() - tz;
    if ds.len() == 0 {
        assert(ds.take(0) =~= ds);
        assert(pow10(0) == 1);
        assert(digits_value(ds.take(k)) * pow10(tz) == digits_value(ds));
    } else if ds.last() == '0' {
        let d0 = ds.drop_last();
        lemma_significand_scale(d0);
        let tz0 = trailing_zeros(d0);
        assert(tz == tz0 + 1);
        assert(k == d0.len() - tz0);
        assert(ds.take(k) =~= d0.take(k));
        let x = digits_value(d0.take(k));
        let p = pow10(tz0);
        assert(digits_value(ds.take(k)) == x);
        assert(digits_value(d0) == x * p);
        assert(digits_value(ds) == digits_value(d0) * 10);
        assert(pow10(tz) == 10 * p);
        assert(x * (10 * p) == (x * p) * 10) by (nonlinear_arith);
        assert(digits_value(ds.take(k)) * pow10(tz) == digits_value(ds));
    } else {
        assert(tz == 0);
        assert(pow10(0) == 1);
        assert(ds.take(ds.len() as int) =~= ds);
        assert(digits_value(ds.take(k)) * pow10(tz) == digits_value(ds));
    }
}

/// The numeral `a.b` (or `a` alone without a point).
pub open spec fn numeral_of(a: Seq<char>, b: Seq<char>, point: bool) -> Seq<char> {
    if point {
        a + seq!['.'] + b
    } else {
        a
    }
}

/// Reading a numeral of digits with an optional point, after an optional
/// minus sign, and before a character that cannot continue it.
proof fn lemma_read_numeral(
    t: Seq<char>,
    sign: Seq<char>,
    a: Seq<char>,
    b: Seq<char>,
    point: bool,
    tail: Seq<char>,
)
    requires
        sign == seq!['-'] || sign.len() == 0,
        a.len() >= 1,
        all_digits(a),
        all_digits(b),
        !point ==> b.len() == 0,
        tail.len() >= 1,
        !is_numeral_char(tail[0]),
        t == sign + numeral_of(a, b, point) + tail,
        digits_value(a + b) <= maxInt64,
    ensures
        numeral_error(t) is None,
        numeral_len(t) == sign.len() + numeral_of(a, b, point).len(),
        is_negative(t) == (sign.len() == 1),
        digits_value(a + b) == 0 ==> significand(t) == 0 && exponent(t) == 0,
        digits_value(a + b) > 0 ==> significand(t) >= 1 && exponent(t) + b.len() >= 0
            && significand(t) * pow10((exponent(t) + b.len()) as nat) == digits_value(a + b),
{
    let nm = numeral_of(a, b, point);
    let sl = sign.len() as int;
    assert(t[sl] == a[0]);
    assert(sign_len(t) == sl);
    assert forall|k: int| sl <= k < sl + nm.len() implies is_numeral_char(#[trigger] t[k]) by {
        assert(t[k] == nm[k - sl]);
        if point && k - sl > a.len() {
            assert(nm[k - sl] == b[k - sl - a.len() - 1]);
        }
    }
    assert(t[sl + nm.len()] == tail[0]);
    lemma_body_end_run(t, sl, sl + nm.len());
    assert(numeral_body(t) =~= nm);
    let ds = a + b;
    if point {
        lemma_point_digits(a, b);
    } else {
        assert(ds =~= a);
        lemma_plain_digits(a);
    }
    assert(digits(nm) == ds);
    lemma_significand_scale(ds);
    let k = ds.len() - trailing_zeros(ds);
    lemma_digits_value_prefix(ds, k);
    lemma_pow10_positive(trailing_zeros(ds));
    let sig = significand(t);
    assert(sig == digits_value(ds.take(k)));
    assert(frac_len(nm) == b.len());
    if digits_value(ds) > 0 {
        let pz = pow10(trailing_zeros(ds));
        let dv = digits_value(ds);
        assert(sig != 0) by (nonlinear_arith)
            requires
                sig * pz == dv,
                dv > 0,
        ;
        assert(exponent(t) == trailing_zeros(ds) - b.len());
    }
}

/// A record whose exact value is an integer that fits normalizes to it.
proof fn lemma_normalized_exact(sig: nat, exp: int, neg: bool, scale: int, value: int)
    requires
        sig >= 1,
        exp + scale >= 0,
        sig * pow10((exp + scale) as nat) == value,
        value <= maxInt64,
    ensures
        normalized(sig, exp, neg, scale) == Some(
            if neg {
                -value
            } else {
                value
            },
        ),
{
    let mag = (exp + scale) as nat;
    let p = pow10(mag);
    lemma_pow10_positive(mag);
    assert(sig * p >= p) by (nonlinear_arith)
        requires
            sig >= 1,
            p >= 1,
    ;
    if mag > 18 {
        lemma_pow10_monotone(19, mag);
        reveal_with_fuel(pow10, 20);
        assert(pow10(19) == 10000000000000000000);
    }
}

/// The band of a magnitude of at least 1000, and the rounded quotient in it,
/// are found again from that quotient scaled back.
proof fn lemma_band(m: int)
    requires
        1000 <= m <= maxInt64,
    ensures
        ({
            let e = band_exp(m);
            let p = pow10(e);
            let q = rounded_div(m, p);
            &&& e == 0 || e == 3 || e == 6 || e == 9 || e == 12 || e == 15
            &&& e == 0 ==> p == 1
            &&& e == 3 ==> p == 1000
            &&& e == 6 ==> p == 1000000
            &&& e == 9 ==> p == 1000000000
            &&& e == 12 ==> p == 1000000000000
            &&& e == 15 ==> p == 1000000000000000
            &&& 1000 <= q
            &&& q * p <= maxInt64
            &&& band_exp(q * p) == e
            &&& rounded_div(q * p, p) == q
        }),
{
    reveal_with_fuel(pow10, 16);
    let e = band_exp(m);
    let p = pow10(e);
    let q = rounded_div(m, p);
    lemma_pow10_positive(e);
    if e == 15 {
        assert(p == 1000000000000000);
        vstd::arithmetic::div_mod::lemma_fundamental_div_mod(m + 500000000000000, 1000000000000000);
        vstd::arithmetic::div_mod::lemma_mod_pos_bound(m + 500000000000000, 1000000000000000);
        let d = (m + 500000000000000) / 1000000000000000;
        let r = (m + 500000000000000) % 1000000000000000;
        assert(m + 500000000000000 == 1000000000000000 * d + r);
        assert(q == d);
        assert(1000 <= q <= 9223);
    } else if e == 12 {
        assert(p == 1000000000000);
        vstd::arithmetic::div_mod::lemma_fundamental_div_mod(m + 500000000000, 1000000000000);
        vstd::arithmetic::div_mod::lemma_mod_pos_bound(m + 500000000000, 1000000000000);
        let d = (m + 500000000000) / 1000000000000;
        let r = (m + 500000000000) % 1000000000000;
        assert(m + 500000000000 == 1000000000000 * d + r);
        assert(q == d);
        assert(1000 <= q <= 999999);
    } else if e == 9 {
        assert(p == 1000000000);
        vstd::arithmetic::div_mod::lemma_fundamental_div_mod(m + 500000000, 1000000000);
        vstd::arithmetic::div_mod::lemma_mod_pos_bound(m + 500000000, 1000000000);
        let d = (m + 500000000) / 1000000000;
        let r = (m + 500000000) % 1000000000;
        assert(m + 500000000 == 1000000000 * d + r);
        assert(q == d);
        assert(1000 <= q <= 999999);
    } else if e == 6 {
        assert(p == 1000000);
        vstd::arithmetic::div_mod::lemma_fundamental_div_mod(m + 500000, 1000000);
        vstd::arithmetic::div_mod::lemma_mod_pos_bound(m + 500000, 1000000);
        let d = (m + 500000) / 1000000;
        let r = (m + 500000) % 1000000;
        assert(m + 500000 == 1000000 * d + r);
        assert(q == d);
        assert(1000 <= q <= 999999);
    } else if e == 3 {
        assert(p == 1000);
        vstd::arithmetic::div_mod::lemma_fundamental_div_mod(m + 500, 1000);
        vstd::arithmetic::div_mod::lemma_mod_pos_bound(m + 500, 1000);
        let d = (m + 500) / 1000;
        let r = (m + 500) % 1000;
        assert(m + 500 == 1000 * d + r);
        assert(q == d);
        assert(1000 <= q <= 999999);
    } else {
        assert(p == 1);
        assert(q == m);
    }
    assert((q * p + p / 2) / p == q) by {
        vstd::arithmetic::div_mod::lemma_fundamental_div_mod_converse(q * p + p / 2, p, q, p / 2);
    }
    assert(rounded_div(q * p, p) == q);
}

/// Where the numeral of `t` reads without error, is followed by the SI
/// prefix `t[n]` (or by none) and then by exactly the unit, parsing `t` gives
/// the normalized value.
proof fn lemma_parse_parts(t: Seq<char>, k: Quantity, w: int)
    requires
        numeral_error(t) is None,
        numeral_len(t) < t.len(),
        t[numeral_len(t)] != '\0' && t[numeral_len(t)] != '\u{1}',
        normalized(
            significand(t),
            exponent(t),
            is_negative(t),
            si_prefix(t[numeral_len(t)]).0 + 9,
        ) == Some(w),
        is_unit(
            k,
            t.subrange(
                numeral_len(t) + if si_prefix(t[numeral_len(t)]).1 > 0 {
                    1int
                } else {
                    0int
                },
                t.len() as int,
            ),
        ),
    ensures
        parse_quantity(t, k) == Ok::<int, PhysicErrorView>(w),
{
}

/// Facts on the unit symbol that parsing needs.
proof fn lemma_unit_symbol(k: Quantity)
    ensures
        unit_symbol(k).len() == 1,
        !is_numeral_char(unit_symbol(k)[0]),
        si_prefix(unit_symbol(k)[0]) == (0int, 0int),
        unit_symbol(k)[0] != '\0' && unit_symbol(k)[0] != '\u{1}',
        is_unit(k, unit_symbol(k)),
{
}

proof fn lemma_round_trip_zero(v: i64, k: Quantity) -> (w: int)
    requires
        v == 0,
    ensures
        parse_quantity(quantity_text(v as int, k), k) == Ok::<int, PhysicErrorView>(w),
        nano_text(w) == nano_text(v as int),
{
    let u = unit_symbol(k);
    let t = quantity_text(v as int, k);
    let empty = Seq::<char>::empty();
    lemma_unit_symbol(k);
    let a = seq!['0'];
    assert(t =~= empty + numeral_of(a, empty, false) + u);
    assert(a + empty =~= a);
    assert(digits_value(a) == digits_value(a.drop_last()) * 10 + digit_value(a.last()));
    assert(a.drop_last() =~= empty);
    lemma_read_numeral(t, empty, a, empty, false, u);
    assert(t.subrange(1, t.len() as int) =~= u);
    lemma_parse_parts(t, k, 0);
    0
}

proof fn lemma_round_trip_nano(v: i64, k: Quantity) -> (w: int)
    requires
        1 <= magnitude(v as int) < 1000,
    ensures
        parse_quantity(quantity_text(v as int, k), k) == Ok::<int, PhysicErrorView>(w),
        nano_text(w) == nano_text(v as int),
{
    let m = magnitude(v as int);
    let neg = v < 0;
    let sign: Seq<char> = if neg {
        seq!['-']
    } else {
        Seq::empty()
    };
    let u = unit_symbol(k);
    let t = quantity_text(v as int, k);
    let empty = Seq::<char>::empty();
    lemma_unit_symbol(k);
    let a = decimal_text(m as nat);
    let tail = seq!['n'] + u;
    lemma_decimal_text(m as nat);
    assert(t =~= sign + numeral_of(a, empty, false) + tail);
    assert(a + empty =~= a);
    lemma_read_numeral(t, sign, a, empty, false, tail);
    let n = numeral_len(t);
    assert(t[n] == 'n');
    lemma_normalized_exact(significand(t), exponent(t), neg, 0, m);
    assert(t.subrange(n + 1, t.len() as int) =~= u);
    let w = if neg {
        -m
    } else {
        m
    };
    lemma_parse_parts(t, k, w);
    assert(magnitude(w) == m);
    w
}

proof fn lemma_band_tail(k: Quantity, e: nat)
    requires
        e == 0 || e == 3 || e == 6 || e == 9 || e == 12 || e == 15,
    ensures
        ({
            let tail = band_symbol(e) + unit_symbol(k);
            &&& tail.len() >= 1
            &&& !is_numeral_char(tail[0])
            &&& tail[0] != '\0' && tail[0] != '\u{1}'
            &&& si_prefix(tail[0]).0 == e - 6
            &&& (si_prefix(tail[0]).1 > 0 <==> band_symbol(e).len() == 1)
            &&& band_symbol(e).len() <= 1
        }),
{
    lemma_unit_symbol(k);
}

#[verifier::rlimit(40)]
proof fn lemma_round_trip_band(v: i64, k: Quantity) -> (w: int)
    requires
        1000 <= magnitude(v as int),
    ensures
        parse_quantity(quantity_text(v as int, k), k) == Ok::<int, PhysicErrorView>(w),
        nano_text(w) == nano_text(v as int),
{
    let m = magnitude(v as int);
    let neg = v < 0;
    let sign: Seq<char> = if neg {
        seq!['-']
    } else {
        Seq::empty()
    };
    let u = unit_symbol(k);
    let t = quantity_text(v as int, k);
    lemma_band(m);
    let e = band_exp(m);
    let p = pow10(e);
    let q = rounded_div(m, p);
    let whole = q / 1000;
    let frac = q % 1000;
    let sym = band_symbol(e);
    let tail = sym + u;
    lemma_band_tail(k, e);
    if frac == 0 {
        assert(nano_text(v as int) == sign + decimal_text(whole as nat) + sym);
        assert(t =~= sign + decimal_text(whole as nat) + tail);
        lemma_read_whole(t, sign, whole, tail, neg, e, q);
    } else {
        let zp = zero_padded(3, decimal_text(frac as nat));
        assert(nano_text(v as int) == sign + decimal_text(whole as nat) + seq!['.'] + zp + sym);
        assert(t =~= sign + decimal_text(whole as nat) + seq!['.'] + zp + tail);
        lemma_read_fraction(t, sign, whole, frac, tail, neg, e, q);
    }
    let n = numeral_len(t);
    assert(t.subrange(n, t.len() as int) == tail);
    assert(t.subrange(n + sym.len(), t.len() as int) =~= tail.subrange(
        sym.len() as int,
        tail.len() as int,
    ));
    assert(tail.subrange(sym.len() as int, tail.len() as int) =~= u);
    let w = if neg {
        -(q * p)
    } else {
        q * p
    };
    lemma_unit_symbol(k);
    lemma_parse_parts(t, k, w);
    lemma_band_text(v as int, w);
    w
}

/// A value scaled back from the rounded quotient of its band formats as the original.
proof fn lemma_band_text(v: int, w: int)
    requires
        i64::MIN <= v <= i64::MAX,
        1000 <= magnitude(v),
        w == (if v < 0 {
            -(rounded_div(magnitude(v), pow10(band_exp(magnitude(v)))) * pow10(
                band_exp(magnitude(v)),
            ))
        } else {
            rounded_div(magnitude(v), pow10(band_exp(magnitude(v)))) * pow10(
                band_exp(magnitude(v)),
            )
        }),
    ensures
        nano_text(w) == nano_text(v),
{
    let m = magnitude(v);
    lemma_band(m);
    let e = band_exp(m);
    let p = pow10(e);
    let q = rounded_div(m, p);
    assert(magnitude(w) == q * p);
}

proof fn lemma_read_whole(
    t: Seq<char>,
    sign: Seq<char>,
    whole: int,
    tail: Seq<char>,
    neg: bool,
    e: nat,
    q: int,
)
    requires
        sign == (if neg {
            seq!['-']
        } else {
            Seq::empty()
        }),
        1 <= whole,
        q == whole * 1000,
        q * pow10(e) <= maxInt64,
        tail.len() >= 1,
        !is_numeral_char(tail[0]),
        t == sign + decimal_text(whole as nat) + tail,
    ensures
        numeral_error(t) is None,
        numeral_len(t) == sign.len() + decimal_text(whole as nat).len(),
        t.subrange(numeral_len(t), t.len() as int) == tail,
        normalized(significand(t), exponent(t), is_negative(t), e + 3 as int) == Some(
            if neg {
                -(q * pow10(e))
            } else {
                q * pow10(e)
            },
        ),
{
    let empty = Seq::<char>::empty();
    let a = decimal_text(whole as nat);
    lemma_decimal_text(whole as nat);
    assert(t =~= sign + numeral_of(a, empty, false) + tail);
    assert(a + empty =~= a);
    lemma_pow10_positive(e);
    assert(whole <= q * pow10(e)) by (nonlinear_arith)
        requires
            q == whole * 1000,
            pow10(e) >= 1,
            whole >= 1,
    ;
    lemma_read_numeral(t, sign, a, empty, false, tail);
    assert(t.subrange(numeral_len(t), t.len() as int) =~= tail);
    let sig = significand(t);
    let z = exponent(t);
    lemma_pow10_add(z as nat, (e + 3) as nat);
    lemma_pow10_add(e, 3);
    reveal_with_fuel(pow10, 4);
    let p = pow10(e);
    let pz = pow10(z as nat);
    assert(sig * (pz * (p * 1000)) == q * p) by (nonlinear_arith)
        requires
            sig * pz == whole,
            q == whole * 1000,
    ;
    lemma_normalized_exact(sig, z, neg, e + 3 as int, q * p);
}

proof fn lemma_read_fraction(
    t: Seq<char>,
    sign: Seq<char>,
    whole: int,
    frac: int,
    tail: Seq<char>,
    neg: bool,
    e: nat,
    q: int,
)
    requires
        sign == (if neg {
            seq!['-']
        } else {
            Seq::empty()
        }),
        0 <= whole,
        1 <= frac < 1000,
        q == whole * 1000 + frac,
        q * pow10(e) <= maxInt64,
        tail.len() >= 1,
        !is_numeral_char(tail[0]),
        t == sign + decimal_text(whole as nat) + seq!['.'] + zero_padded(
            3,
            decimal_text(frac as nat),
        ) + tail,
    ensures
        numeral_error(t) is None,
        numeral_len(t) == sign.len() + decimal_text(whole as nat).len() + 4,
        t.subrange(numeral_len(t), t.len() as int) == tail,
        normalized(significand(t), exponent(t), is_negative(t), e + 3 as int) == Some(
            if neg {
                -(q * pow10(e))
            } else {
                q * pow10(e)
            },
        ),
{
    let a = decimal_text(whole as nat);
    lemma_decimal_text(whole as nat);
    let b = zero_padded(3, decimal_text(frac as nat));
    lemma_decimal_text(frac as nat);
    let ft = decimal_text(frac as nat);
    let zs = Seq::new((3 - ft.len()) as nat, |i: int| '0');
    assert(b =~= zs + ft);
    lemma_zeros_value((3 - ft.len()) as nat);
    lemma_digits_value_append(zs, ft);
    assert(digits_value(b) == frac);
    assert(all_digits(b)) by {
        assert forall|i: int| 0 <= i < b.len() implies is_digit(#[trigger] b[i]) by {
            if i >= zs.len() {
                assert(b[i] == ft[i - zs.len()]);
            }
        }
    }
    assert(b.len() == 3);
    lemma_digits_value_append(a, b);
    reveal_with_fuel(pow10, 4);
    assert(pow10(3) == 1000);
    assert(digits_value(a + b) == q);
    lemma_pow10_positive(e);
    assert(q <= q * pow10(e)) by (nonlinear_arith)
        requires
            q >= 1,
            pow10(e) >= 1,
    ;
    assert(t =~= sign + numeral_of(a, b, true) + tail);
    lemma_read_numeral(t, sign, a, b, true, tail);
    assert(t.subrange(numeral_len(t), t.len() as int) =~= tail);
    let sig = significand(t);
    let z = exponent(t) + 3;
    lemma_pow10_add(z as nat, e);
    let p = pow10(e);
    let pz = pow10(z as nat);
    assert(sig * (pz * p) == q * p) by (nonlinear_arith)
        requires
            sig * pz == q,
    ;
    lemma_normalized_exact(sig, exponent(t), neg, e + 3 as int, q * p);
}

/// Formatting any value, then parsing the text as the same kind of
/// quantity, succeeds, and the value read formats to the same text: the
/// formatter's texts are fixed points of parsing followed by formatting.
pub proof fn lemma_format_parse_round_trip(v: i64, k: Quantity)
    ensures
        parse_quantity(quantity_text(v as int, k), k) is Ok,
        quantity_text(parse_quantity(quantity_text(v as int, k), k)->Ok_0, k) == quantity_text(
            v as int,
            k,
        ),
{
    let m = magnitude(v as int);
    let w = if m == 0 {
        lemma_round_trip_zero(v, k)
    } else if m < 1000 {
        lemma_round_trip_nano(v, k)
    } else {
        lemma_round_trip_band(v, k)
    };
}

} // verus!
