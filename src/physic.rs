use crate::error::{PhysicError, PhysicErrorView};
use vstd::prelude::*;
use vstd::string::*;

verus! {

/// A flow of electric charge, in nano-ampere.
pub type ElectricCurrent = i64;

pub const NanoAmpere: ElectricCurrent = 1;
pub const MicroAmpere: ElectricCurrent = 1000 * NanoAmpere;
pub const MilliAmpere: ElectricCurrent = 1000 * MicroAmpere;
pub const Ampere: ElectricCurrent = 1000 * MilliAmpere;
pub const KiloAmpere: ElectricCurrent = 1000 * Ampere;
pub const MegaAmpere: ElectricCurrent = 1000 * KiloAmpere;
pub const GigaAmpere: ElectricCurrent = 1000 * MegaAmpere;
pub const maxElectricCurrent: ElectricCurrent = 9223372036854775807 * NanoAmpere;
pub const minElectricCurrent: ElectricCurrent = -9223372036854775807 * NanoAmpere;

/// An electric potential, in nano-volt.
pub type ElectricPotential = i64;

pub const NanoVolt: ElectricPotential = 1;
pub const MicroVolt: ElectricPotential = 1000 * NanoVolt;
pub const MilliVolt: ElectricPotential = 1000 * MicroVolt;
pub const Volt: ElectricPotential = 1000 * MilliVolt;
pub const KiloVolt: ElectricPotential = 1000 * Volt;
pub const MegaVolt: ElectricPotential = 1000 * KiloVolt;
pub const GigaVolt: ElectricPotential = 1000 * MegaVolt;
pub const maxElectricPotential: ElectricPotential = 9223372036854775807 * NanoVolt;
pub const minElectricPotential: ElectricPotential = -9223372036854775807 * NanoVolt;

/// An electric resistance, in nano-ohm.
pub type ElectricResistance = i64;

pub const NanoOhm: ElectricResistance = 1;
pub const MicroOhm: ElectricResistance = 1000 * NanoOhm;
pub const MilliOhm: ElectricResistance = 1000 * MicroOhm;
pub const Ohm: ElectricResistance = 1000 * MilliOhm;
pub const KiloOhm: ElectricResistance = 1000 * Ohm;
pub const MegaOhm: ElectricResistance = 1000 * KiloOhm;
pub const GigaOhm: ElectricResistance = 1000 * MegaOhm;
pub const maxElectricResistance: ElectricResistance = 9223372036854775807 * NanoOhm;
pub const minElectricResistance: ElectricResistance = -9223372036854775807 * NanoOhm;

/// A power, in nano-watt.
pub type Power = i64;

pub const NanoWatt: Power = 1;
pub const MicroWatt: Power = 1000 * NanoWatt;
pub const MilliWatt: Power = 1000 * MicroWatt;
pub const Watt: Power = 1000 * MilliWatt;
pub const KiloWatt: Power = 1000 * Watt;
pub const MegaWatt: Power = 1000 * KiloWatt;
pub const GigaWatt: Power = 1000 * MegaWatt;
pub const maxPower: Power = 9223372036854775807 * NanoWatt;
pub const minPower: Power = -9223372036854775807 * NanoWatt;

/// A power of ten used as an SI prefix exponent.
pub type prefix = i32;

pub const Pico: prefix = -12;
pub const Nano: prefix = -9;
pub const Micro: prefix = -6;
pub const Milli: prefix = -3;
pub const Unit: prefix = 0;
pub const Deca: prefix = 1;
pub const Hecto: prefix = 2;
pub const Kilo: prefix = 3;
pub const Mega: prefix = 6;
pub const Giga: prefix = 9;
pub const Tera: prefix = 12;

/// The exponent and the UTF-8 length of the SI prefix written as `c`, or
/// `(0, 0)` where `c` is no prefix.
pub open spec fn si_prefix(c: char) -> (int, int) {
    if c == 'p' {
        (-12, 1)
    } else if c == 'n' {
        (-9, 1)
    } else if c == 'u' {
        (-6, 1)
    } else if c == '\u{b5}' {
        (-6, 2)
    } else if c == 'm' {
        (-3, 1)
    } else if c == 'k' {
        (3, 1)
    } else if c == 'M' {
        (6, 1)
    } else if c == 'G' {
        (9, 1)
    } else if c == 'T' {
        (12, 1)
    } else {
        (0, 0)
    }
}

/// Resolves an SI prefix symbol: its exponent and how many bytes it takes.
pub fn parseSIPrefix(r: char) -> (res: (prefix, usize))
    ensures
        (res.0 as int, res.1 as int) == si_prefix(r),
{
    match r {
        'p' => (Pico, 1),
        'n' => (Nano, 1),
        'u' => (Micro, 1),
        '\u{b5}' => (Micro, 2),
        'm' => (Milli, 1),
        'k' => (Kilo, 1),
        'M' => (Mega, 1),
        'G' => (Giga, 1),
        'T' => (Tera, 1),
        _ => (Unit, 0),
    }
}

/// The characters of `s`, in order.
pub fn chars_of(s: &str) -> (r: Vec<char>)
    ensures
        r@ == s@,
{
    let mut r: Vec<char> = Vec::new();
    for c in it: s.chars()
        invariant
            r@ == it.seq().take(it.index() as int),
    {
        r.push(c);
    }
    r
}


/// The largest magnitude a quantity or a significand may have.
pub const maxInt64: i64 = 9223372036854775807;

pub open spec fn is_digit(c: char) -> bool {
    '0' <= c && c <= '9'
}

pub open spec fn is_sign(c: char) -> bool {
    c == '+' || c == '-'
}

/// A character that may stand in the body of a numeral: a digit or a point.
pub open spec fn is_numeral_char(c: char) -> bool {
    is_digit(c) || c == '.'
}

pub open spec fn digit_value(c: char) -> nat {
    (c as u32 - '0' as u32) as nat
}

/// How many sign characters open `s`; only the first two matter.
pub open spec fn sign_len(s: Seq<char>) -> int {
    if s.len() > 0 && is_sign(s[0]) {
        if s.len() > 1 && is_sign(s[1]) {
            2
        } else {
            1
        }
    } else {
        0
    }
}

/// The index of the first character at or after `i` that is neither a digit nor a point.
pub open spec fn body_end(s: Seq<char>, i: int) -> int
    decreases s.len() - i,
{
    if 0 <= i < s.len() && is_numeral_char(s[i]) {
        body_end(s, i + 1)
    } else {
        i
    }
}

/// The digits and points that follow the sign of `s`.
pub open spec fn numeral_body(s: Seq<char>) -> Seq<char> {
    s.subrange(sign_len(s), body_end(s, sign_len(s)))
}

/// How many characters of `s` make up its numeral, sign included.
pub open spec fn numeral_len(s: Seq<char>) -> int {
    body_end(s, sign_len(s))
}

pub open spec fn points(b: Seq<char>) -> nat
    decreases b.len(),
{
    if b.len() == 0 {
        0
    } else {
        points(b.drop_last()) + if b.last() == '.' {
            1nat
        } else {
            0nat
        }
    }
}

/// The digits of `b`, in order, without its points.
pub open spec fn digits(b: Seq<char>) -> Seq<char>
    decreases b.len(),
{
    if b.len() == 0 {
        Seq::empty()
    } else if is_digit(b.last()) {
        digits(b.drop_last()).push(b.last())
    } else {
        digits(b.drop_last())
    }
}

/// How many digits of `b` follow its point.
pub open spec fn frac_len(b: Seq<char>) -> nat
    decreases b.len(),
{
    if b.len() == 0 {
        0
    } else if b.last() != '.' && points(b.drop_last()) > 0 {
        frac_len(b.drop_last()) + 1
    } else {
        0
    }
}

/// The number that the digits `ds` spell in base ten.
pub open spec fn digits_value(ds: Seq<char>) -> nat
    decreases ds.len(),
{
    if ds.len() == 0 {
        0
    } else {
        digits_value(ds.drop_last()) * 10 + digit_value(ds.last())
    }
}

/// How many zeros close `ds`.
pub open spec fn trailing_zeros(ds: Seq<char>) -> nat
    decreases ds.len(),
{
    if ds.len() == 0 {
        0
    } else if ds.last() == '0' {
        trailing_zeros(ds.drop_last()) + 1
    } else {
        0
    }
}

/// The significant digits of the numeral that opens `s`, as a number.
pub open spec fn significand(s: Seq<char>) -> nat {
    let ds = digits(numeral_body(s));
    digits_value(ds.take(ds.len() - trailing_zeros(ds)))
}

/// The power of ten by which the significand of `s` is scaled; zero for the number zero.
pub open spec fn exponent(s: Seq<char>) -> int {
    let b = numeral_body(s);
    if significand(s) == 0 {
        0
    } else {
        trailing_zeros(digits(b)) - frac_len(b)
    }
}

pub open spec fn is_negative(s: Seq<char>) -> bool {
    sign_len(s) == 1 && s[0] == '-'
}

/// What is wrong with the numeral that opens `s`, if anything.
pub open spec fn numeral_error(s: Seq<char>) -> Option<PhysicErrorView> {
    if sign_len(s) == 2 {
        if s[0] == '+' && s[1] == '+' {
            Some(PhysicErrorView::MultiplePlusSymbols)
        } else if s[0] == '-' && s[1] == '-' {
            Some(PhysicErrorView::MultipleMinusSymbols)
        } else {
            Some(PhysicErrorView::BothPlusAndMinusSymbols)
        }
    } else if points(numeral_body(s)) >= 2 {
        Some(PhysicErrorView::MultipleDecimalPoints)
    } else if digits(numeral_body(s)).len() == 0 {
        Some(PhysicErrorView::ErrNotANumber)
    } else if significand(s) > maxInt64 {
        if is_negative(s) {
            Some(PhysicErrorView::ErrOverFlowsInt64Negative)
        } else {
            Some(PhysicErrorView::ErrOverFlowsInt64)
        }
    } else {
        None
    }
}

/// A number as sign, significant digits and a power of ten:
/// `(-1)^neg * base * 10^exp`.
#[derive(Clone, Copy, Debug)]
pub struct decimal {
    pub base: u64,
    pub exp: i32,
    pub neg: bool,
}

impl decimal {
    /// The significand fits the positive range of `i64`.
    pub open spec fn wf(self) -> bool {
        self.base <= maxInt64
    }

    pub open spec fn is_zero_record(self) -> bool {
        self.base == 0 && self.exp == 0 && !self.neg
    }
}

proof fn lemma_points_prefix(b: Seq<char>, k: int)
    requires
        0 <= k <= b.len(),
    ensures
        points(b.take(k)) <= points(b),
    decreases b.len(),
{
    if k < b.len() {
        assert(b.drop_last().take(k) =~= b.take(k));
        lemma_points_prefix(b.drop_last(), k);
    } else {
        assert(b.take(k) =~= b);
    }
}

pub(crate) proof fn lemma_digits_value_prefix(ds: Seq<char>, k: int)
    requires
        0 <= k <= ds.len(),
    ensures
        digits_value(ds.take(k)) <= digits_value(ds),
    decreases ds.len(),
{
    if k < ds.len() {
        assert(ds.drop_last().take(k) =~= ds.take(k));
        lemma_digits_value_prefix(ds.drop_last(), k);
    } else {
        assert(ds.take(k) =~= ds);
    }
}

/// Reads the numeral that opens `s`: a sign, digits with at most one point.
/// Returns the number, how many characters (all ASCII, so also bytes) it
/// takes, and `Null`, or a zero record, 0 and what is wrong with it.
pub fn atod(s: &str) -> (res: (decimal, usize, PhysicError))
    requires
        s@.len() <= i32::MAX,
    ensures
        match numeral_error(s@) {
            Some(e) => res.2@ == e && res.1 == 0 && res.0.is_zero_record(),
            None => {
                &&& res.2@ == PhysicErrorView::Null
                &&& res.0.base == significand(s@)
                &&& res.0.exp == exponent(s@)
                &&& res.0.neg == is_negative(s@)
                &&& res.1 == numeral_len(s@)
            },
        },
        res.0.wf(),
{
    let cs = chars_of(s);
    atod_chars(&cs)
}

/// `atod` on the characters of a string.
#[verifier::loop_isolation(false)]
fn atod_chars(cs: &Vec<char>) -> (res: (decimal, usize, PhysicError))
    requires
        cs@.len() <= i32::MAX,
    ensures
        match numeral_error(cs@) {
            Some(e) => res.2@ == e && res.1 == 0 && res.0.is_zero_record(),
            None => {
                &&& res.2@ == PhysicErrorView::Null
                &&& res.0.base == significand(cs@)
                &&& res.0.exp == exponent(cs@)
                &&& res.0.neg == is_negative(cs@)
                &&& res.1 == numeral_len(cs@)
            },
        },
        res.0.wf(),
{
    let zero = decimal { base: 0, exp: 0, neg: false };
    let ghost s = cs@;
    let n = cs.len();
    let mut neg = false;
    let mut start: usize = 0;
    if n > 0 && (cs[0] == '+' || cs[0] == '-') {
        if n > 1 && (cs[1] == '+' || cs[1] == '-') {
            if cs[0] == '+' && cs[1] == '+' {
                return (zero, 0, PhysicError::MultiplePlusSymbols);
            } else if cs[0] == '-' && cs[1] == '-' {
                return (zero, 0, PhysicError::MultipleMinusSymbols);
            } else {
                return (zero, 0, PhysicError::BothPlusAndMinusSymbols);
            }
        }
        neg = cs[0] == '-';
        start = 1;
    }
    assert(start == sign_len(s));
    assert(neg == is_negative(s));
    let ghost whole = s;
    let mut ds: Vec<char> = Vec::new();
    let mut seen_point = false;
    let mut frac: usize = 0;
    let mut j: usize = start;
    while j < n && (('0' <= cs[j] && cs[j] <= '9') || cs[j] == '.')
        invariant
            cs@ == whole,
            whole == s,
            n == whole.len(),
            n <= i32::MAX,
            start == sign_len(whole),
            start <= j <= n,
            body_end(whole, start as int) == body_end(whole, j as int),
            ds@ == digits(whole.subrange(start as int, j as int)),
            points(whole.subrange(start as int, j as int)) == if seen_point {
                1nat
            } else {
                0nat
            },
            frac == frac_len(whole.subrange(start as int, j as int)),
            frac <= j,
            ds.len() <= j,
        decreases n - j,
    {
        let c = cs[j];
        let ghost before = whole.subrange(start as int, j as int);
        assert(whole.subrange(start as int, j + 1).drop_last() =~= before);
        if c == '.' {
            if seen_point {
                proof {
                    let body = numeral_body(whole);
                    lemma_body_end_bounds(whole, j + 1);
                    assert(body.take(j + 1 - start) =~= whole.subrange(start as int, j + 1));
                    lemma_points_prefix(body, j + 1 - start);
                }
                return (zero, 0, PhysicError::MultipleDecimalPoints);
            }
            seen_point = true;
        } else {
            ds.push(c);
            if seen_point {
                frac = frac + 1;
            }
        }
        j = j + 1;
    }
    let ghost body = whole.subrange(start as int, j as int);
    assert(body == numeral_body(whole));
    proof {
        lemma_digits_are_digits(body);
    }
    if ds.len() == 0 {
        return (zero, 0, PhysicError::ErrNotANumber);
    }
    let len = ds.len();
    let mut k: usize = len;
    assert(ds@.take(len as int) =~= ds@);
    while k > 0 && ds[k - 1] == '0'
        invariant
            k <= len,
            len == ds.len(),
            trailing_zeros(ds@) == trailing_zeros(ds@.take(k as int)) + (len - k),
            ds@ == digits(body),
        decreases k,
    {
        assert(ds@.take(k as int).drop_last() =~= ds@.take(k - 1));
        k = k - 1;
    }
    assert(trailing_zeros(ds@.take(k as int)) == 0);
    assert(k == len - trailing_zeros(ds@));
    let mut acc: u64 = 0;
    let mut m: usize = 0;
    assert(ds@.take(0) =~= Seq::<char>::empty());
    while m < k
        invariant
            k <= len,
            len == ds.len(),
            m <= k,
            acc == digits_value(ds@.take(m as int)),
            acc <= maxInt64,
            k == len - trailing_zeros(ds@),
            significand(whole) == digits_value(ds@.take(k as int)),
            forall|i: int| 0 <= i < ds.len() ==> is_digit(#[trigger] ds@[i]),
            neg == is_negative(whole),
            whole == s,
        decreases k - m,
    {
        let c = ds[m];
        assert(ds@.take(m + 1).drop_last() =~= ds@.take(m as int));
        let d = (c as u32 - '0' as u32) as u64;
        if acc > (9223372036854775807u64 - d) / 10 {
            proof {
                assert(digits_value(ds@.take(m + 1)) > maxInt64) by (nonlinear_arith)
                    requires
                        digits_value(ds@.take(m + 1)) == acc * 10 + d,
                        acc > (9223372036854775807u64 - d) / 10,
                        d <= 9,
                ;
                assert(ds@.take(k as int).take(m + 1) =~= ds@.take(m + 1));
                lemma_digits_value_prefix(ds@.take(k as int), m + 1);
            }
            if neg {
                return (zero, 0, PhysicError::ErrOverFlowsInt64Negative);
            }
            return (zero, 0, PhysicError::ErrOverFlowsInt64);
        }
        acc = acc * 10 + d;
        m = m + 1;
    }
    let exp: i32 = if acc == 0 {
        0
    } else {
        (len - k) as i32 - frac as i32
    };
    (decimal { base: acc, exp, neg }, j, PhysicError::Null)
}

pub open spec fn pow10(n: nat) -> int
    decreases n,
{
    if n == 0 {
        1
    } else {
        10 * pow10((n - 1) as nat)
    }
}

/// `10^n`, from a table of the powers that fit a `u64`.
pub fn pow10_u64(n: u32) -> (r: u64)
    requires
        n <= 18,
    ensures
        r == pow10(n as nat),
        1 <= r <= 1000000000000000000,
{
    proof {
        reveal_with_fuel(pow10, 19);
    }
    match n {
        0 => 1,
        1 => 10,
        2 => 100,
        3 => 1000,
        4 => 10000,
        5 => 100000,
        6 => 1000000,
        7 => 10000000,
        8 => 100000000,
        9 => 1000000000,
        10 => 10000000000,
        11 => 100000000000,
        12 => 1000000000000,
        13 => 10000000000000,
        14 => 100000000000000,
        15 => 1000000000000000,
        16 => 10000000000000000,
        17 => 100000000000000000,
        _ => 1000000000000000000,
    }
}

/// The number `(-1)^neg * base * 10^(exp + scale)` as an integer, its
/// discarded fraction rounded half away from zero; `None` where the total
/// power of ten lies beyond 18 either way, or the magnitude exceeds `maxInt64`.
/// Zero is zero at any power.
pub open spec fn normalized(base: nat, exp: int, neg: bool, scale: int) -> Option<int> {
    let mag = exp + scale;
    if base == 0 {
        Some(0)
    } else if mag > 18 || mag < -18 {
        None
    } else {
        let u = if mag < 0 {
            (base + pow10((-mag) as nat) / 2) / pow10((-mag) as nat)
        } else {
            base * pow10(mag as nat)
        };
        if u > maxInt64 {
            None
        } else if neg {
            Some(-u)
        } else {
            Some(u as int)
        }
    }
}

/// Scales a decimal record by `10^scale` into an integer: the value and
/// `false`, or 0 and `true` where it overflows.
pub fn normalize(d: decimal, scale: i32) -> (res: (i64, bool))
    requires
        d.wf(),
    ensures
        match normalized(d.base as nat, d.exp as int, d.neg, scale as int) {
            Some(v) => !res.1 && res.0 == v,
            None => res.1 && res.0 == 0,
        },
{
    if d.base == 0 {
        return (0, false);
    }
    let mag: i64 = d.exp as i64 + scale as i64;
    if mag > 18 || mag < -18 {
        return (0, true);
    }
    let u: u64 = if mag < 0 {
        let p = pow10_u64((-mag) as u32);
        (d.base + p / 2) / p
    } else {
        let p = pow10_u64(mag as u32);
        assert(d.base as u128 * p as u128 <= 9223372036854775807u128 * 1000000000000000000u128)
            by (nonlinear_arith)
            requires
                d.base <= 9223372036854775807u64,
                p <= 1000000000000000000u64,
        ;
        let wide: u128 = d.base as u128 * p as u128;
        if wide > 9223372036854775807u128 {
            return (0, true);
        }
        wide as u64
    };
    if u > 9223372036854775807u64 {
        return (0, true);
    }
    if d.neg {
        (-(u as i64), false)
    } else {
        (u as i64, false)
    }
}

/// Relies on `String::push`: appends the character `c` to the end of `s`.
#[verifier::external_body]
fn push_char(s: &mut String, c: char)
    ensures
        final(s)@ == old(s)@.push(c),
{
    s.push(c);
}

/// The character of the decimal digit `d`.
pub open spec fn digit_char(d: nat) -> char {
    ((48 + d) as u8) as char
}

/// The base-ten digits of `n`, most significant first, with no leading zero.
pub open spec fn decimal_text(n: nat) -> Seq<char>
    decreases n,
{
    if n < 10 {
        seq![digit_char(n)]
    } else {
        decimal_text(n / 10).push(digit_char(n % 10))
    }
}

/// `v` in base ten, with a minus sign where it is negative.
pub open spec fn int_text(v: int) -> Seq<char> {
    if v < 0 {
        seq!['-'] + decimal_text((-v) as nat)
    } else {
        decimal_text(v as nat)
    }
}

/// `t` with zeros put in front until it is `width` characters long.
pub open spec fn zero_padded(width: int, t: Seq<char>) -> Seq<char> {
    let k = if width > t.len() {
        width - t.len()
    } else {
        0
    };
    Seq::new(k as nat, |i: int| '0') + t
}

/// Appends the base-ten digits of `n` to `s`.
fn push_decimal(s: &mut String, n: u64)
    ensures
        final(s)@ == old(s)@ + decimal_text(n as nat),
    decreases n,
{
    let ghost start = s@;
    if n >= 10 {
        push_decimal(s, n / 10);
    }
    let d = (n % 10) as u8;
    push_char(s, (48u8 + d) as char);
    assert(s@ =~= start + decimal_text(n as nat));
}

/// The base-ten text of `v`, padded with leading zeros to `digits` characters.
pub fn prefixZeros(digits: i32, v: i32) -> (r: String)
    ensures
        r@ == zero_padded(digits as int, int_text(v as int)),
{
    let mut t = String::new();
    if v < 0 {
        push_char(&mut t, '-');
        push_decimal(&mut t, (-(v as i64)) as u64);
    } else {
        push_decimal(&mut t, v as u64);
    }
    assert(t@ =~= int_text(v as int));
    let len = t.as_str().unicode_len();
    let target: usize = if digits > 0 {
        digits as usize
    } else {
        0
    };
    let mut r = String::new();
    let mut str_len: usize = len;
    while str_len < target
        invariant
            len == t@.len(),
            len <= str_len,
            str_len <= if target > len {
                target
            } else {
                len
            },
            r@ =~= Seq::new((str_len - len) as nat, |i: int| '0'),
        decreases target - str_len,
    {
        push_char(&mut r, '0');
        str_len = str_len + 1;
    }
    r.append(t.as_str());
    r
}

/// `input` with its characters in reverse order.
pub fn reverse(input: &str) -> (output: String)
    ensures
        output@ == input@.reverse(),
{
    let cs = chars_of(input);
    let mut output = String::new();
    let mut i: usize = cs.len();
    while i > 0
        invariant
            i <= cs.len(),
            cs@ == input@,
            output@ =~= cs@.subrange(i as int, cs.len() as int).reverse(),
        decreases i,
    {
        i = i - 1;
        push_char(&mut output, cs[i]);
    }
    output
}

/// The magnitude that the formatter renders: `|v|`, with the least `i64` taken as `-maxInt64`.
pub open spec fn magnitude(v: int) -> int {
    if v == i64::MIN {
        maxInt64 as int
    } else if v < 0 {
        -v
    } else {
        v
    }
}

/// The power of ten by which the magnitude `m` (at least 1000) is divided,
/// so that the quotient counts thousandths of its SI prefix.
pub open spec fn band_exp(m: int) -> nat {
    if m >= 999999500000000000 {
        15
    } else if m >= 999999500000000 {
        12
    } else if m >= 999999500000 {
        9
    } else if m >= 999999500 {
        6
    } else if m >= 1000000 {
        3
    } else {
        0
    }
}

/// The SI prefix symbol that goes with a band.
pub open spec fn band_symbol(e: nat) -> Seq<char> {
    if e == 15 {
        seq!['G']
    } else if e == 12 {
        seq!['M']
    } else if e == 9 {
        seq!['k']
    } else if e == 6 {
        Seq::empty()
    } else if e == 3 {
        seq!['m']
    } else {
        seq!['\u{b5}']
    }
}

/// `m / p` rounded to the nearest integer, an exact half upward.
pub open spec fn rounded_div(m: int, p: int) -> int {
    (m + p / 2) / p
}

/// A nano-scaled quantity as text: sign, integer part, at most three
/// fractional digits and an SI prefix symbol, with no unit.
pub open spec fn nano_text(v: int) -> Seq<char> {
    let m = magnitude(v);
    let sign = if v < 0 {
        seq!['-']
    } else {
        Seq::empty()
    };
    if m == 0 {
        seq!['0']
    } else if m < 1000 {
        sign + decimal_text(m as nat) + seq!['n']
    } else {
        let e = band_exp(m);
        let q = rounded_div(m, pow10(e) as int);
        let whole = q / 1000;
        let frac = q % 1000;
        if frac == 0 {
            sign + decimal_text(whole as nat) + band_symbol(e)
        } else {
            sign + decimal_text(whole as nat) + seq!['.'] + zero_padded(3, decimal_text(frac as nat))
                + band_symbol(e)
        }
    }
}

/// Splits a magnitude of at least 1000 into its band, and the whole and
/// thousandth parts of its rounded quotient in that band.
fn split_band(m: i64) -> (res: (u32, u64, u64))
    requires
        1000 <= m,
    ensures
        res.0 == band_exp(m as int),
        res.1 == rounded_div(m as int, pow10(res.0 as nat) as int) / 1000,
        res.2 == rounded_div(m as int, pow10(res.0 as nat) as int) % 1000,
{
    let e: u32 = if m >= 999999500000000000 {
        15
    } else if m >= 999999500000000 {
        12
    } else if m >= 999999500000 {
        9
    } else if m >= 999999500 {
        6
    } else if m >= 1000000 {
        3
    } else {
        0
    };
    let p = pow10_u64(e);
    let base = (m as u64 + p / 2) / p;
    (e, base / 1000, base % 1000)
}

/// Appends the SI prefix symbol of a band to `r`.
fn push_band_symbol(r: &mut String, e: u32)
    ensures
        final(r)@ == old(r)@ + band_symbol(e as nat),
{
    let ghost start = r@;
    if e == 15 {
        push_char(r, 'G');
    } else if e == 12 {
        push_char(r, 'M');
    } else if e == 9 {
        push_char(r, 'k');
    } else if e == 3 {
        push_char(r, 'm');
    } else if e != 6 {
        push_char(r, '\u{b5}');
    }
    assert(r@ =~= start + band_symbol(e as nat));
}

/// Renders a nano-scaled quantity with the SI prefix that fits it best.
pub fn nanoAsString(v: i64) -> (r: String)
    ensures
        r@ == nano_text(v as int),
{
    let m: i64 = if v == i64::MIN {
        maxInt64
    } else if v < 0 {
        -v
    } else {
        v
    };
    assert(m == magnitude(v as int));
    let mut r = String::new();
    if m == 0 {
        push_char(&mut r, '0');
        assert(r@ =~= seq!['0']);
        return r;
    }
    if v < 0 {
        push_char(&mut r, '-');
    }
    let ghost sign = r@;
    if m < 1000 {
        push_decimal(&mut r, m as u64);
        push_char(&mut r, 'n');
        assert(r@ =~= sign + decimal_text(m as nat) + seq!['n']);
        return r;
    }
    let (e, whole, frac) = split_band(m);
    push_decimal(&mut r, whole);
    if frac != 0 {
        push_char(&mut r, '.');
        let padded = prefixZeros(3, frac as i32);
        r.append(padded.as_str());
    }
    push_band_symbol(&mut r, e);
    if frac == 0 {
        assert(r@ =~= sign + decimal_text(whole as nat) + band_symbol(e as nat));
    } else {
        assert(r@ =~= sign + decimal_text(whole as nat) + seq!['.'] + zero_padded(
            3,
            decimal_text(frac as nat),
        ) + band_symbol(e as nat));
    }
    r
}

/// The four kinds of quantity; they differ only in their unit.
#[derive(Clone, Copy, Debug, PartialEq, Eq, Structural)]
pub enum Quantity {
    Current,
    Potential,
    Resistance,
    Power,
}

/// The symbol that follows a formatted quantity and names it in errors.
pub open spec fn unit_symbol(k: Quantity) -> Seq<char> {
    match k {
        Quantity::Current => seq!['A'],
        Quantity::Potential => seq!['V'],
        Quantity::Resistance => seq!['\u{3a9}'],
        Quantity::Power => seq!['W'],
    }
}

/// The largest value of a kind.
pub open spec fn max_of(k: Quantity) -> int {
    match k {
        Quantity::Current => maxElectricCurrent as int,
        Quantity::Potential => maxElectricPotential as int,
        Quantity::Resistance => maxElectricResistance as int,
        Quantity::Power => maxPower as int,
    }
}

/// The least value of a kind.
pub open spec fn min_of(k: Quantity) -> int {
    match k {
        Quantity::Current => minElectricCurrent as int,
        Quantity::Potential => minElectricPotential as int,
        Quantity::Resistance => minElectricResistance as int,
        Quantity::Power => minPower as int,
    }
}

/// The upper and lower case letter of a one-letter unit.
pub open spec fn unit_letters(k: Quantity) -> (char, char) {
    match k {
        Quantity::Current => ('A', 'a'),
        Quantity::Potential => ('V', 'v'),
        Quantity::Resistance => ('\u{3a9}', '\u{3a9}'),
        Quantity::Power => ('W', 'w'),
    }
}

/// The length of the spelling of the unit of `k` that ends `t`, or 0.
/// Ohm is spelt `Ohm`, `ohm` or `Ω`; the other units by their letter in either case.
pub open spec fn unit_suffix_len(k: Quantity, t: Seq<char>) -> int {
    let n = t.len() as int;
    if k == Quantity::Resistance && n >= 3 && (t[n - 3] == 'O' || t[n - 3] == 'o') && t[n - 2]
        == 'h' && t[n - 1] == 'm' {
        3
    } else if n >= 1 && (t[n - 1] == unit_letters(k).0 || t[n - 1] == unit_letters(k).1) {
        1
    } else {
        0
    }
}

/// `t` is exactly a spelling of the unit of `k`.
pub open spec fn is_unit(k: Quantity, t: Seq<char>) -> bool {
    t.len() > 0 && unit_suffix_len(k, t) == t.len()
}

/// The SI prefixes that a unit may carry, as listed in errors.
pub open spec fn allowed_prefixes() -> Seq<char> {
    "p,n,u,\u{b5},m,k,M,G or T"@
}

/// The numeral and SI prefix that open `s`, as a nano-scaled value, with
/// how many characters they take.
pub open spec fn unit_value(s: Seq<char>) -> Result<(int, int), PhysicErrorView> {
    match numeral_error(s) {
        Some(e) => Err(e),
        None => {
            let n = numeral_len(s);
            if n < s.len() && (s[n] == '\0' || s[n] == '\u{1}') {
                Err(PhysicErrorView::UnexpectedEndOfString(s.subrange(n, s.len() as int)))
            } else {
                let pre = if n < s.len() {
                    si_prefix(s[n])
                } else {
                    (0, 0)
                };
                let used = n + if pre.1 > 0 {
                    1int
                } else {
                    0int
                };
                match normalized(significand(s), exponent(s), is_negative(s), pre.0 + 9) {
                    Some(v) => Ok((v, used)),
                    None => Err(
                        if is_negative(s) {
                            PhysicErrorView::ErrOverFlowsInt64Negative
                        } else {
                            PhysicErrorView::ErrOverFlowsInt64
                        },
                    ),
                }
            }
        },
    }
}

/// What parsing `s` as a quantity of kind `k` gives.
pub open spec fn parse_quantity(s: Seq<char>, k: Quantity) -> Result<int, PhysicErrorView> {
    match unit_value(s) {
        Err(e) => {
            if e == PhysicErrorView::ErrNotANumber {
                if unit_suffix_len(k, s) > 0 {
                    Err(PhysicErrorView::ErrNotANumber)
                } else {
                    Err(PhysicErrorView::NotNumberUnitErr(unit_symbol(k)))
                }
            } else if e == PhysicErrorView::ErrOverFlowsInt64 {
                Err(PhysicErrorView::MaxValueErr(nano_text(max_of(k)) + unit_symbol(k)))
            } else if e == PhysicErrorView::ErrOverFlowsInt64Negative {
                Err(PhysicErrorView::MinValueErr(nano_text(min_of(k)) + unit_symbol(k)))
            } else {
                Err(e)
            }
        },
        Ok((v, n)) => {
            let r = s.subrange(n, s.len() as int);
            if is_unit(k, r) {
                Ok(v)
            } else if r.len() == 0 {
                Err(PhysicErrorView::NotUnitErr(unit_symbol(k)))
            } else if unit_suffix_len(k, r) > 0 {
                Err(
                    PhysicErrorView::UnknownUnitPrefixErr(
                        r.subrange(0, r.len() - unit_suffix_len(k, r)),
                        allowed_prefixes(),
                    ),
                )
            } else {
                Err(PhysicErrorView::IncorrectUnitErr(unit_symbol(k)))
            }
        },
    }
}

/// The model of a parse result: the value as an integer, the error as its view.
pub open spec fn quantity_result(r: Result<i64, PhysicError>) -> Result<int, PhysicErrorView> {
    match r {
        Ok(v) => Ok(v as int),
        Err(e) => Err(e@),
    }
}

/// The text of a quantity of kind `k`: its nano-scaled value and its unit.
pub open spec fn quantity_text(v: int, k: Quantity) -> Seq<char> {
    nano_text(v) + unit_symbol(k)
}

/// The unit symbol of `k` as a string.
fn unit_symbol_string(k: Quantity) -> (r: String)
    ensures
        r@ == unit_symbol(k),
{
    let mut r = String::new();
    let c = match k {
        Quantity::Current => 'A',
        Quantity::Potential => 'V',
        Quantity::Resistance => '\u{3a9}',
        Quantity::Power => 'W',
    };
    push_char(&mut r, c);
    assert(r@ =~= unit_symbol(k));
    r
}

/// The length of the spelling of the unit of `k` that ends `cs[from..]`, or 0.
fn unit_suffix_len_of(k: Quantity, cs: &Vec<char>, from: usize) -> (r: usize)
    requires
        from <= cs.len(),
    ensures
        r == unit_suffix_len(k, cs@.subrange(from as int, cs.len() as int)),
{
    let ghost t = cs@.subrange(from as int, cs.len() as int);
    let len = cs.len();
    let n = len - from;
    let (upper, lower) = match k {
        Quantity::Current => ('A', 'a'),
        Quantity::Potential => ('V', 'v'),
        Quantity::Resistance => ('\u{3a9}', '\u{3a9}'),
        Quantity::Power => ('W', 'w'),
    };
    if n >= 3 {
        assert(t[n - 3] == cs@[len - 3] && t[n - 2] == cs@[len - 2] && t[n - 1] == cs@[len - 1]);
    }
    if n >= 1 {
        assert(t[n - 1] == cs@[len - 1]);
    }
    if k == Quantity::Resistance && n >= 3 && (cs[len - 3] == 'O' || cs[len - 3] == 'o')
        && cs[len - 2] == 'h' && cs[len - 1] == 'm' {
        3
    } else if n >= 1 && (cs[len - 1] == upper || cs[len - 1] == lower) {
        1
    } else {
        0
    }
}

/// Reads the numeral and the SI prefix that open `s` as a nano-scaled value;
/// returns it with how many characters they take.
pub fn value_of_unit_string(s: &str) -> (res: Result<(i64, usize), PhysicError>)
    requires
        s@.len() <= i32::MAX,
    ensures
        match res {
            Ok((v, n)) => unit_value(s@) == Ok::<(int, int), PhysicErrorView>((v as int, n as int)),
            Err(e) => unit_value(s@) == Err::<(int, int), PhysicErrorView>(e@),
        },
{
    let cs = chars_of(s);
    value_of_chars(s, &cs)
}

fn value_of_chars(s: &str, cs: &Vec<char>) -> (res: Result<(i64, usize), PhysicError>)
    requires
        cs@ == s@,
        s@.len() <= i32::MAX,
    ensures
        match res {
            Ok((v, n)) => unit_value(s@) == Ok::<(int, int), PhysicErrorView>((v as int, n as int)),
            Err(e) => unit_value(s@) == Err::<(int, int), PhysicErrorView>(e@),
        },
{
    let (d, n, err) = atod_chars(cs);
    match err {
        PhysicError::Null => {},
        _ => {
            return Err(err);
        },
    }
    let len = cs.len();
    proof {
        lemma_body_end_bounds(cs@, sign_len(cs@));
    }
    let mut used = n;
    let mut pre: prefix = Unit;
    if n < len {
        let c = cs[n];
        if c == '\0' || c == '\u{1}' {
            return Err(PhysicError::UnexpectedEndOfString(s.substring_char(n, len).to_owned()));
        }
        let (p, size) = parseSIPrefix(c);
        pre = p;
        if size > 0 {
            used = n + 1;
        }
    }
    let (v, overflow) = normalize(d, pre + 9);
    if overflow {
        if d.neg {
            return Err(PhysicError::ErrOverFlowsInt64Negative);
        }
        return Err(PhysicError::ErrOverFlowsInt64);
    }
    Ok((v, used))
}

/// Parses `s` as a quantity of kind `k`: a numeral, an optional SI prefix
/// and the unit of `k`, into a nano-scaled value.
pub fn set_quantity(s: &str, k: Quantity) -> (r: Result<i64, PhysicError>)
    requires
        s@.len() <= i32::MAX,
    ensures
        quantity_result(r) == parse_quantity(s@, k),
{
    let cs = chars_of(s);
    let len = cs.len();
    match value_of_chars(s, &cs) {
        Err(e) => match e {
            PhysicError::ErrNotANumber => {
                let u = unit_suffix_len_of(k, &cs, 0);
                assert(cs@.subrange(0, len as int) =~= cs@);
                if u > 0 {
                    Err(PhysicError::ErrNotANumber)
                } else {
                    Err(PhysicError::NotNumberUnitErr(unit_symbol_string(k)))
                }
            },
            PhysicError::ErrOverFlowsInt64 => {
                let mut t = nanoAsString(maxInt64);
                let u = unit_symbol_string(k);
                t.append(u.as_str());
                Err(PhysicError::MaxValueErr(t))
            },
            PhysicError::ErrOverFlowsInt64Negative => {
                let mut t = nanoAsString(-maxInt64);
                let u = unit_symbol_string(k);
                t.append(u.as_str());
                Err(PhysicError::MinValueErr(t))
            },
            _ => Err(e),
        },
        Ok((v, n)) => {
            proof {
                lemma_body_end_bounds(s@, sign_len(s@));
            }
            let ghost r = s@.subrange(n as int, len as int);
            let u = unit_suffix_len_of(k, &cs, n);
            if u > 0 && u == len - n {
                Ok(v)
            } else if n == len {
                Err(PhysicError::NotUnitErr(unit_symbol_string(k)))
            } else if u > 0 {
                let found = s.substring_char(n, len - u).to_owned();
                assert(found@ =~= r.subrange(0, r.len() - u));
                Err(PhysicError::UnknownUnitPrefixErr(found, String::from_str("p,n,u,\u{b5},m,k,M,G or T")))
            } else {
                Err(PhysicError::IncorrectUnitErr(unit_symbol_string(k)))
            }
        },
    }
}

/// Parses an electric current such as `"+15mA"` into nano-ampere.
pub fn set_current(s: &str) -> (r: Result<ElectricCurrent, PhysicError>)
    requires
        s@.len() <= i32::MAX,
    ensures
        quantity_result(r) == parse_quantity(s@, Quantity::Current),
{
    set_quantity(s, Quantity::Current)
}

/// Parses an electric potential such as `"100mV"` into nano-volt.
pub fn set_voltage(s: &str) -> (r: Result<ElectricPotential, PhysicError>)
    requires
        s@.len() <= i32::MAX,
    ensures
        quantity_result(r) == parse_quantity(s@, Quantity::Potential),
{
    set_quantity(s, Quantity::Potential)
}

/// Parses an electric resistance such as `"10kOhm"` or `"4.7Ω"` into nano-ohm.
pub fn set_resistance(s: &str) -> (r: Result<ElectricResistance, PhysicError>)
    requires
        s@.len() <= i32::MAX,
    ensures
        quantity_result(r) == parse_quantity(s@, Quantity::Resistance),
{
    set_quantity(s, Quantity::Resistance)
}

/// Parses a power such as `"250W"` into nano-watt.
pub fn set_power(s: &str) -> (r: Result<Power, PhysicError>)
    requires
        s@.len() <= i32::MAX,
    ensures
        quantity_result(r) == parse_quantity(s@, Quantity::Power),
{
    set_quantity(s, Quantity::Power)
}

/// Renders a nano-scaled quantity of kind `k` followed by its unit symbol.
pub fn format_quantity(v: i64, k: Quantity) -> (r: String)
    ensures
        r@ == quantity_text(v as int, k),
{
    let mut r = nanoAsString(v);
    let u = unit_symbol_string(k);
    r.append(u.as_str());
    r
}

/// Renders an electric potential with its unit, `V`.
pub trait ToStringPhysic_potential {
    fn to_string_physic_potential(self) -> String;
}

impl ToStringPhysic_potential for ElectricPotential {
    fn to_string_physic_potential(self) -> (r: String)
        ensures
            r@ == quantity_text(self as int, Quantity::Potential),
    {
        format_quantity(self, Quantity::Potential)
    }
}

/// Renders a power with its unit, `W`.
pub trait ToStringPhysic_power {
    fn to_string_physic_power(self) -> String;
}

impl ToStringPhysic_power for Power {
    fn to_string_physic_power(self) -> (r: String)
        ensures
            r@ == quantity_text(self as int, Quantity::Power),
    {
        format_quantity(self, Quantity::Power)
    }
}

/// Renders an electric current with its unit, `A`.
pub trait ToStringPhysic_current {
    fn to_string_physic_current(self) -> String;
}

impl ToStringPhysic_current for ElectricCurrent {
    fn to_string_physic_current(self) -> (r: String)
        ensures
            r@ == quantity_text(self as int, Quantity::Current),
    {
        format_quantity(self, Quantity::Current)
    }
}

/// Renders an electric resistance with its unit, `Ω`.
pub trait ToStringPhysic_resistance {
    fn to_string_physic_resistance(self) -> String;
}

impl ToStringPhysic_resistance for ElectricResistance {
    fn to_string_physic_resistance(self) -> (r: String)
        ensures
            r@ == quantity_text(self as int, Quantity::Resistance),
    {
        format_quantity(self, Quantity::Resistance)
    }
}

proof fn lemma_body_end_bounds(s: Seq<char>, i: int)
    requires
        0 <= i <= s.len(),
    ensures
        i <= body_end(s, i) <= s.len(),
    decreases s.len() - i,
{
    if i < s.len() && is_numeral_char(s[i]) {
        lemma_body_end_bounds(s, i + 1);
    }
}

proof fn lemma_digits_are_digits(b: Seq<char>)
    ensures
        forall|i: int| 0 <= i < digits(b).len() ==> is_digit(#[trigger] digits(b)[i]),
    decreases b.len(),
{
    if b.len() > 0 {
        lemma_digits_are_digits(b.drop_last());
        let p = digits(b.drop_last());
        assert forall|i: int| 0 <= i < digits(b).len() implies is_digit(#[trigger] digits(b)[i]) by {
            if i < p.len() {
                assert(digits(b)[i] == p[i]);
            }
        }
    }
}

} // verus!
