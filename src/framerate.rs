//! The framerate literal: `"<num>/<den>"`, or a decimal number of frames per
//! second that is kept in thousandths.
use vstd::prelude::*;
use crate::numeric::{
    all_digits, chars_of, decimal_digits, digits_only, digits_value, digits_value_capped,
    find_char, is_digit, lemma_decimal_digits, lemma_digits_value_zeros, lemma_position_of,
    lemma_pow10_large, lemma_pow10_mono, lemma_u32_of_decimal, lower_chars, lowered,
    parse_u32_range, position_of, pow10, push_range, range_is, u32_of, zeros,
};

verus! {

/// Why a framerate literal was refused.
#[derive(Clone, Copy, Debug, PartialEq, Eq, Structural)]
pub enum FramerateError {
    /// The part before the `/` is no unsigned integer.
    InvalidNumerator,
    /// The part after the `/` is no unsigned integer.
    InvalidDenominator,
    /// No `/`, and no decimal number either.
    InvalidValue,
}

impl FramerateError {
    pub open spec fn text(self) -> Seq<char> {
        match self {
            FramerateError::InvalidNumerator => "invalid nome of framerate value"@,
            FramerateError::InvalidDenominator => "invalid deno of framerate value"@,
            FramerateError::InvalidValue => "invalid framerate value"@,
        }
    }

    /// A sentence that says what was wrong.
    pub fn message(&self) -> (r: String)
        ensures
            r@ == self.text(),
    {
        match self {
            FramerateError::InvalidNumerator => "invalid nome of framerate value".to_owned(),
            FramerateError::InvalidDenominator => "invalid deno of framerate value".to_owned(),
            FramerateError::InvalidValue => "invalid framerate value".to_owned(),
        }
    }
}

/// A framerate as the fraction `nome / deno` frames per second.
#[derive(Clone, Copy, Debug, PartialEq, Eq, Structural)]
pub struct Framerate {
    pub nome: u32,
    pub deno: u32,
}

/// The part of a decimal literal after its sign.
pub open spec fn unsigned_part(s: Seq<char>) -> Seq<char> {
    if s.len() > 0 && (s[0] == '+' || s[0] == '-') {
        s.drop_first()
    } else {
        s
    }
}

/// The digits before the decimal point of an unsigned decimal literal.
pub open spec fn integer_digits(body: Seq<char>) -> Seq<char> {
    body.take(position_of(body, '.') as int)
}

/// The digits after the decimal point of an unsigned decimal literal.
pub open spec fn fraction_digits(body: Seq<char>) -> Seq<char> {
    if position_of(body, '.') < body.len() {
        body.skip(position_of(body, '.') + 1int)
    } else {
        Seq::empty()
    }
}

/// The first `q` digits of `d`, padded with zeros where `d` has fewer, and
/// none when `q` is not positive: `d` read as an integer part of `q` digits
/// followed by a fraction, with the fraction dropped.
pub open spec fn shifted(d: Seq<char>, q: int) -> Seq<char> {
    if q <= 0 {
        Seq::empty()
    } else if q <= d.len() {
        d.take(q)
    } else {
        d + zeros((q - d.len()) as nat)
    }
}

/// `m`, or the largest `u32` if it is larger.
pub open spec fn clamp_u32(m: nat) -> u32 {
    if m <= u32::MAX {
        m as u32
    } else {
        u32::MAX
    }
}

/// Whether `x` is an exponent: an optional sign, then one digit or more.
pub open spec fn valid_exponent(x: Seq<char>) -> bool {
    unsigned_part(x).len() > 0 && all_digits(unsigned_part(x))
}

/// The value of the exponent `x`.
pub open spec fn exponent_value(x: Seq<char>) -> int {
    if x.len() > 0 && x[0] == '-' {
        -(digits_value(unsigned_part(x)) as int)
    } else {
        digits_value(unsigned_part(x)) as int
    }
}

/// An exponent of at most `2^70` in size: beyond, the value of a literal
/// no longer depends on the exponent's exact size.
pub open spec fn clamp_exponent(e: int) -> int {
    if e > 0x40_0000_0000_0000_0000 {
        0x40_0000_0000_0000_0000
    } else if e < -0x40_0000_0000_0000_0000 {
        -0x40_0000_0000_0000_0000
    } else {
        e
    }
}

/// An unsigned number, in lower case: digits with an optional point (one
/// digit at least) and an optional exponent (`e`, an optional sign,
/// digits). Its value times 1000, rounded toward zero and brought into the
/// range of a `u32`; any negative value gives zero.
pub open spec fn number_milli(rest: Seq<char>, negative: bool) -> Option<u32> {
    let k = position_of(rest, 'e');
    let mantissa = rest.take(k as int);
    let int_part = integer_digits(mantissa);
    let frac = fraction_digits(mantissa);
    if all_digits(int_part) && all_digits(frac) && int_part.len() + frac.len() > 0 && (k
        == rest.len() || valid_exponent(rest.skip(k + 1int))) {
        if negative {
            Some(0u32)
        } else {
            let e = if k < rest.len() {
                exponent_value(rest.skip(k + 1int))
            } else {
                0
            };
            Some(clamp_u32(digits_value(shifted(int_part + frac, int_part.len() + e + 3))))
        }
    } else {
        None
    }
}

/// A floating-point literal, already in lower case: an optional sign, then
/// `inf`, `infinity`, `nan`, or a number as `number_milli` says. Its value
/// times 1000, rounded toward zero and brought into the range of a `u32`:
/// a negative value and `nan` give zero, an infinite one the largest `u32`.
#[verifier::opaque]
pub open spec fn float_milli(t: Seq<char>) -> Option<u32> {
    let negative = t.len() > 0 && t[0] == '-';
    let rest = unsigned_part(t);
    if rest == "inf"@ || rest == "infinity"@ {
        Some(
            if negative {
                0u32
            } else {
                u32::MAX
            },
        )
    } else if rest == "nan"@ {
        Some(0u32)
    } else {
        number_milli(rest, negative)
    }
}

/// A floating-point literal, in any case, read as `float_milli` says.
pub open spec fn milli_of(s: Seq<char>) -> Option<u32> {
    float_milli(lowered(s))
}

/// What the literal `s` denotes: with a `/`, the integers on either side of
/// the first one; without, the decimal number in thousandths.
pub open spec fn framerate_of(s: Seq<char>) -> Result<(u32, u32), FramerateError> {
    let k = position_of(s, '/');
    if k < s.len() {
        if u32_of(s.take(k as int)) is None {
            Err(FramerateError::InvalidNumerator)
        } else if u32_of(s.skip(k + 1int)) is None {
            Err(FramerateError::InvalidDenominator)
        } else {
            Ok((u32_of(s.take(k as int))->0, u32_of(s.skip(k + 1int))->0))
        }
    } else {
        match milli_of(s) {
            Some(m) => Ok((m, 1000)),
            None => Err(FramerateError::InvalidValue),
        }
    }
}

/// The value of `shifted(d, q)`, or `2^32` if it is larger.
fn shifted_value(dv: &Vec<char>, q: i128) -> (r: u64)
    requires
        all_digits(dv@),
    ensures
        r as nat == if digits_value(shifted(dv@, q as int)) < 0x1_0000_0000 {
            digits_value(shifted(dv@, q as int))
        } else {
            0x1_0000_0000
        },
{
    let ghost d = dv@;
    let len = dv.len();
    if q <= 0 {
        assert(digits_value(shifted(d, q as int)) == 0);
        return 0;
    }
    if q <= len as i128 {
        assert(dv@.subrange(0, q as int) =~= d.take(q as int));
        return digits_value_capped(dv, 0, q as usize, 0x1_0000_0000) as u64;
    }
    assert(dv@.subrange(0, len as int) =~= d);
    let mut val = digits_value_capped(dv, 0, len, 0x1_0000_0000) as u64;
    let extra = (q - len as i128) as u128;
    let mut z: u128 = 0;
    proof {
        reveal_with_fuel(pow10, 1);
    }
    while z < extra && val != 0 && val < 0x1_0000_0000
        invariant
            z <= extra,
            extra == q - len,
            val as nat == if digits_value(d) * pow10(z as nat) < 0x1_0000_0000 {
                digits_value(d) * pow10(z as nat)
            } else {
                0x1_0000_0000
            },
        decreases extra - z,
    {
        assert(pow10((z + 1) as nat) == 10 * pow10(z as nat));
        assert(digits_value(d) * pow10((z + 1) as nat) == 10 * (digits_value(d) * pow10(
            z as nat,
        ))) by (nonlinear_arith)
            requires
                pow10((z + 1) as nat) == 10 * pow10(z as nat),
        ;
        val = if val * 10 < 0x1_0000_0000 {
            val * 10
        } else {
            0x1_0000_0000
        };
        z = z + 1;
    }
    proof {
        let v = digits_value(d);
        lemma_digits_value_zeros(d, extra as nat);
        lemma_pow10_mono(z as nat, extra as nat);
        if z < extra {
            if val == 0 {
                assert(v == 0) by (nonlinear_arith)
                    requires
                        v * pow10(z as nat) == 0,
                        pow10(z as nat) >= 1,
                ;
            } else {
                assert(v * pow10(extra as nat) >= v * pow10(z as nat)) by (nonlinear_arith)
                    requires
                        pow10(extra as nat) >= pow10(z as nat),
                ;
            }
        }
    }
    val
}

/// Far enough to the left of its end, a digit string is worth zero when it
/// is all zeros, and more than any `u32` otherwise.
proof fn lemma_far_shift(d: Seq<char>, q: int)
    requires
        q >= d.len() + 10,
    ensures
        clamp_u32(digits_value(shifted(d, q))) == if digits_value(d) == 0 {
            0u32
        } else {
            u32::MAX
        },
{
    let n = (q - d.len()) as nat;
    lemma_digits_value_zeros(d, n);
    lemma_pow10_large(n);
    if digits_value(d) > 0 {
        assert(digits_value(d) * pow10(n) >= pow10(n)) by (nonlinear_arith)
            requires
                digits_value(d) >= 1,
        ;
    }
}

/// The exponent that stands in `t[xs..]`, brought to at most `2^70` in
/// size, if it is one.
fn read_exponent(t: &Vec<char>, xs: usize) -> (r: Option<i128>)
    requires
        xs <= t.len(),
    ensures
        match r {
            Some(e) => valid_exponent(t@.subrange(xs as int, t.len() as int)) && e == clamp_exponent(
                exponent_value(t@.subrange(xs as int, t.len() as int)),
            ),
            None => !valid_exponent(t@.subrange(xs as int, t.len() as int)),
        },
{
    let n = t.len();
    let ghost x = t@.subrange(xs as int, n as int);
    let xb = if xs < n && (t[xs] == '+' || t[xs] == '-') {
        xs + 1
    } else {
        xs
    };
    assert(unsigned_part(x) =~= t@.subrange(xb as int, n as int));
    if xb == n || !digits_only(t, xb, n) {
        return None;
    }
    let m = digits_value_capped(t, xb, n, 0x40_0000_0000_0000_0000);
    if xs < n && t[xs] == '-' {
        Some(-(m as i128))
    } else {
        Some(m as i128)
    }
}

/// The value of the digits `dg`, whose first `int_len` stand before the
/// point, times 1000 and times ten to the power `e_true`, rounded toward
/// zero and brought into the range of a `u32`; `e` is `e_true` clamped.
fn scaled_milli(dg: &Vec<char>, int_len: usize, e: i128, Ghost(e_true): Ghost<int>) -> (r: u32)
    requires
        all_digits(dg@),
        int_len <= dg.len(),
        e == clamp_exponent(e_true),
    ensures
        r == clamp_u32(digits_value(shifted(dg@, int_len + e_true + 3))),
{
    let q: i128 = int_len as i128 + e + 3;
    let m = shifted_value(dg, q);
    proof {
        let q_true = int_len + e_true + 3;
        if e_true > 0x40_0000_0000_0000_0000 {
            lemma_far_shift(dg@, q as int);
            lemma_far_shift(dg@, q_true);
        } else if e_true < -0x40_0000_0000_0000_0000 {
            assert(q < 0 && q_true < 0);
        }
    }
    if m > 0xffff_ffff {
        0xffff_ffff
    } else {
        m as u32
    }
}

/// The number that stands in `t[b..]`, as `number_milli` says.
fn parse_number(t: &Vec<char>, b: usize, negative: bool) -> (r: Option<u32>)
    requires
        b <= t.len(),
    ensures
        r == number_milli(t@.subrange(b as int, t.len() as int), negative),
{
    let n = t.len();
    let ghost rest = t@.subrange(b as int, n as int);
    let k = find_char(t, b, n, 'e');
    let ghost mantissa = rest.take(k - b);
    assert(mantissa =~= t@.subrange(b as int, k as int));
    let d = find_char(t, b, k, '.');
    let fs = if d < k {
        d + 1
    } else {
        d
    };
    assert(integer_digits(mantissa) =~= t@.subrange(b as int, d as int));
    assert(fraction_digits(mantissa) =~= t@.subrange(fs as int, k as int));
    if !digits_only(t, b, d) || !digits_only(t, fs, k) || (d - b) + (k - fs) == 0 {
        return None;
    }
    let mut exp: i128 = 0;
    if k < n {
        assert(rest.skip(k - b + 1) =~= t@.subrange(k + 1, n as int));
        match read_exponent(t, k + 1) {
            Some(e) => {
                exp = e;
            },
            None => {
                return None;
            },
        }
    }
    if negative {
        return Some(0);
    }
    let mut digits: Vec<char> = Vec::new();
    push_range(&mut digits, t, b, d);
    push_range(&mut digits, t, fs, k);
    let ghost ip = t@.subrange(b as int, d as int);
    let ghost fp = t@.subrange(fs as int, k as int);
    assert(digits@ =~= ip + fp);
    assert(all_digits(ip + fp)) by {
        assert forall|i: int| 0 <= i < (ip + fp).len() implies is_digit(#[trigger] (ip + fp)[i]) by {
            if i < ip.len() {
                assert((ip + fp)[i] == ip[i]);
            } else {
                assert((ip + fp)[i] == fp[i - ip.len()]);
            }
        }
    }
    let ghost e_true: int = if k < n {
        exponent_value(rest.skip(k - b + 1))
    } else {
        0
    };
    Some(scaled_milli(&digits, d - b, exp, Ghost(e_true)))
}

/// The floating-point literal `v` in thousandths, as `milli_of` says.
fn parse_milli(v: &Vec<char>) -> (r: Option<u32>)
    ensures
        r == milli_of(v@),
{
    reveal(float_milli);
    let t = lower_chars(v);
    let n = t.len();
    let negative = n > 0 && t[0] == '-';
    let b: usize = if n > 0 && (t[0] == '+' || t[0] == '-') {
        1
    } else {
        0
    };
    assert(unsigned_part(t@) =~= t@.subrange(b as int, n as int));
    if range_is(&t, b, n, "inf") || range_is(&t, b, n, "infinity") {
        return Some(
            if negative {
                0
            } else {
                0xffff_ffff
            },
        );
    }
    if range_is(&t, b, n, "nan") {
        return Some(0);
    }
    parse_number(&t, b, negative)
}

/// The framerate that the literal `value` denotes: `"24000/1001"` gives
/// `(24000, 1001)`, `"23.97"` gives `(23970, 1000)`.
pub fn parse_framerate(value: &str) -> (r: Result<(u32, u32), FramerateError>)
    ensures
        r == framerate_of(value@),
{
    let v = chars_of(value);
    let k = find_char(&v, 0, v.len(), '/');
    assert(v@.subrange(0, v.len() as int) =~= v@);
    if k < v.len() {
        assert(v@.take(k as int) =~= v@.subrange(0, k as int));
        assert(v@.skip(k + 1) =~= v@.subrange(k + 1, v.len() as int));
        let nome = parse_u32_range(&v, 0, k);
        let deno = parse_u32_range(&v, k + 1, v.len());
        match (nome, deno) {
            (None, _) => Err(FramerateError::InvalidNumerator),
            (Some(_), None) => Err(FramerateError::InvalidDenominator),
            (Some(n), Some(d)) => Ok((n, d)),
        }
    } else {
        match parse_milli(&v) {
            Some(m) => Ok((m, 1000)),
            None => Err(FramerateError::InvalidValue),
        }
    }
}

/// The literal `"n/d"`, with both integers written in decimal, denotes
/// exactly `(n, d)`.
pub proof fn lemma_fraction_literal(n: u32, d: u32)
    ensures
        framerate_of(decimal_digits(n as nat) + seq!['/'] + decimal_digits(d as nat)) == Ok::<
            (u32, u32),
            FramerateError,
        >((n, d)),
{
    let a = decimal_digits(n as nat);
    let b = decimal_digits(d as nat);
    let s = a + seq!['/'] + b;
    lemma_decimal_digits(n as nat);
    lemma_u32_of_decimal(n);
    lemma_u32_of_decimal(d);
    assert forall|j: int| 0 <= j < a.len() implies s[j] != '/' by {
        assert(s[j] == a[j]);
        assert(is_digit(a[j]));
    }
    lemma_position_of(s, '/', a.len() as int);
    assert(s.take(a.len() as int) =~= a);
    assert(s.skip(a.len() + 1int) =~= b);
}

/// Reads framerate literals into a `Framerate`.
#[derive(Clone, Copy, Debug)]
pub struct FramerateValueParser {}

impl FramerateValueParser {
    pub fn new() -> Self {
        FramerateValueParser {}
    }

    /// The framerate that the literal `value` denotes.
    pub fn parse_ref(&self, value: &str) -> (r: Result<Framerate, FramerateError>)
        ensures
            match framerate_of(value@) {
                Ok((n, d)) => r == Ok::<Framerate, FramerateError>(Framerate { nome: n, deno: d }),
                Err(e) => r == Err::<Framerate, FramerateError>(e),
            },
    {
        match parse_framerate(value) {
            Ok((nome, deno)) => Ok(Framerate { nome, deno }),
            Err(e) => Err(e),
        }
    }
}

} // verus!
