//! Characters of a string, and decimal numbers written in them.
use vstd::prelude::*;

verus! {

/// Whether `c` is an ASCII decimal digit.
pub open spec fn is_digit(c: char) -> bool {
    '0' <= c && c <= '9'
}

/// Whether every character of `s` is an ASCII decimal digit.
pub open spec fn all_digits(s: Seq<char>) -> bool {
    forall|i: int| 0 <= i < s.len() ==> is_digit(#[trigger] s[i])
}

/// The value of the digit `c`.
pub open spec fn digit_value(c: char) -> nat {
    ((c as u32) - ('0' as u32)) as nat
}

/// The value of the digit string `s`, read in base ten (zero when empty).
pub open spec fn digits_value(s: Seq<char>) -> nat
    decreases s.len(),
{
    if s.len() == 0 {
        0
    } else {
        digits_value(s.drop_last()) * 10 + digit_value(s.last())
    }
}

/// The ASCII digit of `d`, for `d < 10`.
pub open spec fn digit_char(d: nat) -> char {
    (('0' as u32) + d) as char
}

/// Decimal digits of `n`, without leading zeros (`0` for zero).
pub open spec fn decimal_digits(n: nat) -> Seq<char>
    decreases n,
{
    if n < 10 {
        seq![digit_char(n)]
    } else {
        decimal_digits(n / 10).push(digit_char(n % 10))
    }
}

/// An unsigned integer literal: an optional `+`, then one digit or more.
/// Its value, if it fits in a `u32`.
pub open spec fn u32_of(s: Seq<char>) -> Option<u32> {
    let body = if s.len() > 0 && s[0] == '+' {
        s.drop_first()
    } else {
        s
    };
    if body.len() > 0 && all_digits(body) && digits_value(body) <= u32::MAX {
        Some(digits_value(body) as u32)
    } else {
        None
    }
}

/// The position of the first `c` in `s`, or the length of `s` if there is none.
pub open spec fn position_of(s: Seq<char>, c: char) -> nat
    decreases s.len(),
{
    if s.len() == 0 {
        0
    } else if s[0] == c {
        0
    } else {
        1 + position_of(s.drop_first(), c)
    }
}

/// The characters of `s`, in order.
pub fn chars_of(s: &str) -> (r: Vec<char>)
    ensures
        r@ == s@,
{
    let mut r: Vec<char> = Vec::new();
    for c in it: s.chars()
        invariant
            r@ == it.seq().take(it.index()),
    {
        r.push(c);
    }
    r
}

/// The first position `p` at or after `i` with no `c` between `i` and `p`,
/// and `s[p] == c` or `p == s.len()`.
pub proof fn lemma_position_of(s: Seq<char>, c: char, i: int)
    requires
        0 <= i <= s.len(),
        forall|j: int| 0 <= j < i ==> s[j] != c,
        i == s.len() || s[i] == c,
    ensures
        position_of(s, c) == i,
    decreases s.len(),
{
    if s.len() > 0 && s[0] != c {
        lemma_position_of(s.drop_first(), c, i - 1);
    }
}

/// The position of the first `c` in `v[from..to]`, counted from `from`, or
/// the length of that part if there is none.
pub fn find_char(v: &Vec<char>, from: usize, to: usize, c: char) -> (r: usize)
    requires
        from <= to <= v.len(),
    ensures
        from <= r <= to,
        r - from == position_of(v@.subrange(from as int, to as int), c),
        forall|j: int| from <= j < r ==> v@[j] != c,
        r < to ==> v@[r as int] == c,
{
    let mut i = from;
    while i < to && v[i] != c
        invariant
            from <= i <= to <= v.len(),
            forall|j: int| from <= j < i ==> v@[j] != c,
        decreases to - i,
    {
        i = i + 1;
    }
    proof {
        lemma_position_of(v@.subrange(from as int, to as int), c, i - from);
    }
    i
}

/// Whether `v[start..end]` holds exactly the characters of `lit`.
pub fn range_is(v: &Vec<char>, start: usize, end: usize, lit: &str) -> (r: bool)
    requires
        start <= end <= v.len(),
    ensures
        r == (v@.subrange(start as int, end as int) == lit@),
{
    let w = chars_of(lit);
    if end - start != w.len() {
        return false;
    }
    let mut i: usize = 0;
    while i < w.len()
        invariant
            end - start == w.len(),
            start <= end <= v.len(),
            w@ == lit@,
            0 <= i <= w.len(),
            forall|j: int| 0 <= j < i ==> v@[start + j] == w@[j],
        decreases w.len() - i,
    {
        if v[start + i] != w[i] {
            assert(v@.subrange(start as int, end as int)[i as int] != lit@[i as int]);
            return false;
        }
        i = i + 1;
    }
    assert(v@.subrange(start as int, end as int) =~= lit@);
    true
}

/// The value of `s` when it is made of digits, and one more digit.
pub proof fn lemma_digits_value_push(s: Seq<char>, c: char)
    ensures
        digits_value(s.push(c)) == digits_value(s) * 10 + digit_value(c),
{
    assert(s.push(c).drop_last() =~= s);
}

/// The value of the digits `v[start..end]`, or `cap` if it is larger.
pub fn digits_value_capped(v: &Vec<char>, start: usize, end: usize, cap: u128) -> (r: u128)
    requires
        start <= end <= v.len(),
        all_digits(v@.subrange(start as int, end as int)),
        cap <= 0x10_0000_0000_0000_0000_0000_0000,
    ensures
        r as nat == if digits_value(v@.subrange(start as int, end as int)) < cap {
            digits_value(v@.subrange(start as int, end as int))
        } else {
            cap as nat
        },
{
    let mut acc: u128 = 0;
    let mut i = start;
    assert(v@.subrange(start as int, start as int).len() == 0);
    if cap == 0 {
        return 0;
    }
    while i < end
        invariant
            start <= i <= end <= v.len(),
            all_digits(v@.subrange(start as int, end as int)),
            0 < cap <= 0x10_0000_0000_0000_0000_0000_0000,
            acc as nat == if digits_value(v@.subrange(start as int, i as int)) < cap {
                digits_value(v@.subrange(start as int, i as int))
            } else {
                cap as nat
            },
        decreases end - i,
    {
        let ghost prefix = v@.subrange(start as int, i as int);
        assert(v@.subrange(start as int, (i + 1) as int) =~= prefix.push(v@[i as int]));
        assert(is_digit(v@.subrange(start as int, end as int)[i - start]));
        proof {
            lemma_digits_value_push(prefix, v@[i as int]);
        }
        let d = (v[i] as u32 - '0' as u32) as u128;
        if acc < cap {
            let next = acc * 10 + d;
            acc = if next < cap {
                next
            } else {
                cap
            };
        } else {
            assert(digits_value(prefix) * 10 + d >= cap) by (nonlinear_arith)
                requires
                    digits_value(prefix) >= cap,
            ;
        }
        i = i + 1;
    }
    acc
}

/// Whether `v[start..end]` holds only digits.
pub fn digits_only(v: &Vec<char>, start: usize, end: usize) -> (r: bool)
    requires
        start <= end <= v.len(),
    ensures
        r == all_digits(v@.subrange(start as int, end as int)),
{
    let mut i = start;
    while i < end
        invariant
            start <= i <= end <= v.len(),
            all_digits(v@.subrange(start as int, i as int)),
        decreases end - i,
    {
        if !('0' <= v[i] && v[i] <= '9') {
            assert(!is_digit(v@.subrange(start as int, end as int)[i - start]));
            return false;
        }
        assert(v@.subrange(start as int, (i + 1) as int) =~= v@.subrange(start as int, i as int).push(v@[i as int]));
        i = i + 1;
    }
    true
}

/// The value of the unsigned integer literal `v[start..end]`, if it fits in a `u32`.
pub fn parse_u32_range(v: &Vec<char>, start: usize, end: usize) -> (r: Option<u32>)
    requires
        start <= end <= v.len(),
    ensures
        r == u32_of(v@.subrange(start as int, end as int)),
{
    let ghost s = v@.subrange(start as int, end as int);
    let mut from = start;
    if start < end && v[start] == '+' {
        from = start + 1;
        assert(s.drop_first() =~= v@.subrange(from as int, end as int));
    }
    assert(v@.subrange(from as int, end as int) =~= (if s.len() > 0 && s[0] == '+' {
        s.drop_first()
    } else {
        s
    }));
    if from == end || !digits_only(v, from, end) {
        return None;
    }
    let n = digits_value_capped(v, from, end, 0x1_0000_0000);
    if n <= 0xffff_ffff {
        Some(n as u32)
    } else {
        None
    }
}

/// The value of the unsigned integer literal `s`, if it fits in a `u32`.
pub fn parse_u32(s: &str) -> (r: Option<u32>)
    ensures
        r == u32_of(s@),
{
    let v = chars_of(s);
    assert(v@.subrange(0, v.len() as int) =~= v@);
    parse_u32_range(&v, 0, v.len())
}

/// Rendering `n` in decimal gives a non-empty digit string worth `n`.
pub proof fn lemma_decimal_digits(n: nat)
    ensures
        decimal_digits(n).len() > 0,
        all_digits(decimal_digits(n)),
        digits_value(decimal_digits(n)) == n,
    decreases n,
{
    assert(digit_value(digit_char(n % 10)) == n % 10);
    if n < 10 {
        let e = Seq::<char>::empty();
        assert(decimal_digits(n) =~= e.push(digit_char(n)));
        lemma_digits_value_push(e, digit_char(n));
        assert(digits_value(e) == 0);
    } else {
        lemma_decimal_digits(n / 10);
        let p = decimal_digits(n / 10);
        lemma_digits_value_push(p, digit_char(n % 10));
        assert(decimal_digits(n) == p.push(digit_char(n % 10)));
        assert forall|i: int| 0 <= i < decimal_digits(n).len() implies is_digit(
            #[trigger] decimal_digits(n)[i],
        ) by {
            if i < p.len() {
                assert(decimal_digits(n)[i] == p[i]);
            }
        }
    }
}

/// A decimal rendering reads back as the number it renders.
pub proof fn lemma_u32_of_decimal(n: u32)
    ensures
        u32_of(decimal_digits(n as nat)) == Some(n),
{
    lemma_decimal_digits(n as nat);
    assert(is_digit(decimal_digits(n as nat)[0]));
}

/// The ASCII lower case of `c`; other characters stay as they are.
pub open spec fn ascii_lower(c: char) -> char {
    if 'A' <= c && c <= 'Z' {
        ((c as u8) + 32u8) as char
    } else {
        c
    }
}

/// `s` with its ASCII letters in lower case.
pub open spec fn lowered(s: Seq<char>) -> Seq<char> {
    s.map_values(|c: char| ascii_lower(c))
}

/// The characters of `v` with ASCII letters in lower case.
pub fn lower_chars(v: &Vec<char>) -> (r: Vec<char>)
    ensures
        r@ == lowered(v@),
{
    let mut r: Vec<char> = Vec::new();
    let mut i: usize = 0;
    while i < v.len()
        invariant
            i <= v.len(),
            r@ == lowered(v@).take(i as int),
        decreases v.len() - i,
    {
        let c = v[i];
        let l = if 'A' <= c && c <= 'Z' {
            ((c as u8) + 32u8) as char
        } else {
            c
        };
        r.push(l);
        assert(r@ =~= lowered(v@).take(i + 1));
        i = i + 1;
    }
    assert(r@ =~= lowered(v@));
    r
}

/// Ten to the power `n`.
pub open spec fn pow10(n: nat) -> nat
    decreases n,
{
    if n == 0 {
        1
    } else {
        10 * pow10((n - 1) as nat)
    }
}

/// `n` zero digits.
pub open spec fn zeros(n: nat) -> Seq<char> {
    Seq::new(n, |i: int| '0')
}

/// Appending `n` zeros multiplies the value by ten to the power `n`.
pub proof fn lemma_digits_value_zeros(s: Seq<char>, n: nat)
    ensures
        digits_value(s + zeros(n)) == digits_value(s) * pow10(n),
    decreases n,
{
    if n == 0 {
        assert(s + zeros(0) =~= s);
        assert(pow10(0) == 1);
    } else {
        let m = (n - 1) as nat;
        assert(pow10(n) == 10 * pow10(m));
        lemma_digits_value_zeros(s, m);
        assert(s + zeros(n) =~= (s + zeros(m)).push('0'));
        lemma_digits_value_push(s + zeros(m), '0');
        assert(digits_value(s) * pow10(m) * 10 == digits_value(s) * pow10(n)) by (nonlinear_arith)
            requires
                pow10(n) == 10 * pow10(m),
        ;
    }
}

/// Powers of ten grow with the exponent.
pub proof fn lemma_pow10_mono(a: nat, b: nat)
    requires
        a <= b,
    ensures
        1 <= pow10(a) <= pow10(b),
    decreases b,
{
    if b > 0 {
        if a < b {
            lemma_pow10_mono(a, (b - 1) as nat);
        } else {
            lemma_pow10_mono((b - 1) as nat, (b - 1) as nat);
        }
    }
}

/// Appends the characters `v[a..b]` to `out`.
pub fn push_range(out: &mut Vec<char>, v: &Vec<char>, a: usize, b: usize)
    requires
        a <= b <= v.len(),
    ensures
        final(out)@ == old(out)@ + v@.subrange(a as int, b as int),
{
    let mut i = a;
    while i < b
        invariant
            a <= i <= b <= v.len(),
            out@ == old(out)@ + v@.subrange(a as int, i as int),
        decreases b - i,
    {
        out.push(v[i]);
        assert(out@ =~= old(out)@ + v@.subrange(a as int, i + 1));
        i = i + 1;
    }
}

/// Ten to the power ten or more exceeds every `u32`.
pub proof fn lemma_pow10_large(n: nat)
    requires
        n >= 10,
    ensures
        pow10(n) > u32::MAX,
    decreases n,
{
    if n == 10 {
        reveal_with_fuel(pow10, 11);
    } else {
        lemma_pow10_large((n - 1) as nat);
    }
}

} // verus!
