//! Numbers of the language are IEEE-754 binary32 values. The library holds a
//! number as its 32-bit pattern and decides on that pattern what needs no
//! rounding: equality, order, zero tests and the conversion to an index.

use vstd::prelude::*;

verus! {

/// The pattern of `-1.0`.
pub const NEGATIVE_ONE: u32 = 0xbf80_0000;

/// The pattern of positive infinity.
pub const INFINITY: u32 = 0x7f80_0000;

/// The pattern without its sign bit.
pub open spec fn magnitude(bits: u32) -> u32 {
    bits & 0x7fff_ffff
}

/// Whether the sign bit is set.
pub open spec fn is_negative(bits: u32) -> bool {
    bits & 0x8000_0000 != 0
}

/// Whether the pattern is a NaN: all exponent bits set, fraction not zero.
pub open spec fn is_nan(bits: u32) -> bool {
    magnitude(bits) > 0x7f80_0000
}

/// Whether the pattern is `+0.0` or `-0.0`.
pub open spec fn is_zero(bits: u32) -> bool {
    magnitude(bits) == 0
}

/// The place of a number that is no NaN on the number line: numbers are
/// ordered as their ranks are, and both zeros have rank 0.
pub open spec fn rank(bits: u32) -> int {
    if is_negative(bits) {
        -(magnitude(bits) as int)
    } else {
        magnitude(bits) as int
    }
}

/// `a == b` on binary32: a NaN equals nothing, the two zeros are equal.
pub open spec fn number_eq(a: u32, b: u32) -> bool {
    !is_nan(a) && !is_nan(b) && rank(a) == rank(b)
}

/// `a < b` on binary32: false where either is a NaN.
pub open spec fn number_lt(a: u32, b: u32) -> bool {
    !is_nan(a) && !is_nan(b) && rank(a) < rank(b)
}

/// `a <= b` on binary32: false where either is a NaN.
pub open spec fn number_le(a: u32, b: u32) -> bool {
    !is_nan(a) && !is_nan(b) && rank(a) <= rank(b)
}

/// Whether `bits` is a NaN.
pub fn nan(bits: u32) -> (r: bool)
    ensures
        r == is_nan(bits),
{
    bits & 0x7fff_ffff > 0x7f80_0000
}

/// Whether `bits` is one of the two zeros.
pub fn zero(bits: u32) -> (r: bool)
    ensures
        r == is_zero(bits),
{
    bits & 0x7fff_ffff == 0
}

/// The rank of `bits`.
fn position(bits: u32) -> (r: i64)
    ensures
        r == rank(bits),
{
    let m: u32 = bits & 0x7fff_ffff;
    if bits & 0x8000_0000 != 0 {
        -(m as i64)
    } else {
        m as i64
    }
}

/// Whether `a == b` as binary32 numbers.
pub fn equal(a: u32, b: u32) -> (r: bool)
    ensures
        r == number_eq(a, b),
{
    !nan(a) && !nan(b) && position(a) == position(b)
}

/// Whether `a < b` as binary32 numbers.
pub fn less(a: u32, b: u32) -> (r: bool)
    ensures
        r == number_lt(a, b),
{
    !nan(a) && !nan(b) && position(a) < position(b)
}

/// Whether `a <= b` as binary32 numbers.
pub fn less_equal(a: u32, b: u32) -> (r: bool)
    ensures
        r == number_le(a, b),
{
    !nan(a) && !nan(b) && position(a) <= position(b)
}

/// Two to the power `e`.
pub open spec fn two_to(e: nat) -> nat
    decreases e,
{
    if e == 0 {
        1
    } else {
        2 * two_to((e - 1) as nat)
    }
}

/// The biased exponent: bits 23 to 30.
pub open spec fn exponent(bits: u32) -> u32 {
    (bits >> 23) & 0xff
}

/// The fraction: the low 23 bits.
pub open spec fn fraction(bits: u32) -> u32 {
    bits & 0x7f_ffff
}

/// Whether the number can be an index: it is no NaN and lies above `-1.0`,
/// so that what is left of it without its fraction is not negative.
pub open spec fn has_index(bits: u32) -> bool {
    !is_nan(bits) && (!is_negative(bits) || exponent(bits) < 127)
}

/// The number without its fraction, where that is not negative: zero for
/// what lies below one, else the significand, with its leading one, scaled
/// by the exponent. Infinity comes out as two to the 128. For a NaN and a
/// negative number it is zero, and of no use: see `has_index`.
pub open spec fn whole_part(bits: u32) -> nat {
    if is_nan(bits) || is_negative(bits) || exponent(bits) < 127 {
        0
    } else if exponent(bits) <= 150 {
        (0x80_0000 + fraction(bits)) as nat / two_to((150 - exponent(bits)) as nat)
    } else {
        (0x80_0000 + fraction(bits)) as nat * two_to((exponent(bits) - 150) as nat)
    }
}

/// Powers of two grow with the exponent.
pub proof fn lemma_two_to_grows(a: nat, b: nat)
    requires
        a <= b,
    ensures
        0 < two_to(a) <= two_to(b),
    decreases b,
{
    if a < b {
        lemma_two_to_grows(a, (b - 1) as nat);
    } else if b > 0 {
        lemma_two_to_grows((a - 1) as nat, (b - 1) as nat);
    }
}

/// The number as an index: its whole part, saturating at `usize::MAX`.
/// A NaN, and `-1.0` and what lies below it, are no index.
pub fn index_of(bits: u32) -> (r: Option<usize>)
    ensures
        match r {
            Some(i) => has_index(bits) && i == if whole_part(bits) > usize::MAX {
                usize::MAX as nat
            } else {
                whole_part(bits)
            },
            None => !has_index(bits),
        },
{
    let e: u32 = (bits >> 23) & 0xff;
    if nan(bits) || (bits & 0x8000_0000 != 0 && e >= 127) {
        None
    } else {
        Some(whole(bits))
    }
}

/// The whole part of a number, saturating at `usize::MAX`.
fn whole(bits: u32) -> (r: usize)
    ensures
        r == if whole_part(bits) > usize::MAX {
            usize::MAX as nat
        } else {
            whole_part(bits)
        },
{
    let e: u32 = (bits >> 23) & 0xff;
    let f: u32 = bits & 0x7f_ffff;
    assert(e <= 255 && f < 0x80_0000) by (bit_vector)
        requires
            e == (bits >> 23) & 0xff,
            f == bits & 0x7f_ffff,
    ;
    if nan(bits) || bits & 0x8000_0000 != 0 || e < 127 {
        return 0;
    }
    let m: usize = (0x80_0000 + f) as usize;
    let mut r: usize = m;
    let mut k: u32 = 0;
    assert(two_to(0) == 1);
    if e <= 150 {
        let s: u32 = 150 - e;
        while k < s
            invariant
                k <= s,
                r == m as nat / two_to(k as nat),
            decreases s - k,
        {
            proof {
                lemma_two_to_grows(0, k as nat);
                vstd::arithmetic::div_mod::lemma_div_denominator(
                    m as int,
                    two_to(k as nat) as int,
                    2,
                );
            }
            r = r / 2;
            k = k + 1;
        }
        r
    } else {
        let s: u32 = e - 150;
        while k < s
            invariant
                k <= s,
                r == m as nat * two_to(k as nat),
                m >= 1,
                whole_part(bits) == m as nat * two_to(s as nat),
            decreases s - k,
        {
            if r > usize::MAX / 2 {
                proof {
                    lemma_two_to_grows((k + 1) as nat, s as nat);
                    assert(m * two_to((k + 1) as nat) <= m * two_to(s as nat))
                        by (nonlinear_arith)
                        requires
                            two_to((k + 1) as nat) <= two_to(s as nat),
                    ;
                    assert(m * two_to((k + 1) as nat) == 2 * (m * two_to(k as nat)))
                        by (nonlinear_arith)
                        requires
                            two_to((k + 1) as nat) == 2 * two_to(k as nat),
                    ;
                }
                return usize::MAX;
            }
            proof {
                assert(m * two_to((k + 1) as nat) == 2 * (m * two_to(k as nat)))
                    by (nonlinear_arith)
                    requires
                        two_to((k + 1) as nat) == 2 * two_to(k as nat),
                ;
            }
            r = r * 2;
            k = k + 1;
        }
        r
    }
}

/// The position of the highest set bit of `n`; zero for zero.
pub open spec fn top_bit(n: nat) -> nat
    decreases n,
{
    if n <= 1 {
        0
    } else {
        1 + top_bit(n / 2)
    }
}

/// The binary32 number nearest to the whole number `n`; of two that are
/// equally near, the one with an even significand. Up to two to the 24 every
/// whole number is hit exactly; what rounds to two to the 128 or more is
/// infinity.
pub open spec fn nearest(n: nat) -> u32 {
    let p = top_bit(n);
    if n == 0 {
        0
    } else if p <= 23 {
        ((p + 127) * 0x80_0000 + (n * two_to((23 - p) as nat) - 0x80_0000)) as u32
    } else {
        let unit = two_to((p - 23) as nat);
        let half = two_to((p - 24) as nat);
        let up: nat = if n % unit > half || (n % unit == half && (n / unit) % 2 == 1) {
            1
        } else {
            0
        };
        let bits = (p + 127) * 0x80_0000 + (n / unit - 0x80_0000) + up;
        if bits >= INFINITY {
            INFINITY
        } else {
            bits as u32
        }
    }
}

/// The highest set bit of `n` is at `k` exactly when `n` lies between two to
/// the `k` and two to the `k + 1`.
pub proof fn lemma_top_bit(n: nat, k: nat)
    requires
        two_to(k) <= n < 2 * two_to(k),
    ensures
        top_bit(n) == k,
    decreases k,
{
    if k > 0 {
        lemma_top_bit(n / 2, (k - 1) as nat);
    }
}

/// A number of at least two to the `k` has its highest bit at `k` or above.
pub proof fn lemma_top_bit_grows(n: nat, k: nat)
    requires
        two_to(k) <= n,
    ensures
        top_bit(n) >= k,
    decreases k,
{
    if k > 0 {
        lemma_two_to_grows(0, (k - 1) as nat);
        lemma_top_bit_grows(n / 2, (k - 1) as nat);
    }
}

/// The binary32 number nearest to `n`.
pub fn round(n: u128) -> (bits: u32)
    ensures
        bits == nearest(n as nat),
{
    if n == 0 {
        return 0;
    }
    let mut p: u32 = 0;
    let mut t: u128 = 1;
    while n / 2 >= t
        invariant
            t == two_to(p as nat),
            1 <= t <= n,
            p <= 127,
        decreases n - t,
    {
        proof {
            if p == 127 {
                lemma_two_to_grows(0, 0);
                assert(two_to(128) == 0x1_0000_0000_0000_0000_0000_0000_0000_0000) by {
                    lemma_two_to_128();
                }
            }
        }
        t = t * 2;
        p = p + 1;
    }
    proof {
        lemma_top_bit(n as nat, p as nat);
    }
    if p <= 23 {
        let mut scale: u128 = 1;
        let mut k: u32 = 0;
        while k < 23 - p
            invariant
                p <= 23,
                k <= 23 - p,
                scale == two_to(k as nat),
                1 <= scale <= 0x80_0000,
            decreases 23 - p - k,
        {
            proof {
                lemma_two_to_grows((k + 1) as nat, 23);
                lemma_two_to_23();
            }
            scale = scale * 2;
            k = k + 1;
        }
        proof {
            lemma_two_to_23();
            assert(two_to(23) == two_to(p as nat) * two_to((23 - p) as nat)) by {
                lemma_two_to_sum(p as nat, (23 - p) as nat);
            }
            assert(0x80_0000 <= n * scale < 0x100_0000) by (nonlinear_arith)
                requires
                    t <= n < 2 * t,
                    t * scale == 0x80_0000,
                    scale >= 1,
            ;
        }
        ((p + 127) as u128 * 0x80_0000 + (n * scale - 0x80_0000)) as u32
    } else {
        let mut half: u128 = 1;
        let mut k: u32 = 0;
        while k < p - 24
            invariant
                24 <= p <= 127,
                k <= p - 24,
                half == two_to(k as nat),
                half <= t,
                t == two_to(p as nat),
            decreases p - 24 - k,
        {
            proof {
                lemma_two_to_grows((k + 1) as nat, p as nat);
            }
            half = half * 2;
            k = k + 1;
        }
        proof {
            lemma_two_to_grows((p - 23) as nat, p as nat);
            lemma_two_to_23();
            lemma_two_to_sum(23, (p - 23) as nat);
        }
        let unit: u128 = half * 2;
        let q: u128 = n / unit;
        let r: u128 = n % unit;
        proof {
            assert(0x80_0000 <= q < 0x100_0000) by (nonlinear_arith)
                requires
                    t <= n < 2 * t,
                    t == 0x80_0000 * unit,
                    unit >= 1,
                    q == n / unit,
            ;
        }
        let up: u128 = if r > half || (r == half && q % 2 == 1) {
            1
        } else {
            0
        };
        let bits: u128 = (p + 127) as u128 * 0x80_0000 + (q - 0x80_0000) + up;
        if bits >= INFINITY as u128 {
            INFINITY
        } else {
            bits as u32
        }
    }
}

/// Two to the 23.
pub proof fn lemma_two_to_23()
    ensures
        two_to(23) == 0x80_0000,
{
    reveal_with_fuel(two_to, 24);
}

/// Two to the 128.
pub proof fn lemma_two_to_128()
    ensures
        two_to(128) == 0x1_0000_0000_0000_0000_0000_0000_0000_0000,
{
    lemma_two_to_23();
    lemma_two_to_sum(23, 23);
    assert(two_to(46) == 0x4000_0000_0000);
    lemma_two_to_sum(46, 46);
    lemma_two_to_sum(92, 23);
    assert(two_to(13) == 0x2000) by {
        reveal_with_fuel(two_to, 14);
    }
    lemma_two_to_sum(115, 13);
}

/// Powers of two multiply as their exponents add.
pub proof fn lemma_two_to_sum(a: nat, b: nat)
    ensures
        two_to(a + b) == two_to(a) * two_to(b),
    decreases b,
{
    if b > 0 {
        lemma_two_to_sum(a, (b - 1) as nat);
        assert(2 * (two_to(a) * two_to((b - 1) as nat)) == two_to(a) * (2 * two_to((b - 1) as nat)))
            by (nonlinear_arith);
    } else {
        assert(two_to(0) == 1);
    }
}

/// The binary32 number nearest to `n`.
pub fn of_usize(n: usize) -> (bits: u32)
    ensures
        bits == nearest(n as nat),
{
    round(n as u128)
}

/// The digit that `c` stands for; zero for what is no digit.
pub open spec fn digit_value(c: char) -> nat {
    if '0' <= c <= '9' {
        (c as u32 - '0' as u32) as nat
    } else {
        0
    }
}

/// The whole number that `digits` spell in base ten.
pub open spec fn decimal_value(digits: Seq<char>) -> nat
    decreases digits.len(),
{
    if digits.len() == 0 {
        0
    } else {
        decimal_value(digits.drop_last()) * 10 + digit_value(digits.last())
    }
}

/// A decimal numeral is worth at least as much as each of its prefixes.
pub proof fn lemma_decimal_prefix(digits: Seq<char>, k: int)
    requires
        0 <= k <= digits.len(),
    ensures
        decimal_value(digits.take(k)) <= decimal_value(digits),
    decreases digits.len(),
{
    if k < digits.len() {
        lemma_decimal_prefix(digits.drop_last(), k);
        assert(digits.drop_last().take(k) =~= digits.take(k));
    } else {
        assert(digits.take(k) =~= digits);
    }
}

/// The binary32 number nearest to the decimal numeral `text[from .. from + len]`.
pub fn of_digits(text: &Vec<char>, from: usize, len: usize) -> (bits: u32)
    requires
        from + len <= text.len(),
    ensures
        bits == nearest(decimal_value(text@.subrange(from as int, from + len))),
{
    let ghost digits = text@.subrange(from as int, from + len);
    let mut n: u128 = 0;
    let mut k: usize = 0;
    while k < len
        invariant
            k <= len,
            from + len <= text.len(),
            digits == text@.subrange(from as int, from + len),
            n == decimal_value(digits.take(k as int)),
        decreases len - k,
    {
        let c = text[from + k];
        let d: u128 = if '0' <= c && c <= '9' {
            (c as u32 - '0' as u32) as u128
        } else {
            0
        };
        proof {
            assert(digits.take(k + 1).drop_last() =~= digits.take(k as int));
        }
        if n > (u128::MAX - d) / 10 {
            proof {
                lemma_decimal_prefix(digits, k + 1);
                lemma_two_to_128();
                lemma_top_bit_grows(decimal_value(digits), 128);
                assert(decimal_value(digits) / two_to((top_bit(decimal_value(digits)) - 23) as nat)
                    >= 0x80_0000) by {
                    lemma_quotient(decimal_value(digits));
                }
            }
            return INFINITY;
        }
        n = n * 10 + d;
        k = k + 1;
    }
    assert(digits.take(len as int) =~= digits);
    round(n)
}

/// The significand of a number that needs rounding has 24 bits.
pub proof fn lemma_quotient(n: nat)
    requires
        top_bit(n) >= 23,
        n >= 1,
    ensures
        0x80_0000 <= n / two_to((top_bit(n) - 23) as nat) < 0x100_0000,
{
    let p = top_bit(n);
    lemma_top_bit_bounds(n);
    lemma_two_to_sum(23, (p - 23) as nat);
    lemma_two_to_23();
    lemma_two_to_grows(0, (p - 23) as nat);
    let unit = two_to((p - 23) as nat);
    let t = two_to(p);
    assert(0x80_0000 <= n / unit < 0x100_0000) by (nonlinear_arith)
        requires
            t <= n < 2 * t,
            t == 0x80_0000 * unit,
            unit >= 1,
    ;
}

/// A number lies between two to its highest bit and twice that.
pub proof fn lemma_top_bit_bounds(n: nat)
    requires
        n >= 1,
    ensures
        two_to(top_bit(n)) <= n < 2 * two_to(top_bit(n)),
    decreases n,
{
    if n > 1 {
        lemma_top_bit_bounds(n / 2);
    }
}

/// Up to two to the 24 a whole number and the binary32 number nearest to
/// it are the same number: cut back to a whole number, it is the number it
/// was made from.
pub proof fn lemma_nearest_exact(n: nat)
    requires
        n < 0x100_0000,
    ensures
        whole_part(nearest(n)) == n,
        has_index(nearest(n)),
        !is_nan(nearest(n)),
        !is_negative(nearest(n)),
{
    if n == 0 {
        let bits: u32 = 0;
        assert((bits >> 23) & 0xff == 0 && bits & 0x7fff_ffff == 0 && bits & 0x8000_0000 == 0)
            by (bit_vector)
            requires
                bits == 0,
        ;
    } else {
        let p = top_bit(n);
        lemma_top_bit_bounds(n);
        lemma_two_to_23();
        if p >= 24 {
            lemma_two_to_grows(24, p);
        }
        let scale = two_to((23 - p) as nat);
        lemma_two_to_sum(p, (23 - p) as nat);
        lemma_two_to_grows(0, (23 - p) as nat);
        let t = two_to(p);
        assert(0x80_0000 <= n * scale < 0x100_0000) by (nonlinear_arith)
            requires
                t <= n < 2 * t,
                t * scale == 0x80_0000,
                scale >= 1,
        ;
        let e: u32 = (p + 127) as u32;
        let f: u32 = (n * scale - 0x80_0000) as u32;
        let bits: u32 = (e * 0x80_0000 + f) as u32;
        assert((bits >> 23) & 0xff == e && bits & 0x7f_ffff == f && bits & 0x8000_0000 == 0
            && bits & 0x7fff_ffff <= 0x7f80_0000) by (bit_vector)
            requires
                bits == e * 0x80_0000 + f,
                e <= 150,
                f < 0x80_0000,
        ;
        assert((n * scale) / scale == n) by (nonlinear_arith)
            requires
                scale >= 1,
        ;
    }
}

} // verus!
