//! Numbers in the binary64 format, as bit patterns.
//!
//! Compositors report scales as binary64 numbers.  What is computed from them
//! here is computed on integers, with the format's own rounding: to 53
//! significant binary digits, a tie to the even one.

use vstd::arithmetic::power2::{
    lemma_pow2_adds, lemma_pow2_strictly_increases, lemma_pow2_unfold, pow2,
};
use vstd::prelude::*;

verus! {

/// The bit pattern of the number one.
pub const ONE: u64 = 0x3ff0_0000_0000_0000;

/// The bit pattern of positive infinity.
pub const INFINITY: u64 = 0x7ff0_0000_0000_0000;

/// The weight of the lowest exponent bit.
pub const EXPONENT_UNIT: u64 = 0x10_0000_0000_0000;

pub open spec fn exponent_field(bits: u64) -> int {
    (bits as int / EXPONENT_UNIT as int) % 2048
}

/// A finite number is its mantissa times two to the power of its exponent.
pub open spec fn mantissa(bits: u64) -> int {
    if exponent_field(bits) == 0 {
        bits as int % EXPONENT_UNIT as int
    } else {
        EXPONENT_UNIT as int + bits as int % EXPONENT_UNIT as int
    }
}

pub open spec fn exponent(bits: u64) -> int {
    (if exponent_field(bits) == 0 {
        1
    } else {
        exponent_field(bits)
    }) - 1075
}

/// The number is greater than zero; infinity is, no number at all is not.
pub open spec fn is_positive(bits: u64) -> bool {
    0 < bits <= INFINITY
}

/// The integer nearest to `n / d`, the even one of two equally near.
pub open spec fn nearest_even(n: int, d: int) -> int {
    let (q, r) = (n / d, n % d);
    if 2 * r < d || 2 * r == d && q % 2 == 0 {
        q
    } else {
        q + 1
    }
}

/// Rounds `n / d` to the nearest integer, a tie to the even one.
pub fn round_even(n: u128, d: u128) -> (q: u128)
    requires
        0 < d <= 0xffff_ffff_ffff_ffff,
        n < 0x1_0000_0000_0000_0000_0000_0000_0000,
    ensures
        q == nearest_even(n as int, d as int),
        q <= n / d + 1,
{
    let q: u128 = n / d;
    let r: u128 = n % d;
    if 2 * r < d || 2 * r == d && q % 2 == 0 {
        q
    } else {
        q + 1
    }
}

/// A natural number to 53 significant digits, the last of them worth at least
/// `unit`.
pub open spec fn to_53_digits(n: int, unit: int) -> int
    decreases n - unit,
{
    if unit <= 0 || n < unit * 0x20_0000_0000_0000 {
        nearest_even(n, unit) * unit
    } else {
        to_53_digits(n, unit * 2)
    }
}

/// The binary64 number nearest to a natural number.
pub open spec fn nearest_number(n: int) -> int {
    to_53_digits(n, 1)
}

/// The significant digits of `n / d`, and how often `n` has been doubled to
/// bring them up to 53.
pub open spec fn quotient_digits(n: int, d: int, doublings: int) -> (int, int)
    decreases 200 - doublings,
{
    if n >= d * EXPONENT_UNIT || doublings >= 200 {
        (nearest_even(n, d), doublings)
    } else {
        quotient_digits(n * 2, d, doublings + 1)
    }
}

/// The integer nearest to `digits / 2^shift`, a tie away from zero.
pub open spec fn nearest_integer(digits: int, shift: int) -> int {
    if shift <= 0 {
        digits * pow2((-shift) as nat)
    } else {
        (digits + pow2((shift - 1) as nat)) / (pow2(shift as nat) as int)
    }
}

/// A length divided by a scale: the binary64 quotient, rounded to the nearest
/// integer.
pub open spec fn scaled_length(length: int, scale: u64) -> int {
    if length == 0 || scale == INFINITY {
        0
    } else {
        let (digits, doublings) = quotient_digits(nearest_number(length), mantissa(scale), 0);
        nearest_integer(digits, doublings + exponent(scale))
    }
}

/// A positive finite number rounded to the nearest integer.
pub open spec fn rounded_number(bits: u64) -> int {
    nearest_integer(mantissa(bits), -exponent(bits))
}

pub open spec fn at_most(n: int, limit: int) -> int {
    if n <= limit {
        n
    } else {
        limit
    }
}

proof fn lemma_pow2_54(shift: int)
    requires
        shift >= 56,
    ensures
        pow2((shift - 1) as nat) > 0x40_0000_0000_0000,
        pow2(shift as nat) == 2 * pow2((shift - 1) as nat),
{
    lemma_pow2_unfold(shift as nat);
    lemma_pow2_at_54();
    lemma_pow2_strictly_increases(54, (shift - 1) as nat);
}

proof fn lemma_pow2_at_54()
    ensures
        pow2(54) == 0x40_0000_0000_0000,
{
    vstd::arithmetic::power2::lemma2_to64();
    lemma_pow2_adds(32, 22);
}

proof fn lemma_pow2_at_1074()
    ensures
        pow2(1074) > u64::MAX,
{
    vstd::arithmetic::power2::lemma2_to64();
    lemma_pow2_strictly_increases(64, 1074);
}

/// The nearest integer, capped at the largest `u64`.
pub fn round_shifted(digits: u64, shift: i32) -> (value: u64)
    requires
        digits <= 0x40_0000_0000_0000,
        -3000 < shift < 3000,
    ensures
        value == at_most(nearest_integer(digits as int, shift as int), u64::MAX as int),
{
    if shift <= 0 {
        let times: u32 = (-shift) as u32;
        let mut value: u64 = digits;
        let mut done: u32 = 0;
        proof {
            vstd::arithmetic::power2::lemma2_to64();
        }
        while done < times
            invariant
                times == -shift,
                shift <= 0,
                done <= times,
                value == digits * pow2(done as nat),
                digits <= 0x40_0000_0000_0000,
            decreases times - done,
        {
            proof {
                lemma_pow2_unfold((done + 1) as nat);
                let (p, q) = (pow2(done as nat) as int, pow2((done + 1) as nat) as int);
                assert(digits * q == 2 * (digits * p)) by (nonlinear_arith)
                    requires
                        q == 2 * p,
                ;
            }
            if value > 0x7fff_ffff_ffff_ffff {
                proof {
                    if done + 1 < times {
                        lemma_pow2_strictly_increases((done + 1) as nat, times as nat);
                    }
                    let (p, q) = (pow2((done + 1) as nat) as int, pow2(times as nat) as int);
                    assert(digits * p <= digits * q) by (nonlinear_arith)
                        requires
                            p <= q,
                            digits >= 0,
                    ;
                }
                return u64::MAX;
            }
            value = value * 2;
            done = done + 1;
        }
        value
    } else if shift >= 56 {
        proof {
            lemma_pow2_54(shift as int);
            let (p, q) = (pow2((shift - 1) as nat) as int, pow2(shift as nat) as int);
            assert((digits + p) / q == 0) by (nonlinear_arith)
                requires
                    0 <= digits < p,
                    q == 2 * p,
            ;
        }
        0
    } else {
        let mut half: u64 = 1;
        let mut done: i32 = 1;
        proof {
            vstd::arithmetic::power2::lemma2_to64();
        }
        while done < shift
            invariant
                1 <= done <= shift < 56,
                half == pow2((done - 1) as nat),
                1 <= half <= 0x40_0000_0000_0000,
            decreases shift - done,
        {
            proof {
                lemma_pow2_unfold(done as nat);
                lemma_pow2_at_54();
                if done < 54 {
                    lemma_pow2_strictly_increases(done as nat, 54);
                }
            }
            half = half * 2;
            done = done + 1;
        }
        proof {
            lemma_pow2_unfold(shift as nat);
        }
        (digits + half) / (half * 2)
    }
}

/// The parts of a positive finite number.
fn parts(bits: u64) -> (parts: (u64, i32))
    requires
        is_positive(bits),
        bits != INFINITY,
    ensures
        parts.0 == mantissa(bits),
        parts.1 == exponent(bits),
        1 <= parts.0 < 0x20_0000_0000_0000,
        -1074 <= parts.1 <= 971,
{
    let field: u64 = bits / EXPONENT_UNIT;
    let fraction: u64 = bits % EXPONENT_UNIT;
    proof {
        assert(field < 2047);
        vstd::arithmetic::div_mod::lemma_small_mod(field as nat, 2048);
    }
    if field == 0 {
        (fraction, -1074)
    } else {
        (EXPONENT_UNIT + fraction, field as i32 - 1075)
    }
}

/// The binary64 number nearest to `n`.
fn to_number(n: u64) -> (number: u128)
    ensures
        number == nearest_number(n as int),
        n > 0 ==> 1 <= number,
        number <= 0x1_0000_0000_0000_1000,
{
    let mut unit: u64 = 1;
    while n as u128 >= unit as u128 * 0x20_0000_0000_0000
        invariant
            1 <= unit <= 4096,
            to_53_digits(n as int, unit as int) == nearest_number(n as int),
            unit > 1 ==> n >= (unit / 2) * 0x20_0000_0000_0000,
        decreases 4096 - unit,
    {
        unit = unit * 2;
    }
    let q: u128 = round_even(n as u128, unit as u128);
    proof {
        let (nn, u, k) = (n as int, unit as int, q as int);
        vstd::arithmetic::div_mod::lemma_fundamental_div_mod(nn, u);
        let d = nn / u;
        assert(k * u <= nn + u && k * u >= 0) by (nonlinear_arith)
            requires
                0 <= k <= d + 1,
                u * d <= nn,
                u >= 1,
        ;
        if n > 0 {
            assert(d >= 1) by (nonlinear_arith)
                requires
                    nn >= u,
                    d == nn / u,
                    u >= 1,
            ;
            assert(k >= 1);
            assert(k * u >= 1) by (nonlinear_arith)
                requires
                    k >= 1,
                    u >= 1,
            ;
        }
    }
    q * unit as u128
}

/// Divides a length by a scale and rounds the quotient to an integer, capped
/// at the largest `u64`.
pub fn scale_length(length: u64, scale: u64) -> (scaled: u64)
    requires
        is_positive(scale),
    ensures
        scaled == at_most(scaled_length(length as int, scale), u64::MAX as int),
{
    if length == 0 || scale == INFINITY {
        return 0;
    }
    let (divisor, power) = parts(scale);
    let mut n: u128 = to_number(length);
    let goal: u128 = divisor as u128 * EXPONENT_UNIT as u128;
    let ghost start = n as int;
    let mut doublings: i32 = 0;
    while n < goal && doublings < 200
        invariant
            1 <= divisor < 0x20_0000_0000_0000,
            goal == divisor * EXPONENT_UNIT,
            1 <= n <= 2 * goal + 0x1_0000_0000_0000_1000,
            doublings > 0 ==> n < 2 * goal,
            doublings == 0 ==> n == start,
            0 <= doublings <= 200,
            quotient_digits(n as int, divisor as int, doublings as int) == quotient_digits(
                start,
                divisor as int,
                0,
            ),
        decreases 200 - doublings,
    {
        n = n * 2;
        doublings = doublings + 1;
    }
    let digits: u128 = round_even(n, divisor as u128);
    if digits > 0x40_0000_0000_0000 {
        proof {
            let (a, d, q) = (n as int, divisor as int, n as int / divisor as int);
            vstd::arithmetic::div_mod::lemma_fundamental_div_mod(a, d);
            if doublings > 0 {
                assert(q < 0x20_0000_0000_0000) by (nonlinear_arith)
                    requires
                        d * q <= a,
                        a < 2 * (d * 0x10_0000_0000_0000),
                        d >= 1,
                ;
            }
            assert(d < 0x10_0000_0000_0000) by (nonlinear_arith)
                requires
                    d * q <= a,
                    a <= 0x1_0000_0000_0000_1000,
                    q >= 0x40_0000_0000_0000,
                    d >= 1,
            ;
            assert(exponent(scale) == -1074);
            lemma_pow2_at_1074();
            let p = pow2(1074) as int;
            assert(digits * p >= p) by (nonlinear_arith)
                requires
                    digits >= 1,
                    p >= 0,
            ;
        }
        return u64::MAX;
    }
    round_shifted(digits as u64, doublings + power)
}

/// A positive finite number rounded to the nearest integer, capped at the
/// largest `u64`.
pub fn round_number(bits: u64) -> (value: u64)
    requires
        is_positive(bits),
        bits != INFINITY,
    ensures
        value == at_most(rounded_number(bits), u64::MAX as int),
{
    let (digits, power) = parts(bits);
    round_shifted(digits, -power)
}

/// A number is rounded to the nearest integer, the larger of two equally near:
/// the result is at most half away from it.
pub proof fn law_a_number_is_rounded_to_the_nearest_integer(bits: u64)
    ensures
        rounded_number(bits) >= 0,
        exponent(bits) >= 0 ==> rounded_number(bits) == mantissa(bits) * pow2(
            exponent(bits) as nat,
        ),
        exponent(bits) < 0 ==> ({
            let unit = pow2((-exponent(bits)) as nat) as int;
            -unit < 2 * (rounded_number(bits) * unit - mantissa(bits)) <= unit
        }),
{
    let shift = -exponent(bits);
    if shift > 0 {
        let unit = pow2(shift as nat) as int;
        let half = pow2((shift - 1) as nat) as int;
        vstd::arithmetic::power2::lemma_pow2_unfold(shift as nat);
        vstd::arithmetic::power2::lemma_pow2_pos((shift - 1) as nat);
        let total = mantissa(bits) + half;
        vstd::arithmetic::div_mod::lemma_fundamental_div_mod(total, unit);
        let q = total / unit;
        assert(q * unit == unit * q) by (nonlinear_arith);
        vstd::arithmetic::div_mod::lemma_div_pos_is_pos(total, unit);
    } else {
        assert(mantissa(bits) * pow2((-shift) as nat) >= 0) by (nonlinear_arith)
            requires
                mantissa(bits) >= 0,
        ;
    }
}

/// A quotient is rounded to an integer that is no farther than half from it,
/// and of two such to the even one.
pub proof fn law_a_quotient_is_rounded_to_its_nearest(n: int, d: int)
    requires
        0 < d,
    ensures
        -d <= 2 * (nearest_even(n, d) * d - n) <= d,
        2 * (nearest_even(n, d) * d - n) == d || 2 * (nearest_even(n, d) * d - n) == -d
            ==> nearest_even(n, d) % 2 == 0,
{
    vstd::arithmetic::div_mod::lemma_fundamental_div_mod(n, d);
    let q = n / d;
    assert(d * q == q * d) by (nonlinear_arith);
    assert((q + 1) * d == q * d + d) by (nonlinear_arith);
}

/// A natural number that takes up to 53 digits is kept; any other is rounded
/// to 53 digits, so by no more than the last of them is worth by half.
pub proof fn law_a_number_keeps_53_digits(n: int)
    requires
        0 <= n,
    ensures
        n < 0x20_0000_0000_0000 ==> nearest_number(n) == n,
        -n <= 0x20_0000_0000_0000 * (nearest_number(n) - n) <= n,
{
    law_a_quotient_is_rounded_to_its_nearest(n, 1);
    lemma_53_digits(n, 1);
}

proof fn lemma_53_digits(n: int, unit: int)
    requires
        0 <= n,
        1 <= unit,
        unit == 1 || unit * 0x10_0000_0000_0000 <= n,
    ensures
        -n <= 0x20_0000_0000_0000 * (to_53_digits(n, unit) - n) <= n,
    decreases n - unit,
{
    law_a_quotient_is_rounded_to_its_nearest(n, unit);
    if n >= unit * 0x20_0000_0000_0000 {
        lemma_53_digits(n, unit * 2);
    }
}

proof fn lemma_quotient_digits(n: int, d: int, doublings: int)
    requires
        0 < d,
        0 <= doublings <= 200,
    ensures
        ({
            let (digits, k) = quotient_digits(n, d, doublings);
            let scaled = n * pow2((k - doublings) as nat);
            &&& doublings <= k <= 200
            &&& -d <= 2 * (digits * d - scaled) <= d
            &&& k == 200 || scaled >= d * 0x10_0000_0000_0000
        }),
    decreases 200 - doublings,
{
    vstd::arithmetic::power2::lemma2_to64();
    if n >= d * 0x10_0000_0000_0000 || doublings >= 200 {
        law_a_quotient_is_rounded_to_its_nearest(n, d);
        assert(n * pow2(0) == n) by (nonlinear_arith)
            requires
                pow2(0) == 1,
        ;
    } else {
        lemma_quotient_digits(n * 2, d, doublings + 1);
        let (digits, k) = quotient_digits(n, d, doublings);
        let half = pow2((k - doublings - 1) as nat) as int;
        vstd::arithmetic::power2::lemma_pow2_unfold((k - doublings) as nat);
        assert(n * 2 * half == n * (2 * half)) by (nonlinear_arith);
    }
}

/// A length divided by a scale is the quotient, which is first taken to 53
/// digits and then rounded: with `2^k` the power that brings the quotient up to
/// its 53 digits, the whole number misses by no more than half, and half of the
/// last of those digits.
pub proof fn law_a_scaled_length_is_the_quotient(length: int, scale: u64) -> (k: int)
    requires
        0 < length < 0x20_0000_0000_0000,
        scale != INFINITY,
        mantissa(scale) > 0,
    ensures
        0 <= k <= 200,
        k == 200 || length * pow2(k as nat) >= mantissa(scale) * 0x10_0000_0000_0000,
        k + exponent(scale) > 0 ==> ({
            let unit = pow2((k + exponent(scale)) as nat) as int;
            let off = 2 * (scaled_length(length, scale) * unit * mantissa(scale) - length * pow2(
                k as nat,
            ));
            -(unit + 1) * mantissa(scale) <= off <= (unit + 1) * mantissa(scale)
        }),
        k + exponent(scale) <= 0 ==> ({
            let unit = pow2((-(k + exponent(scale))) as nat) as int;
            let off = 2 * (scaled_length(length, scale) * mantissa(scale) - length * pow2(k as nat)
                * unit);
            -unit * mantissa(scale) <= off <= unit * mantissa(scale)
        }),
{
    law_a_number_keeps_53_digits(length);
    let m = mantissa(scale) as int;
    lemma_quotient_digits(length, m, 0);
    let (digits, k) = quotient_digits(length, m, 0);
    let power = pow2(k as nat) as int;
    let r = scaled_length(length, scale);
    let shift = k + exponent(scale);
    assert(r == nearest_integer(digits, shift));
    let off = digits * m - length * power;
    if shift > 0 {
        let unit = pow2(shift as nat) as int;
        let half = pow2((shift - 1) as nat) as int;
        vstd::arithmetic::power2::lemma_pow2_unfold(shift as nat);
        vstd::arithmetic::power2::lemma_pow2_pos((shift - 1) as nat);
        vstd::arithmetic::div_mod::lemma_fundamental_div_mod(digits + half, unit);
        let rest = (digits + half) % unit;
        assert(-(unit + 1) * m <= 2 * (r * unit * m - length * power) <= (unit + 1) * m)
            by (nonlinear_arith)
            requires
                digits + half == unit * r + rest,
                0 <= rest < unit,
                unit == 2 * half,
                off == digits * m - length * power,
                -m <= 2 * off <= m,
                m > 0,
        ;
    } else {
        let unit = pow2((-shift) as nat) as int;
        vstd::arithmetic::power2::lemma_pow2_pos((-shift) as nat);
        assert(-unit * m <= 2 * (r * m - length * power * unit) <= unit * m) by (nonlinear_arith)
            requires
                r == digits * unit,
                off == digits * m - length * power,
                -m <= 2 * off <= m,
                unit > 0,
        ;
    }
    k
}

} // verus!
