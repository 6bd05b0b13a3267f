//! Adding, multiplying and rounding binary64 numbers with integers alone.
//!
//! Every finite number is a whole multiple of the smallest one, so it is
//! counted in those units here.  A sum or a product is the exact one rounded to
//! 53 significant digits, a tie to the even one.  A result past the largest
//! number is kept instead of becoming infinite.

use vstd::arithmetic::power2::{lemma2_to64, lemma_pow2_adds, lemma_pow2_pos, lemma_pow2_strictly_increases, lemma_pow2_unfold, pow2};
use vstd::prelude::*;

use crate::binary64::{exponent, exponent_field, mantissa, nearest_even, nearest_integer, round_even, round_shifted, to_53_digits, EXPONENT_UNIT};

verus! {

/// Neither infinite nor no number at all.
pub open spec fn is_finite(bits: u64) -> bool {
    exponent_field(bits) != 2047
}

pub fn finite(bits: u64) -> (finite: bool)
    ensures
        finite == is_finite(bits),
{
    (bits / EXPONENT_UNIT) % 2048 != 2047
}

pub open spec fn is_negative(bits: u64) -> bool {
    bits >= 0x8000_0000_0000_0000
}

/// A finite number in units of the smallest one, `2^-1074`.
pub open spec fn units(bits: u64) -> int {
    let magnitude = mantissa(bits) * pow2((exponent(bits) + 1074) as nat);
    if is_negative(bits) {
        -magnitude
    } else {
        magnitude
    }
}

/// The number nearest to a whole number of units.
pub open spec fn nearest(n: int) -> int {
    if n < 0 {
        -to_53_digits(-n, 1)
    } else {
        to_53_digits(n, 1)
    }
}

/// The integer nearest to a number, a tie away from zero.
pub open spec fn whole(n: int) -> int {
    if n < 0 {
        -((-n + pow2(1073)) / (pow2(1074) as int))
    } else {
        (n + pow2(1073)) / (pow2(1074) as int)
    }
}

/// As much of an integer as an `i64` holds.
pub open spec fn clamped(n: int) -> i64 {
    if n > i64::MAX {
        i64::MAX
    } else if n < i64::MIN {
        i64::MIN
    } else {
        n as i64
    }
}

/// A number as a sign, some digits, and a power of two of units.
#[derive(Clone, Copy, Debug)]
pub struct Double {
    pub negative: bool,
    pub digits: u64,
    pub shift: u32,
}

impl View for Double {
    type V = int;

    open spec fn view(&self) -> int {
        if self.negative {
            -(self.digits * pow2(self.shift as nat))
        } else {
            self.digits * pow2(self.shift as nat)
        }
    }
}

impl Double {
    /// The digits are those of a binary64 number: 53 at most, and no fewer
    /// unless the number is among the smallest.
    pub open spec fn plain(self) -> bool {
        &&& self.digits < 0x20_0000_0000_0000
        &&& self.shift <= 2046
        &&& self.shift > 1 ==> self.digits >= 0x10_0000_0000_0000
    }

    /// The digits are few enough to calculate with.
    pub open spec fn short(self) -> bool {
        &&& self.digits <= 0x20_0000_0000_0000
        &&& self.shift <= 2300
    }
}

// ---------------------------------------------------------------------------
// Rounding and powers of two
// ---------------------------------------------------------------------------
proof fn lemma_doubling(n: int, unit: int)
    requires
        0 <= n,
        0 < unit,
    ensures
        to_53_digits(2 * n, 2 * unit) == 2 * to_53_digits(n, unit),
    decreases n - unit,
{
    let two53 = 0x20_0000_0000_0000int;
    assert(2 * n < 2 * unit * two53 <==> n < unit * two53);
    if n < unit * two53 {
        assert((2 * n) / (2 * unit) == n / unit && (2 * n) % (2 * unit) == 2 * (n % unit)) by {
            vstd::arithmetic::div_mod::lemma_fundamental_div_mod(n, unit);
            let (q, r) = (n / unit, n % unit);
            assert(2 * n == q * (2 * unit) + 2 * r) by (nonlinear_arith)
                requires
                    n == unit * q + r,
            ;
            vstd::arithmetic::div_mod::lemma_fundamental_div_mod_converse(
                2 * n,
                2 * unit,
                q,
                2 * r,
            );
        }
        let q = nearest_even(n, unit);
        assert(nearest_even(2 * n, 2 * unit) == q);
        assert(q * (2 * unit) == 2 * (q * unit)) by (nonlinear_arith);
    } else {
        assert((2 * unit) * 2 == 2 * (unit * 2));
        lemma_doubling(n, unit * 2);
    }
}

proof fn lemma_nearest_doubles(n: int)
    requires
        0 <= n,
    ensures
        to_53_digits(2 * n, 1) == 2 * to_53_digits(n, 1),
{
    let two53 = 0x20_0000_0000_0000int;
    if 2 * n < two53 {
        assert(nearest_even(2 * n, 1) == 2 * n && nearest_even(n, 1) == n);
    } else {
        lemma_doubling(n, 1);
    }
}

/// Rounding commutes with powers of two.
proof fn lemma_nearest_shifts(n: int, shift: nat)
    ensures
        nearest(n * pow2(shift)) == nearest(n) * pow2(shift),
    decreases shift,
{
    lemma_pow2_pos(shift);
    if shift == 0 {
        lemma2_to64();
        let (k, one) = (nearest(n), pow2(0) as int);
        assert(n * one == n && k * one == k) by (nonlinear_arith)
            requires
                one == 1,
        ;
    } else {
        lemma_pow2_unfold(shift);
        lemma_nearest_shifts(n, (shift - 1) as nat);
        let p = pow2((shift - 1) as nat) as int;
        let m = n * p;
        let whole_power = pow2(shift) as int;
        assert(n * whole_power == 2 * m) by (nonlinear_arith)
            requires
                m == n * p,
                whole_power == 2 * p,
        ;
        assert(nearest(2 * m) == 2 * nearest(m)) by {
            if m < 0 {
                lemma_nearest_doubles(-m);
            } else {
                lemma_nearest_doubles(m);
            }
        }
        let k = nearest(n);
        assert(2 * (k * p) == k * whole_power) by (nonlinear_arith)
            requires
                whole_power == 2 * p,
        ;
        assert(nearest(m) == k * p);
    }
}

proof fn lemma_near_multiple(c: int, unit: int, r: int)
    requires
        0 < unit,
        -unit < 2 * r < unit,
    ensures
        nearest_even(c * unit + r, unit) == c,
{
    let n = c * unit + r;
    if r >= 0 {
        vstd::arithmetic::div_mod::lemma_fundamental_div_mod_converse(n, unit, c, r);
    } else {
        assert(n == (c - 1) * unit + (unit + r)) by (nonlinear_arith)
            requires
                n == c * unit + r,
        ;
        vstd::arithmetic::div_mod::lemma_fundamental_div_mod_converse(n, unit, c - 1, unit + r);
    }
}

/// The unit is doubled as long as the number is too long for it.
proof fn lemma_unit_reached(n: int, k: nat)
    requires
        n >= 0,
        k > 0 ==> n >= pow2((k - 1) as nat) * 0x20_0000_0000_0000,
    ensures
        to_53_digits(n, 1) == to_53_digits(n, pow2(k) as int),
    decreases k,
{
    if k == 0 {
        lemma2_to64();
    } else {
        lemma_pow2_unfold(k);
        lemma_pow2_pos((k - 1) as nat);
        if k > 1 {
            lemma_pow2_unfold((k - 1) as nat);
        }
        lemma_unit_reached(n, (k - 1) as nat);
    }
}

/// A number so much smaller than another that it does not reach the digits of
/// the other disappears in the sum.
proof fn lemma_negligible(digits: int, distance: nat, rest: int)
    requires
        0x10_0000_0000_0000 <= digits < 0x20_0000_0000_0000,
        distance >= 56,
        -0x20_0000_0000_0000 < rest < 0x20_0000_0000_0000,
    ensures
        digits * pow2(distance) + rest > 0,
        to_53_digits(digits * pow2(distance) + rest, 1) == digits * pow2(distance),
{
    let two52 = 0x10_0000_0000_0000int;
    let two53 = 0x20_0000_0000_0000int;
    let p = pow2(distance) as int;
    let half = pow2((distance - 1) as nat) as int;
    let quarter = pow2((distance - 2) as nat) as int;
    lemma_pow2_unfold(distance);
    lemma_pow2_unfold((distance - 1) as nat);
    assert(quarter >= two53) by {
        lemma2_to64();
        lemma_pow2_adds(32, 21);
        if distance > 56 {
            lemma_pow2_strictly_increases(54, (distance - 2) as nat);
        }
        lemma_pow2_unfold(54);
    }
    let n = digits * p + rest;
    assert(digits * p >= two52 * p) by (nonlinear_arith)
        requires
            digits >= two52,
            p >= 0,
    ;
    assert(two52 * p == quarter * two53 + quarter * two53) by (nonlinear_arith)
        requires
            p == 4 * quarter,
            two53 == 2 * two52,
    ;
    assert(quarter * two53 >= two53) by (nonlinear_arith)
        requires
            quarter >= two53,
            two53 >= 1,
    ;
    assert(n >= quarter * two53);
    lemma_unit_reached(n, (distance - 1) as nat);
    if n < half * two53 {
        // Only the smallest digits can fall below their own power.
        if digits > two52 {
            assert(digits * p >= (two52 + 1) * p) by (nonlinear_arith)
                requires
                    digits >= two52 + 1,
                    p >= 0,
            ;
            assert((two52 + 1) * p == half * two53 + p) by (nonlinear_arith)
                requires
                    p == 2 * half,
                    two53 == 2 * two52,
            ;
        }
        assert(digits * p == two53 * half) by (nonlinear_arith)
            requires
                digits == two52,
                p == 2 * half,
                two53 == 2 * two52,
        ;
        lemma_near_multiple(two53, half, rest);
    } else {
        assert(to_53_digits(n, half) == to_53_digits(n, p)) by {
            lemma_pow2_pos((distance - 1) as nat);
        }
        assert(digits * p <= (two53 - 1) * p) by (nonlinear_arith)
            requires
                digits <= two53 - 1,
                p >= 0,
        ;
        assert((two53 - 1) * p == p * two53 - p) by (nonlinear_arith);
        assert(n < p * two53);
        lemma_near_multiple(digits, p, rest);
        lemma_pow2_pos(distance);
    }
}

/// Rounds a magnitude to 53 digits: the digits, and the power of two they
/// stand for.
fn round_digits(n: u128) -> (rounded: (u64, u32))
    requires
        n < 0x1_0000_0000_0000_0000_0000_0000_0000,
    ensures
        rounded.0 * pow2(rounded.1 as nat) == to_53_digits(n as int, 1),
        rounded.0 <= 0x20_0000_0000_0000,
        rounded.1 <= 60,
{
    let mut unit: u128 = 1;
    let mut power: u32 = 0;
    proof {
        lemma2_to64();
    }
    while n >= unit * 0x20_0000_0000_0000
        invariant
            unit == pow2(power as nat),
            power <= 60,
            1 <= unit <= 0x1000_0000_0000_0000,
            n < 0x1_0000_0000_0000_0000_0000_0000_0000,
            to_53_digits(n as int, unit as int) == to_53_digits(n as int, 1),
            power > 0 ==> n >= (unit / 2) * 0x20_0000_0000_0000,
        decreases 0x1000_0000_0000_0000 - unit,
    {
        proof {
            lemma_pow2_unfold((power + 1) as nat);
            lemma2_to64();
            if power == 60 {
                lemma_pow2_adds(32, 28);
                assert(unit == 0x1000_0000_0000_0000);
                assert(false);
            } else if power < 59 {
                lemma_pow2_strictly_increases((power + 1) as nat, 60);
            }
            lemma_pow2_adds(32, 28);
        }
        unit = unit * 2;
        power = power + 1;
    }
    let q: u128 = round_even(n, unit);
    proof {
        let (nn, u) = (n as int, unit as int);
        assert(nn / u < 0x20_0000_0000_0000) by (nonlinear_arith)
            requires
                nn < u * 0x20_0000_0000_0000,
                u >= 1,
                0 <= nn,
        ;
    }
    (q as u64, power)
}

proof fn lemma_units_of_parts(digits: int, low: nat, extra: nat)
    ensures
        digits * pow2(extra) * pow2(low) == digits * pow2(low + extra),
{
    lemma_pow2_adds(low, extra);
    let (a, b) = (pow2(low) as int, pow2(extra) as int);
    assert(digits * b * a == digits * (a * b)) by (nonlinear_arith);
}

impl Double {
    /// The number a bit pattern stands for.
    pub fn read(bits: u64) -> (number: Self)
        requires
            is_finite(bits),
        ensures
            number@ == units(bits),
            number.plain(),
            number.shift > 0 ==> number.digits >= 0x10_0000_0000_0000,
            number.shift < 2046,
    {
        let field: u64 = (bits / EXPONENT_UNIT) % 2048;
        let fraction: u64 = bits % EXPONENT_UNIT;
        let negative = bits >= 0x8000_0000_0000_0000;
        if field == 0 {
            Double { negative, digits: fraction, shift: 0 }
        } else {
            Double { negative, digits: EXPONENT_UNIT + fraction, shift: (field - 1) as u32 }
        }
    }

    /// Twice the number, which needs no rounding.
    pub fn doubled(self) -> (number: Self)
        requires
            self.plain(),
            self.shift < 2046,
            self.shift > 0 ==> self.digits >= 0x10_0000_0000_0000,
        ensures
            number@ == 2 * self@,
            number.plain(),
    {
        proof {
            lemma_pow2_unfold((self.shift + 1) as nat);
            let p = pow2(self.shift as nat) as int;
            assert(self.digits * (2 * p) == 2 * (self.digits * p)) by (nonlinear_arith);
        }
        Double { negative: self.negative, digits: self.digits, shift: self.shift + 1 }
    }

    /// The number with the other sign.
    pub fn negated(self) -> (number: Self)
        requires
            self.plain(),
        ensures
            number@ == -self@,
            number.plain(),
    {
        Double { negative: !self.negative, digits: self.digits, shift: self.shift }
    }

    /// The sum of a number and one with no higher a power.
    fn plus_lower(self, low: Double) -> (sum: Self)
        requires
            self.plain(),
            low.plain(),
            low.shift <= self.shift,
        ensures
            sum@ == nearest(self@ + low@),
            sum.short(),
            sum.shift <= 2106,
    {
        let distance: u32 = self.shift - low.shift;
        let ghost base = pow2(low.shift as nat) as int;
        let ghost signed_low = if low.negative {
            -(low.digits as int)
        } else {
            low.digits as int
        };
        let ghost raised = self.digits * pow2(distance as nat);
        let ghost signed_high = if self.negative {
            -raised
        } else {
            raised
        };
        proof {
            lemma_pow2_pos(low.shift as nat);
            lemma_units_of_parts(self.digits as int, low.shift as nat, distance as nat);
            let total = signed_high + signed_low;
            assert((-raised) * base == -(raised * base)) by (nonlinear_arith);
            let digits_below = low.digits as int;
            assert((-digits_below) * base == -(digits_below * base)) by (nonlinear_arith);
            assert(self@ + low@ == total * base) by (nonlinear_arith)
                requires
                    self@ == signed_high * base,
                    low@ == signed_low * base,
                    total == signed_high + signed_low,
            ;
            lemma_nearest_shifts(total, low.shift as nat);
        }
        if distance >= 56 {
            proof {
                if self.negative {
                    lemma_negligible(self.digits as int, distance as nat, -signed_low);
                } else {
                    lemma_negligible(self.digits as int, distance as nat, signed_low);
                }
                assert(nearest(signed_high + signed_low) == signed_high);
            }
            return self;
        }
        let mut high: u128 = self.digits as u128;
        let mut done: u32 = 0;
        proof {
            lemma2_to64();
        }
        while done < distance
            invariant
                done <= distance < 56,
                self.digits < 0x20_0000_0000_0000,
                high == self.digits * pow2(done as nat),
                pow2(done as nat) <= 0x100_0000_0000_0000,
                high <= 0x20_0000_0000_0000 * 0x100_0000_0000_0000,
            decreases distance - done,
        {
            proof {
                lemma_pow2_unfold((done + 1) as nat);
                let (p, q) = (pow2(done as nat) as int, pow2((done + 1) as nat) as int);
                assert(self.digits * q == 2 * (self.digits * p)) by (nonlinear_arith)
                    requires
                        q == 2 * p,
                ;
                lemma2_to64();
                lemma_pow2_adds(32, 24);
                if done + 1 < 56 {
                    lemma_pow2_strictly_increases((done + 1) as nat, 56);
                }
                assert(self.digits * q <= 0x20_0000_0000_0000 * 0x100_0000_0000_0000)
                    by (nonlinear_arith)
                    requires
                        0 <= self.digits < 0x20_0000_0000_0000,
                        0 <= q <= 0x100_0000_0000_0000,
                ;
            }
            high = high * 2;
            done = done + 1;
        }
        let lower: u128 = low.digits as u128;
        let (negative, magnitude): (bool, u128) = if self.negative == low.negative {
            (self.negative, high + lower)
        } else if high >= lower {
            (self.negative, high - lower)
        } else {
            (low.negative, lower - high)
        };
        let (digits, power) = round_digits(magnitude);
        let sum = Double { negative, digits, shift: low.shift + power };
        proof {
            let total = signed_high + signed_low;
            lemma_units_of_parts(digits as int, low.shift as nat, power as nat);
            let rounded = to_53_digits(magnitude as int, 1);
            if magnitude == 0 {
                assert(nearest_even(0, 1) == 0);
                assert(rounded == 0);
            }
            assert(total == if negative {
                -(magnitude as int)
            } else {
                magnitude as int
            });
            assert(nearest(total) == if negative {
                -rounded
            } else {
                rounded
            });
            assert((-rounded) * base == -(rounded * base)) by (nonlinear_arith);
            assert(sum@ == nearest(total) * base);
        }
        sum
    }

    /// The sum of two numbers.
    pub fn plus(self, other: Double) -> (sum: Self)
        requires
            self.plain(),
            other.plain(),
        ensures
            sum@ == nearest(self@ + other@),
            sum.short(),
            sum.shift <= 2106,
    {
        if other.shift <= self.shift {
            self.plus_lower(other)
        } else {
            other.plus_lower(self)
        }
    }

    /// A whole multiple of a number.
    pub fn times(self, factor: u32) -> (product: Self)
        requires
            self.short(),
            self.shift <= 2200,
        ensures
            product@ == nearest(self@ * factor),
            product.short(),
    {
        assert(self.digits * factor <= 0x20_0000_0000_0000 * 0xffff_ffff) by (nonlinear_arith)
            requires
                self.digits <= 0x20_0000_0000_0000,
                factor <= 0xffff_ffff,
        ;
        let magnitude: u128 = self.digits as u128 * factor as u128;
        let (digits, power) = round_digits(magnitude);
        let product = Double { negative: self.negative, digits, shift: self.shift + power };
        proof {
            let base = pow2(self.shift as nat) as int;
            lemma_pow2_pos(self.shift as nat);
            let rounded = to_53_digits(magnitude as int, 1);
            let total = if self.negative {
                -(magnitude as int)
            } else {
                magnitude as int
            };
            if magnitude == 0 {
                assert(nearest_even(0, 1) == 0);
            }
            let signed = if self.negative {
                -(self.digits as int)
            } else {
                self.digits as int
            };
            assert((-(self.digits as int)) * base == -(self.digits * base)) by (nonlinear_arith);
            assert((-(self.digits as int)) * factor == -(self.digits * factor)) by (nonlinear_arith);
            assert(self@ * factor == total * base) by (nonlinear_arith)
                requires
                    self@ == signed * base,
                    total == signed * factor,
            ;
            lemma_nearest_shifts(total, self.shift as nat);
            lemma_units_of_parts(digits as int, self.shift as nat, power as nat);
            assert((-rounded) * base == -(rounded * base)) by (nonlinear_arith);
        }
        product
    }

    /// Whether the number is less than zero.
    pub fn below_zero(self) -> (below: bool)
        ensures
            below == (self@ < 0),
    {
        proof {
            lemma_sign(self);
        }
        self.negative && self.digits > 0
    }

    /// Whether the number is more than zero.
    pub fn above_zero(self) -> (above: bool)
        ensures
            above == (self@ > 0),
    {
        proof {
            lemma_sign(self);
        }
        !self.negative && self.digits > 0
    }

    /// The integer nearest to a number, as far as an `i64` goes.
    pub fn to_whole(self) -> (value: i64)
        requires
            self.short(),
        ensures
            value == clamped(whole(self@)),
    {
        let magnitude: u64 = round_shifted(self.digits, 1074 - self.shift as i32);
        proof {
            lemma_whole(self.digits as int, self.shift as nat);
            lemma_pow2_pos(self.shift as nat);
            assert(self.digits * pow2(self.shift as nat) >= 0) by (nonlinear_arith)
                requires
                    self.digits >= 0,
                    pow2(self.shift as nat) > 0,
            ;
            assert(whole(0) == 0) by {
                lemma_whole(0, 0);
                lemma2_to64();
                lemma_pow2_unfold(1074);
                lemma_pow2_pos(1073);
                vstd::arithmetic::div_mod::lemma_fundamental_div_mod_converse(
                    pow2(1073) as int,
                    pow2(1074) as int,
                    0,
                    pow2(1073) as int,
                );
            }
        }
        if self.negative {
            if magnitude > 0x8000_0000_0000_0000 {
                i64::MIN
            } else if magnitude == 0x8000_0000_0000_0000 {
                i64::MIN
            } else {
                -(magnitude as i64)
            }
        } else if magnitude > 0x7fff_ffff_ffff_ffff {
            i64::MAX
        } else {
            magnitude as i64
        }
    }
}

proof fn lemma_digits_not_negative(n: int, unit: int)
    requires
        0 <= n,
        0 < unit,
    ensures
        to_53_digits(n, unit) >= 0,
    decreases n - unit,
{
    let q = nearest_even(n, unit);
    assert(n / unit >= 0) by (nonlinear_arith)
        requires
            0 <= n,
            0 < unit,
    ;
    assert(q >= 0 ==> q * unit >= 0) by (nonlinear_arith)
        requires
            0 < unit,
    ;
    if n >= unit * 0x20_0000_0000_0000 {
        lemma_digits_not_negative(n, unit * 2);
    }
}

/// Rounding gives no number below zero for one that is not.
pub proof fn lemma_rounds_up_from_zero(n: int)
    requires
        n >= 0,
    ensures
        whole(nearest(n)) >= 0,
{
    lemma_digits_not_negative(n, 1);
    lemma_pow2_pos(1073);
    lemma_pow2_pos(1074);
    let (m, d) = (nearest(n) + pow2(1073), pow2(1074) as int);
    assert(m / d >= 0) by (nonlinear_arith)
        requires
            m >= 0,
            d > 0,
    ;
}

proof fn lemma_sign(number: Double)
    ensures
        number.digits == 0 ==> number@ == 0,
        number.digits > 0 ==> if number.negative {
            number@ < 0
        } else {
            number@ > 0
        },
{
    lemma_pow2_pos(number.shift as nat);
    let (d, p) = (number.digits as int, pow2(number.shift as nat) as int);
    assert(d > 0 ==> d * p > 0) by (nonlinear_arith)
        requires
            p > 0,
    ;
    assert(d == 0 ==> d * p == 0) by (nonlinear_arith);
}

/// Rounding digits with their power is rounding the units.
proof fn lemma_whole(digits: int, shift: nat)
    requires
        0 <= digits,
    ensures
        whole(digits * pow2(shift)) == nearest_integer(digits, 1074 - shift),
{
    let p = pow2(shift) as int;
    lemma_pow2_pos(shift);
    lemma_pow2_pos(1073);
    lemma_pow2_unfold(1074);
    let half = pow2(1073) as int;
    assert(digits * p >= 0) by (nonlinear_arith)
        requires
            digits >= 0,
            p > 0,
    ;
    if shift >= 1074 {
        let extra = (shift - 1074) as nat;
        lemma_pow2_adds(1074, extra);
        let e = pow2(extra) as int;
        let n = digits * p;
        assert(n == (digits * e) * (2 * half)) by (nonlinear_arith)
            requires
                n == digits * p,
                p == (2 * half) * e,
        ;
        vstd::arithmetic::div_mod::lemma_fundamental_div_mod_converse(
            n + half,
            2 * half,
            digits * e,
            half,
        );
        assert(nearest_integer(digits, 1074 - shift) == digits * pow2((-(1074 - shift)) as nat));
        assert((-(1074 - shift)) as nat == extra);
    } else {
        let r = (1074 - shift) as nat;
        lemma_pow2_adds(shift, r);
        lemma_pow2_adds(shift, (r - 1) as nat);
        lemma_pow2_unfold(r);
        lemma_pow2_pos((r - 1) as nat);
        let h = pow2((r - 1) as nat) as int;
        let n = digits * p;
        // The units and the divisor share the factor `p`.
        let q = (digits + h) / (2 * h);
        let rest = (digits + h) % (2 * h);
        vstd::arithmetic::div_mod::lemma_fundamental_div_mod(digits + h, 2 * h);
        assert(n + half == q * (2 * half) + rest * p) by (nonlinear_arith)
            requires
                n == digits * p,
                half == p * h,
                digits + h == (2 * h) * q + rest,
        ;
        assert(0 <= rest * p < 2 * half) by (nonlinear_arith)
            requires
                0 <= rest < 2 * h,
                half == p * h,
                p > 0,
        ;
        vstd::arithmetic::div_mod::lemma_fundamental_div_mod_converse(
            n + half,
            2 * half,
            q,
            rest * p,
        );
    }
}

/// A number is rounded to 53 digits, so by no more than half of what the last
/// of them is worth, the same on both sides of nought; one that takes no more
/// digits is kept.
pub proof fn law_a_result_keeps_53_digits(n: int)
    ensures
        nearest(-n) == -nearest(n),
        -0x20_0000_0000_0000 < n < 0x20_0000_0000_0000 ==> nearest(n) == n,
        n >= 0 ==> -n <= 0x20_0000_0000_0000 * (nearest(n) - n) <= n,
        n <= 0 ==> n <= 0x20_0000_0000_0000 * (nearest(n) - n) <= -n,
{
    crate::binary64::law_a_number_keeps_53_digits(if n < 0 {
        -n
    } else {
        n
    });
    crate::binary64::law_a_quotient_is_rounded_to_its_nearest(0, 1);
}

/// A number of units is rounded to the integer nearest to it, and one halfway
/// between two to the one farther from nought.
pub proof fn law_a_number_of_units_is_rounded(n: int)
    ensures
        whole(-n) == -whole(n),
        n >= 0 ==> -(pow2(1074) as int) < 2 * (n - whole(n) * pow2(1074)) + 1 <= pow2(1074),
{
    let unit = pow2(1074) as int;
    let half = pow2(1073) as int;
    lemma_pow2_unfold(1074);
    lemma_pow2_pos(1073);
    let total = if n < 0 {
        -n + half
    } else {
        n + half
    };
    vstd::arithmetic::div_mod::lemma_fundamental_div_mod(total, unit);
    let q = total / unit;
    assert(unit * q == q * unit) by (nonlinear_arith);
    if n == 0 {
        vstd::arithmetic::div_mod::lemma_fundamental_div_mod_converse(half, unit, 0, half);
    }
}

/// A number is cut to what an `i64` holds, and kept where it is one.
pub proof fn law_a_number_is_cut_to_its_range(n: int)
    ensures
        -0x8000_0000_0000_0000 <= n <= 0x7fff_ffff_ffff_ffff ==> clamped(n) == n,
        n > 0x7fff_ffff_ffff_ffff ==> clamped(n) == 0x7fff_ffff_ffff_ffff,
        n < -0x8000_0000_0000_0000 ==> clamped(n) == -0x8000_0000_0000_0000,
{
}

} // verus!
