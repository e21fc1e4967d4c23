use vstd::prelude::*;
use crate::scalar::{Scalar, one};
use crate::activation::sigmoid_spec;
use crate::dnn::initial_weight_spec;

verus! {

/// The raw value of one: two to the power of the number of binary places.
pub const SCALE: i64 = 0x1_0000_0000;

/// The number of times that the exponential squares its base.
pub const EXP_ROUNDS: u32 = 16;

/// A fixed-point number: a 64-bit integer `raw` that stands for `raw` over
/// two to the thirty-second. Every operation saturates at the ends of the
/// range, and products and quotients round towards zero.
#[derive(Clone, Copy, Debug, PartialEq, Eq, Structural)]
pub struct Fixed {
    pub raw: i64,
}

/// `v`, or the end of the 64-bit range that it lies beyond.
pub open spec fn clamp(v: int) -> i64 {
    if v < i64::MIN {
        i64::MIN
    } else if v > i64::MAX {
        i64::MAX
    } else {
        v as i64
    }
}

/// The distance of `v` from zero.
pub open spec fn magnitude(v: int) -> nat {
    if v < 0 {
        (-v) as nat
    } else {
        v as nat
    }
}

/// `m` with the sign that a product or quotient of `a` and `b` has.
pub open spec fn signed(m: nat, a: int, b: int) -> int {
    if (a < 0) != (b < 0) {
        -(m as int)
    } else {
        m as int
    }
}

/// `base` squared `rounds` times over.
pub open spec fn squared(base: Fixed, rounds: nat) -> Fixed
    decreases rounds,
{
    if rounds == 0 {
        base
    } else {
        let half = squared(base, (rounds - 1) as nat);
        half.times_spec(half)
    }
}

/// The distance of `raw` from zero.
fn magnitude_of(raw: i64) -> (m: u128)
    ensures
        m == magnitude(raw as int),
        m <= 0x8000_0000_0000_0000,
{
    if raw < 0 {
        (-(raw as i128)) as u128
    } else {
        raw as u128
    }
}

/// The number of magnitude `m` and of the sign that a product or quotient of
/// `a` and `b` has, brought into range.
fn settle(m: u128, a: i64, b: i64) -> (r: Fixed)
    ensures
        r.raw == clamp(signed(m as nat, a as int, b as int)),
{
    let negative = (a < 0) != (b < 0);
    if m > i64::MAX as u128 {
        if negative {
            Fixed { raw: i64::MIN }
        } else {
            Fixed { raw: i64::MAX }
        }
    } else if negative {
        Fixed { raw: -(m as i64) }
    } else {
        Fixed { raw: m as i64 }
    }
}

impl Scalar for Fixed {
    /// Every 32-bit integer has a fixed-point number of its own.
    open spec fn from_int_spec(n: i32) -> Self {
        Fixed { raw: (n * SCALE) as i64 }
    }

    /// The sum, brought into range.
    open spec fn plus_spec(self, rhs: Self) -> Self {
        Fixed { raw: clamp(self.raw + rhs.raw) }
    }

    /// The difference, brought into range.
    open spec fn minus_spec(self, rhs: Self) -> Self {
        Fixed { raw: clamp(self.raw - rhs.raw) }
    }

    /// The product, rounded towards zero and brought into range.
    open spec fn times_spec(self, rhs: Self) -> Self {
        Fixed {
            raw: clamp(
                signed(
                    (magnitude(self.raw as int) * magnitude(rhs.raw as int) / (SCALE as nat)) as nat,
                    self.raw as int,
                    rhs.raw as int,
                ),
            ),
        }
    }

    /// The quotient, rounded towards zero and brought into range. Over
    /// zero, a positive number gives the upper end of the range, a negative
    /// number the lower end, and zero gives zero.
    open spec fn over_spec(self, rhs: Self) -> Self {
        if rhs.raw == 0 {
            if self.raw > 0 {
                Fixed { raw: i64::MAX }
            } else if self.raw < 0 {
                Fixed { raw: i64::MIN }
            } else {
                Fixed { raw: 0 }
            }
        } else {
            Fixed {
                raw: clamp(
                    signed(
                        (magnitude(self.raw as int) * (SCALE as nat) / magnitude(
                            rhs.raw as int,
                        )) as nat,
                        self.raw as int,
                        rhs.raw as int,
                    ),
                ),
            }
        }
    }

    /// The negative, brought into range.
    open spec fn negate_spec(self) -> Self {
        Fixed { raw: clamp(-self.raw) }
    }

    /// An approximation of the exponential: one plus the 65536th part of
    /// `self`, raised to the power 65536 by squaring it sixteen times over.
    /// Where that base is not positive, the result is zero.
    open spec fn exp_spec(self) -> Self {
        let base = Self::from_int_spec(1).plus_spec(self.over_spec(Self::from_int_spec(65536)));
        if base.raw <= 0 {
            Fixed { raw: 0 }
        } else {
            squared(base, EXP_ROUNDS as nat)
        }
    }

    /// Numbers compare as their raw values do.
    open spec fn greater_spec(self, rhs: Self) -> bool {
        self.raw > rhs.raw
    }

    /// Two numbers are the same where their raw values are.
    open spec fn equals_spec(self, rhs: Self) -> bool {
        self.raw == rhs.raw
    }

    /// From zero up to, but not including, one.
    open spec fn is_unit_spec(self) -> bool {
        0 <= self.raw < SCALE
    }

    fn from_int(n: i32) -> (r: Self) {
        Fixed { raw: (n as i64) * SCALE }
    }

    fn plus(self, rhs: Self) -> (r: Self) {
        let sum = self.raw as i128 + rhs.raw as i128;
        if sum > i64::MAX as i128 {
            Fixed { raw: i64::MAX }
        } else if sum < i64::MIN as i128 {
            Fixed { raw: i64::MIN }
        } else {
            Fixed { raw: sum as i64 }
        }
    }

    fn minus(self, rhs: Self) -> (r: Self) {
        let difference = self.raw as i128 - rhs.raw as i128;
        if difference > i64::MAX as i128 {
            Fixed { raw: i64::MAX }
        } else if difference < i64::MIN as i128 {
            Fixed { raw: i64::MIN }
        } else {
            Fixed { raw: difference as i64 }
        }
    }

    fn times(self, rhs: Self) -> (r: Self) {
        let a = magnitude_of(self.raw);
        let b = magnitude_of(rhs.raw);
        assert(a * b <= 0x8000_0000_0000_0000 * 0x8000_0000_0000_0000) by (nonlinear_arith)
            requires
                a <= 0x8000_0000_0000_0000,
                b <= 0x8000_0000_0000_0000,
        ;
        settle(a * b / (SCALE as u128), self.raw, rhs.raw)
    }

    fn over(self, rhs: Self) -> (r: Self) {
        if rhs.raw == 0 {
            if self.raw > 0 {
                Fixed { raw: i64::MAX }
            } else if self.raw < 0 {
                Fixed { raw: i64::MIN }
            } else {
                Fixed { raw: 0 }
            }
        } else {
            let a = magnitude_of(self.raw);
            let b = magnitude_of(rhs.raw);
            assert(a * (SCALE as u128) <= 0x8000_0000_0000_0000 * 0x1_0000_0000) by (nonlinear_arith)
                requires
                    a <= 0x8000_0000_0000_0000,
                    SCALE == 0x1_0000_0000,
            ;
            settle(a * (SCALE as u128) / b, self.raw, rhs.raw)
        }
    }

    fn negate(self) -> (r: Self) {
        if self.raw == i64::MIN {
            Fixed { raw: i64::MAX }
        } else {
            Fixed { raw: -self.raw }
        }
    }

    fn exp(self) -> (r: Self) {
        let mut power = Self::from_int(1).plus(self.over(Self::from_int(65536)));
        if power.raw <= 0 {
            return Fixed { raw: 0 };
        }
        let ghost base = power;
        let mut round: u32 = 0;
        while round < EXP_ROUNDS
            invariant
                round <= EXP_ROUNDS,
                power == squared(base, round as nat),
            decreases EXP_ROUNDS - round,
        {
            power = power.times(power);
            round += 1;
        }
        power
    }

    fn greater(self, rhs: Self) -> (r: bool) {
        self.raw > rhs.raw
    }

    fn equals(self, rhs: Self) -> (r: bool) {
        self.raw == rhs.raw
    }
}

/// The number below one whose 32 binary places are the bits of `word`.
pub open spec fn fraction_spec(word: u32) -> Fixed {
    Fixed { raw: word as i64 }
}

/// The number below one whose 32 binary places are the bits of `word`: every
/// word gives a number of the unit interval, and different words give
/// different numbers.
pub fn fraction(word: u32) -> (r: Fixed)
    ensures
        r == fraction_spec(word),
        r.is_unit_spec(),
{
    Fixed { raw: word as i64 }
}

/// Squaring a number that is not negative never makes it negative.
proof fn lemma_squared_not_negative(base: Fixed, rounds: nat)
    requires
        base.raw >= 0,
    ensures
        squared(base, rounds).raw >= 0,
    decreases rounds,
{
    if rounds > 0 {
        lemma_squared_not_negative(base, (rounds - 1) as nat);
    }
}

/// The exponential is never negative.
pub proof fn law_exp_not_negative(x: Fixed)
    ensures
        x.exp_spec().raw >= 0,
{
    let base = Fixed::from_int_spec(1).plus_spec(x.over_spec(Fixed::from_int_spec(65536)));
    if base.raw > 0 {
        lemma_squared_not_negative(base, EXP_ROUNDS as nat);
    }
}

/// The logistic function stays between zero and one, both included, however
/// large or small its argument: where the exponential runs out of range, it
/// saturates.
pub proof fn law_sigmoid_in_unit_range(x: Fixed)
    ensures
        0 <= sigmoid_spec(x).raw <= SCALE,
{
    let grown = x.negate_spec().exp_spec();
    law_exp_not_negative(x.negate_spec());
    let below = one::<Fixed>().plus_spec(grown);
    assert(below.raw >= SCALE);
    let d = magnitude(below.raw as int);
    assert(magnitude(SCALE as int) * (SCALE as nat) / d <= SCALE) by (nonlinear_arith)
        requires
            d >= SCALE,
            SCALE == 0x1_0000_0000,
            magnitude(SCALE as int) == SCALE,
    ;
    assert(magnitude(SCALE as int) * (SCALE as nat) / d >= 0) by (nonlinear_arith)
        requires
            d >= SCALE,
            SCALE == 0x1_0000_0000,
            magnitude(SCALE as int) == SCALE,
    ;
}

/// The initial weight of a draw from the unit interval lies between minus
/// one, included, and one, excluded.
pub proof fn law_initial_weight_in_range(draw: Fixed)
    requires
        draw.is_unit_spec(),
    ensures
        -SCALE <= initial_weight_spec(draw).raw < SCALE,
{
    let two = Fixed::from_int_spec(2);
    let m = magnitude(draw.raw as int);
    assert(m * magnitude(two.raw as int) / (SCALE as nat) == 2 * m) by (nonlinear_arith)
        requires
            magnitude(two.raw as int) == 2 * SCALE,
            SCALE == 0x1_0000_0000,
    ;
}

} // verus!
