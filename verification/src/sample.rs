//! Noise samples read as binary64 bit patterns, in whole-number arithmetic.
//!
//! A sample is the 64-bit pattern of an IEEE 754 double: one sign bit, eleven
//! exponent bits and fifty-two fraction bits. Its magnitude is
//! `significand * 2^scaling`. The cutoff test and the size hint are taken
//! from the pattern directly.

use vstd::arithmetic::power2::*;
use vstd::prelude::*;

verus! {

/// A cell is occupied when its noise value exceeds seven tenths: the
/// numerator of the cutoff.
pub const SPAWN_CUTOFF_NUMERATOR: u64 = 7;

/// The denominator of the cutoff.
pub const SPAWN_CUTOFF_DENOMINATOR: u64 = 10;

/// The size hint is a thousand times the noise value.
pub const SIZE_FACTOR: u64 = 1000;

/// The lowest pattern with the sign bit set.
pub const SIGN_BIT: u64 = 0x8000_0000_0000_0000;

/// The bit that stands in front of the fraction of a normal number.
pub const HIDDEN_BIT: u64 = 0x10_0000_0000_0000;

/// The number of values of the exponent field.
pub const EXPONENT_RANGE: u64 = 0x800;

/// The exponent field of infinities and of patterns that are no number.
pub const EXPONENT_SPECIAL: u64 = 0x7ff;

/// The largest pattern whose value does not exceed seven tenths.
pub const CUTOFF_PATTERN: u64 = 0x3fe6_6666_6666_6666;

/// The pattern of positive infinity.
pub const INFINITY_PATTERN: u64 = 0x7ff0_0000_0000_0000;

/// A noise value, as the bit pattern of a double.
#[derive(Clone, Copy, Debug, PartialEq, Eq, Structural)]
pub struct NoiseSample {
    pub bits: u64,
}

/// `numerator / unit` rounded to the nearest whole number, a tie going to the
/// even neighbour.
pub open spec fn round_half_even(numerator: int, unit: int) -> int
    recommends
        unit > 0,
{
    let quotient = numerator / unit;
    let rest = numerator % unit;
    if 2 * rest > unit || (2 * rest == unit && quotient % 2 == 1) {
        quotient + 1
    } else {
        quotient
    }
}

/// Rounding to the nearest goes no further than half a unit from the exact
/// quotient, and at exactly half a unit it goes to the even neighbour.
pub proof fn lemma_round_half_even_is_nearest(numerator: int, unit: int)
    requires
        unit > 0,
    ensures
        ({
            let rounded = round_half_even(numerator, unit);
            let distance = if rounded * unit >= numerator {
                rounded * unit - numerator
            } else {
                numerator - rounded * unit
            };
            &&& numerator / unit <= rounded <= numerator / unit + 1
            &&& 2 * distance <= unit
            &&& 2 * distance == unit ==> rounded % 2 == 0
        }),
{
    let quotient = numerator / unit;
    let rest = numerator % unit;
    vstd::arithmetic::div_mod::lemma_fundamental_div_mod(numerator, unit);
    vstd::arithmetic::div_mod::lemma_mod_bound(numerator, unit);
    assert((quotient + 1) * unit == quotient * unit + unit) by (nonlinear_arith);
    assert(quotient * unit == unit * quotient) by (nonlinear_arith);
}

impl NoiseSample {
    /// Whether the sign bit is set.
    pub open spec fn negative(self) -> bool {
        self.bits >= SIGN_BIT
    }

    /// The exponent field.
    pub open spec fn exponent(self) -> int {
        (self.bits / HIDDEN_BIT) as int % (EXPONENT_RANGE as int)
    }

    /// The fraction field.
    pub open spec fn fraction(self) -> int {
        (self.bits % HIDDEN_BIT) as int
    }

    /// Not a number: no value at all.
    pub open spec fn is_nan(self) -> bool {
        self.exponent() == EXPONENT_SPECIAL && self.fraction() != 0
    }

    /// An infinity of either sign.
    pub open spec fn is_infinite(self) -> bool {
        self.exponent() == EXPONENT_SPECIAL && self.fraction() == 0
    }

    /// The whole number that the magnitude is a power of two times.
    pub open spec fn significand(self) -> int {
        if self.exponent() == 0 {
            self.fraction()
        } else {
            HIDDEN_BIT + self.fraction()
        }
    }

    /// The power of two by which the significand is scaled.
    pub open spec fn scaling(self) -> int {
        if self.exponent() == 0 {
            -1074
        } else {
            self.exponent() - 1075
        }
    }

    /// Whether the value exceeds `numerator / denominator`, for a
    /// non-negative ratio.
    pub open spec fn exceeds(self, numerator: int, denominator: int) -> bool
        recommends
            numerator >= 0,
            denominator > 0,
    {
        &&& !self.is_nan()
        &&& !self.negative()
        &&& (self.is_infinite() || if self.scaling() >= 0 {
            denominator * self.significand() * pow2(self.scaling() as nat) > numerator
        } else {
            denominator * self.significand() > numerator * pow2((-self.scaling()) as nat)
        })
    }

    /// The whole part of a thousand times the magnitude of a finite sample,
    /// where the product is first rounded to fifty-three significant bits,
    /// as a multiplication of doubles rounds it.
    pub open spec fn thousandfold(self) -> int
        recommends
            self.exponent() != EXPONENT_SPECIAL,
    {
        if self.exponent() == 0 {
            0
        } else {
            let product = SIZE_FACTOR * self.significand();
            let dropped: nat = if product >= pow2(62) {
                10
            } else {
                9
            };
            let rounded = round_half_even(product, pow2(dropped) as int);
            let scaling = self.scaling() + dropped;
            if scaling >= 0 {
                rounded * pow2(scaling as nat)
            } else {
                rounded / (pow2((-scaling) as nat) as int)
            }
        }
    }

    /// The size hint of a sample: a thousand times its value, cut to a whole
    /// number toward zero and held to the range of `i32`; zero for a sample
    /// that is not a number.
    pub open spec fn spec_size(self) -> int {
        if self.is_nan() {
            0
        } else if self.is_infinite() {
            if self.negative() {
                i32::MIN as int
            } else {
                i32::MAX as int
            }
        } else if self.negative() {
            crate::address::clamp_to_coordinate(-self.thousandfold())
        } else {
            crate::address::clamp_to_coordinate(self.thousandfold())
        }
    }

    /// The whole part of a thousand times the magnitude, taken exactly.
    pub open spec fn exact_thousandfold(self) -> int
        recommends
            self.scaling() < 0,
    {
        (SIZE_FACTOR * self.significand()) / (pow2((-self.scaling()) as nat) as int)
    }

    /// The rounding of the product moves the size hint by at most one: for
    /// a normal sample below two to the power of forty-two, the whole part
    /// of the rounded product is that of the exact product, or one more.
    pub proof fn lemma_thousandfold_is_near_exact(self)
        requires
            0 < self.exponent() < 1075 - 10,
        ensures
            self.exact_thousandfold() <= self.thousandfold() <= self.exact_thousandfold() + 1,
    {
        lemma2_to64();
        lemma2_to64_rest();
        let product = SIZE_FACTOR * self.significand();
        let dropped: nat = if product >= pow2(62) {
            10
        } else {
            9
        };
        let unit = pow2(dropped) as int;
        let rounded = round_half_even(product, unit);
        let shift = (-(self.scaling() + dropped)) as nat;
        let step = pow2(shift) as int;
        lemma_pow2_pos(shift);
        lemma_pow2_adds(dropped, shift);
        lemma_round_half_even_is_nearest(product, unit);
        let floor = product / unit;
        vstd::arithmetic::div_mod::lemma_div_denominator(product, unit, step);
        assert(self.exact_thousandfold() == floor / step);
        assert(self.thousandfold() == rounded / step);
        vstd::arithmetic::div_mod::lemma_div_is_ordered(floor, rounded, step);
        vstd::arithmetic::div_mod::lemma_div_is_ordered(rounded, step + floor, step);
        vstd::arithmetic::div_mod::lemma_div_plus_one(floor, step);
    }

    /// Whether the sample marks an occupied cell.
    pub open spec fn spec_exceeds_cutoff(self) -> bool {
        self.exceeds(SPAWN_CUTOFF_NUMERATOR as int, SPAWN_CUTOFF_DENOMINATOR as int)
    }

    /// Whether the value exceeds the cutoff of seven tenths.
    pub fn exceeds_cutoff(&self) -> (above: bool)
        ensures
            above == self.spec_exceeds_cutoff(),
    {
        proof {
            self.lemma_cutoff_pattern();
        }
        self.bits > CUTOFF_PATTERN && self.bits <= INFINITY_PATTERN
    }

    /// The size hint: a thousand times the value, cut to a whole number
    /// toward zero and held to the range of `i32`.
    pub fn size(&self) -> (size: i32)
        ensures
            size == self.spec_size(),
    {
        let negative = self.bits >= SIGN_BIT;
        let exponent: u64 = (self.bits / HIDDEN_BIT) % EXPONENT_RANGE;
        let fraction: u64 = self.bits % HIDDEN_BIT;
        proof {
            lemma2_to64();
            lemma2_to64_rest();
        }
        if exponent == EXPONENT_SPECIAL {
            if fraction != 0 {
                0
            } else if negative {
                i32::MIN
            } else {
                i32::MAX
            }
        } else if exponent == 0 {
            0
        } else {
            let product: u64 = SIZE_FACTOR * (HIDDEN_BIT + fraction);
            let dropped: u64 = if product >= 0x4000_0000_0000_0000 {
                10
            } else {
                9
            };
            let unit: u64 = if dropped == 10 {
                1024
            } else {
                512
            };
            let quotient: u64 = product / unit;
            let rest: u64 = product % unit;
            let rounded: u64 = if 2 * rest > unit || (2 * rest == unit && quotient % 2 == 1) {
                quotient + 1
            } else {
                quotient
            };
            assert(unit == pow2(dropped as nat));
            assert(rounded == round_half_even(product as int, pow2(dropped as nat) as int));
            assert(HIDDEN_BIT <= rounded <= 2 * HIDDEN_BIT);
            if exponent + dropped >= 1075 {
                proof {
                    let up = (exponent + dropped - 1075) as nat;
                    lemma_pow2_pos(up);
                    assert(rounded * pow2(up) >= HIDDEN_BIT) by (nonlinear_arith)
                        requires
                            rounded >= HIDDEN_BIT,
                            pow2(up) >= 1,
                    ;
                }
                if negative {
                    i32::MIN
                } else {
                    i32::MAX
                }
            } else {
                let shift: u64 = 1075 - exponent - dropped;
                if shift >= 54 {
                    proof {
                        if shift > 54 {
                            lemma_pow2_strictly_increases(54, shift as nat);
                        }
                        vstd::arithmetic::div_mod::lemma_basic_div(
                            rounded as int,
                            pow2(shift as nat) as int,
                        );
                    }
                    0
                } else {
                    let whole: u64 = rounded >> shift;
                    proof {
                        vstd::bits::lemma_u64_shr_is_div(rounded, shift);
                    }
                    if negative {
                        if whole >= 0x8000_0000 {
                            i32::MIN
                        } else {
                            (-(whole as i64)) as i32
                        }
                    } else {
                        if whole > 0x7fff_ffff {
                            i32::MAX
                        } else {
                            whole as i32
                        }
                    }
                }
            }
        }
    }

    /// The patterns above that of seven tenths, up to positive infinity, are
    /// those of the values that exceed seven tenths.
    proof fn lemma_cutoff_pattern(self)
        ensures
            self.spec_exceeds_cutoff() == (CUTOFF_PATTERN < self.bits <= INFINITY_PATTERN),
    {
        lemma2_to64();
        lemma2_to64_rest();
        let e = self.exponent();
        let f = self.fraction();
        if !self.negative() {
            assert(self.bits / HIDDEN_BIT < EXPONENT_RANGE);
            assert(self.bits == e * HIDDEN_BIT + f);
            if e == EXPONENT_SPECIAL {
            } else if e == 0 {
                lemma_pow2_strictly_increases(54, 1074);
                assert(10 * f <= 7 * pow2(1074)) by (nonlinear_arith)
                    requires
                        f < 0x10_0000_0000_0000,
                        pow2(1074) > 0x40_0000_0000_0000,
                ;
            } else if e >= 1075 {
                lemma_pow2_pos((e - 1075) as nat);
                assert(10 * (HIDDEN_BIT + f) * pow2((e - 1075) as nat) > 7) by (nonlinear_arith)
                    requires
                        HIDDEN_BIT + f >= 1,
                        pow2((e - 1075) as nat) >= 1,
                ;
            } else if e >= 1023 {
                lemma_pow2_strictly_increases((1075 - e) as nat, 53);
                assert(pow2((1075 - e) as nat) <= 0x10_0000_0000_0000);
            } else if e == 1022 {
                assert(pow2((1075 - e) as nat) == 0x20_0000_0000_0000);
            } else {
                if e < 1021 {
                    lemma_pow2_strictly_increases(54, (1075 - e) as nat);
                }
                assert(pow2((1075 - e) as nat) >= 0x40_0000_0000_0000);
            }
        }
    }
}

} // verus!
