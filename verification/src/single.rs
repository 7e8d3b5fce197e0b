//! Single-precision numbers, held by their bit pattern.
//!
//! Volumes, duck ratios and playback speeds come from the audio engine and from
//! the user as IEEE-754 single-precision numbers. Everything this library decides
//! about them is a matter of order: which is the loudest, which is the smallest,
//! is it within 0 and 1. The order of two such numbers can be read off their bit
//! patterns, so the library carries the patterns and compares those.
use vstd::prelude::*;

verus! {

/// The weight of the sign bit.
pub const SIGN_BIT: u32 = 0x8000_0000;

/// The magnitude pattern of infinity; a larger magnitude pattern is not a number.
pub const INFINITE_MAGNITUDE: u32 = 0x7f80_0000;

/// The bit pattern of 1.
pub const ONE_BITS: u32 = 0x3f80_0000;

/// The bit pattern of minus infinity.
pub const NEG_INFINITY_BITS: u32 = 0xff80_0000;

/// A single-precision number, by its IEEE-754 bit pattern.
#[derive(Clone, Copy, Debug, PartialEq, Eq, Structural)]
pub struct Single {
    pub bits: u32,
}

impl Single {
    /// The pattern without its sign bit.
    pub open spec fn magnitude(self) -> int {
        if self.bits >= SIGN_BIT {
            self.bits - SIGN_BIT
        } else {
            self.bits as int
        }
    }

    /// The pattern stands for no number.
    pub open spec fn is_nan(self) -> bool {
        self.magnitude() > INFINITE_MAGNITUDE
    }

    /// The pattern stands for a number other than the two infinities.
    pub open spec fn finite(self) -> bool {
        self.magnitude() < INFINITE_MAGNITUDE
    }

    /// An integer that orders the numbers: two numbers compare as their ranks do.
    /// Both zeros have rank 0.
    pub open spec fn rank(self) -> int {
        if self.bits >= SIGN_BIT {
            -self.magnitude()
        } else {
            self.magnitude()
        }
    }

    /// `self < other`, as numbers. Nothing is less than, or greater than, what is
    /// not a number.
    pub open spec fn lt(self, other: Self) -> bool {
        !self.is_nan() && !other.is_nan() && self.rank() < other.rank()
    }

    /// The larger of two numbers; the other one where one is not a number.
    pub open spec fn larger(self, other: Self) -> Self {
        if self.is_nan() || self.lt(other) {
            other
        } else {
            self
        }
    }

    /// The smaller of two numbers; the other one where one is not a number.
    pub open spec fn smaller(self, other: Self) -> Self {
        if self.is_nan() || other.lt(self) {
            other
        } else {
            self
        }
    }

    /// The nearest number within 0 and 1. What is not a number stays as it is.
    pub open spec fn unit(self) -> Self {
        if self.lt(zero_value()) {
            zero_value()
        } else if one_value().lt(self) {
            one_value()
        } else {
            self
        }
    }

    pub fn from_bits(bits: u32) -> (s: Self)
        ensures
            s.bits == bits,
    {
        Single { bits }
    }

    pub fn to_bits(self) -> (bits: u32)
        ensures
            bits == self.bits,
    {
        self.bits
    }

    pub fn zero() -> (s: Self)
        ensures
            s == zero_value(),
    {
        Single { bits: 0 }
    }

    pub fn one() -> (s: Self)
        ensures
            s == one_value(),
    {
        Single { bits: ONE_BITS }
    }

    pub fn neg_infinity() -> (s: Self)
        ensures
            s == neg_infinity_value(),
    {
        Single { bits: NEG_INFINITY_BITS }
    }

    fn magnitude_bits(self) -> (m: u32)
        ensures
            m == self.magnitude(),
    {
        if self.bits >= SIGN_BIT {
            self.bits - SIGN_BIT
        } else {
            self.bits
        }
    }

    /// Neither an infinity nor a pattern that stands for no number.
    pub fn is_finite(self) -> (res: bool)
        ensures
            res == self.finite(),
    {
        self.magnitude_bits() < INFINITE_MAGNITUDE
    }

    pub fn is_less(self, other: Self) -> (res: bool)
        ensures
            res == self.lt(other),
    {
        let a: u32 = self.magnitude_bits();
        let b: u32 = other.magnitude_bits();
        if a > INFINITE_MAGNITUDE || b > INFINITE_MAGNITUDE {
            return false;
        }
        if self.bits >= SIGN_BIT {
            if other.bits >= SIGN_BIT {
                a > b
            } else {
                a > 0 || b > 0
            }
        } else {
            other.bits < SIGN_BIT && a < b
        }
    }

    pub fn max(self, other: Self) -> (res: Self)
        ensures
            res == self.larger(other),
    {
        if self.magnitude_bits() > INFINITE_MAGNITUDE || self.is_less(other) {
            other
        } else {
            self
        }
    }

    pub fn min(self, other: Self) -> (res: Self)
        ensures
            res == self.smaller(other),
    {
        if self.magnitude_bits() > INFINITE_MAGNITUDE || other.is_less(self) {
            other
        } else {
            self
        }
    }

    /// Forces the number into 0 to 1.
    pub fn clamp_unit(self) -> (res: Self)
        ensures
            res == self.unit(),
    {
        if self.is_less(Single::zero()) {
            Single::zero()
        } else if Single::one().is_less(self) {
            Single::one()
        } else {
            self
        }
    }
}

pub open spec fn zero_value() -> Single {
    Single { bits: 0 }
}

pub open spec fn one_value() -> Single {
    Single { bits: ONE_BITS }
}

pub open spec fn neg_infinity_value() -> Single {
    Single { bits: NEG_INFINITY_BITS }
}

/// A clamped number lies within 0 and 1, and clamping it again changes nothing.
pub proof fn law_unit_within_bounds(x: Single)
    requires
        !x.is_nan(),
    ensures
        !x.unit().is_nan(),
        0 <= x.unit().rank() <= one_value().rank(),
        x.unit().unit() == x.unit(),
{
}

/// Clamping what is clamped already changes nothing, whatever it is.
pub proof fn law_unit_is_idempotent(x: Single)
    ensures
        x.unit().unit() == x.unit(),
        x.unit().is_nan() <==> x.is_nan(),
{
}

/// What is not a number, and what is finite, can be told from the pattern without its sign.
pub proof fn law_kinds_of_patterns(x: Single)
    ensures
        x.is_nan() <==> x.bits % 0x8000_0000 > 0x7f80_0000,
        x.finite() <==> x.bits % 0x8000_0000 < 0x7f80_0000,
{
}

/// Numbers are ordered as their patterns are: positive ones alike, negative ones the other
/// way round, and a negative one is less than a positive one unless both are zero. Nothing
/// is less than, or greater than, what is not a number.
pub proof fn law_order_of_patterns(a: Single, b: Single)
    ensures
        ({
            let a_negative = a.bits >= 0x8000_0000;
            let b_negative = b.bits >= 0x8000_0000;
            let both_zero = a.bits % 0x8000_0000 == 0 && b.bits % 0x8000_0000 == 0;
            a.lt(b) <==> {
                &&& a.bits % 0x8000_0000 <= 0x7f80_0000
                &&& b.bits % 0x8000_0000 <= 0x7f80_0000
                &&& !(!a_negative && b_negative)
                &&& (!a_negative && !b_negative ==> a.bits < b.bits)
                &&& (a_negative && b_negative ==> a.bits > b.bits)
                &&& (a_negative && !b_negative ==> !both_zero)
            }
        }),
{
}

/// Clamping keeps what lies within 0 and 1, and what is not a number; what is below becomes
/// 0, and what is above becomes 1.
pub proof fn law_unit_keeps_what_is_within(x: Single)
    ensures
        x.bits <= 0x3f80_0000 ==> x.unit() == x,
        x.bits == 0x8000_0000 ==> x.unit() == x,
        x.bits % 0x8000_0000 > 0x7f80_0000 ==> x.unit() == x,
        0x3f80_0000 < x.bits <= 0x7f80_0000 ==> x.unit().bits == 0x3f80_0000,
        0x8000_0000 < x.bits <= 0xff80_0000 ==> x.unit().bits == 0,
{
}

/// The larger and the smaller of two are one of the two each: a number where there is one,
/// and none of the two is larger, or smaller.
pub proof fn law_larger_and_smaller(a: Single, b: Single)
    ensures
        a.larger(b) == a || a.larger(b) == b,
        a.smaller(b) == a || a.smaller(b) == b,
        a.larger(b).is_nan() <==> a.is_nan() && b.is_nan(),
        a.smaller(b).is_nan() <==> a.is_nan() && b.is_nan(),
        !a.larger(b).lt(a) && !a.larger(b).lt(b),
        !a.lt(a.smaller(b)) && !b.lt(a.smaller(b)),
{
}

} // verus!
