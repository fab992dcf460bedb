//! Double-precision numbers carried as their IEEE 754 bit patterns.
//!
//! Coordinates, speeds and distances arrive as doubles. The library stores and orders
//! them; arithmetic on them is the caller's. A pattern is a sign bit above a magnitude,
//! magnitudes order like the numbers they stand for, and a magnitude above that of
//! infinity is not a number.

use vstd::prelude::*;

verus! {

/// The weight of the sign bit.
pub const SIGN: u64 = 0x8000_0000_0000_0000;

/// The magnitude of infinity.
pub const INFINITY: u64 = 0x7ff0_0000_0000_0000;

/// A double, as its bit pattern.
#[derive(Clone, Copy, PartialEq, Eq, Structural, Debug)]
pub struct Number {
    pub bits: u64,
}

impl Number {
    /// The pattern without its sign bit.
    pub open spec fn magnitude(self) -> int {
        if self.bits >= SIGN {
            self.bits - SIGN
        } else {
            self.bits as int
        }
    }

    /// Not a number.
    pub open spec fn nan(self) -> bool {
        self.magnitude() > INFINITY
    }

    /// Where the number stands among all numbers: the signed magnitude. The two zeros
    /// share a rank.
    pub open spec fn rank(self) -> int {
        if self.bits >= SIGN {
            -self.magnitude()
        } else {
            self.magnitude()
        }
    }

    /// `self < other`, which is false when either is not a number.
    pub open spec fn below(self, other: Number) -> bool {
        !self.nan() && !other.nan() && self.rank() < other.rank()
    }

    /// `self == other` as numbers, which is false when either is not a number.
    pub open spec fn equals(self, other: Number) -> bool {
        !self.nan() && !other.nan() && self.rank() == other.rank()
    }

    /// Neither infinite nor not a number.
    pub open spec fn finite(self) -> bool {
        self.magnitude() < INFINITY
    }

    /// The double with the given bit pattern.
    pub fn from_bits(bits: u64) -> (r: Number)
        ensures
            r.bits == bits,
    {
        Number { bits }
    }

    /// Whether the number is not a number.
    pub fn is_nan(self) -> (r: bool)
        ensures
            r == self.nan(),
    {
        self.unsigned() > INFINITY
    }

    /// Whether the number is finite.
    pub fn is_finite(self) -> (r: bool)
        ensures
            r == self.finite(),
    {
        self.unsigned() < INFINITY
    }

    /// Whether the number is positive infinity.
    pub fn is_positive_infinity(self) -> (r: bool)
        ensures
            r == (self.bits == INFINITY),
    {
        self.bits == INFINITY
    }

    fn unsigned(self) -> (r: u64)
        ensures
            r == self.magnitude(),
    {
        if self.bits >= SIGN {
            self.bits - SIGN
        } else {
            self.bits
        }
    }

    /// `self < other`.
    pub fn lt(self, other: Number) -> (r: bool)
        ensures
            r == self.below(other),
    {
        if self.is_nan() || other.is_nan() {
            return false;
        }
        let a: u64 = self.unsigned();
        let b: u64 = other.unsigned();
        if self.bits >= SIGN {
            if other.bits >= SIGN {
                a > b
            } else {
                a > 0 || b > 0
            }
        } else {
            if other.bits >= SIGN {
                false
            } else {
                a < b
            }
        }
    }

    /// `self == other`, as numbers.
    pub fn eq_number(self, other: Number) -> (r: bool)
        ensures
            r == self.equals(other),
    {
        if self.is_nan() || other.is_nan() {
            return false;
        }
        self.bits == other.bits || (self.unsigned() == 0 && other.unsigned() == 0)
    }

    /// `self <= other`.
    pub fn le(self, other: Number) -> (r: bool)
        ensures
            r == (self.below(other) || self.equals(other)),
    {
        self.lt(other) || self.eq_number(other)
    }
}

/// The larger of two numbers; where one is not a number, the other.
pub open spec fn larger(a: Number, b: Number) -> Number {
    if a.nan() || a.below(b) {
        b
    } else {
        a
    }
}

/// The smaller of two numbers; where one is not a number, the other.
pub open spec fn smaller(a: Number, b: Number) -> Number {
    if a.nan() || b.below(a) {
        b
    } else {
        a
    }
}

/// The larger of two numbers.
pub fn number_max(a: Number, b: Number) -> (r: Number)
    ensures
        r == larger(a, b),
{
    if a.is_nan() || a.lt(b) {
        b
    } else {
        a
    }
}

/// The smaller of two numbers.
pub fn number_min(a: Number, b: Number) -> (r: Number)
    ensures
        r == smaller(a, b),
{
    if a.is_nan() || b.lt(a) {
        b
    } else {
        a
    }
}

/// Zero.
pub open spec fn zero() -> Number {
    Number { bits: 0 }
}

/// One.
pub open spec fn one() -> Number {
    Number { bits: 0x3ff0_0000_0000_0000 }
}

/// Zero.
pub fn number_zero() -> (r: Number)
    ensures
        r == zero(),
{
    Number { bits: 0 }
}

/// One.
pub fn number_one() -> (r: Number)
    ensures
        r == one(),
{
    Number { bits: 0x3ff0_0000_0000_0000 }
}

/// Any two numbers are ordered one way, the other way, or equal; a value that is not a
/// number stands in none of the three relations to anything.
pub proof fn law_numbers_are_ordered(a: Number, b: Number)
    ensures
        !a.nan() && !b.nan() ==> (a.below(b) || a.equals(b) || b.below(a)),
        !(a.below(b) && b.below(a)),
        !(a.below(b) && a.equals(b)),
        a.nan() || b.nan() ==> !a.below(b) && !b.below(a) && !a.equals(b),
{
}

/// The order of numbers is transitive.
pub proof fn law_number_order_is_transitive(a: Number, b: Number, c: Number)
    requires
        a.below(b) || a.equals(b),
        b.below(c) || b.equals(c),
    ensures
        a.below(c) || a.equals(c),
        a.below(b) || b.below(c) ==> a.below(c),
{
}

/// Numbers that are not negative order as their patterns do, negative ones the other way
/// round, and any negative number is below zero and above minus infinity or equal to it. The
/// two zeros are equal.
pub proof fn law_numbers_order_as_their_patterns(a: Number, b: Number)
    ensures
        a.bits <= 0x7ff0_0000_0000_0000 && b.bits <= 0x7ff0_0000_0000_0000 ==> (a.below(b)
            <==> a.bits < b.bits) && (a.equals(b) <==> a.bits == b.bits),
        0x8000_0000_0000_0000 <= a.bits <= 0xfff0_0000_0000_0000 && 0x8000_0000_0000_0000
            <= b.bits <= 0xfff0_0000_0000_0000 ==> (a.below(b) <==> a.bits > b.bits) && (a.equals(
            b,
        ) <==> a.bits == b.bits),
        0x8000_0000_0000_0000 < a.bits <= 0xfff0_0000_0000_0000 && b.bits
            <= 0x7ff0_0000_0000_0000 ==> a.below(b) && !b.below(a) && !a.equals(b),
        a.bits == 0x8000_0000_0000_0000 && b.bits == 0 ==> a.equals(b),
        a.nan() <==> 0x7ff0_0000_0000_0000 < a.bits < 0x8000_0000_0000_0000
            || 0xfff0_0000_0000_0000 < a.bits,
        a.finite() <==> !a.nan() && a.bits != 0x7ff0_0000_0000_0000 && a.bits
            != 0xfff0_0000_0000_0000,
{
}

/// The larger of two numbers is one of them and below neither; the smaller is one of them and
/// above neither. A value that is not a number gives way to one that is.
pub proof fn law_the_larger_and_the_smaller_are_the_bounds(a: Number, b: Number)
    ensures
        larger(a, b) == a || larger(a, b) == b,
        !larger(a, b).below(a) && !larger(a, b).below(b),
        smaller(a, b) == a || smaller(a, b) == b,
        !a.below(smaller(a, b)) && !b.below(smaller(a, b)),
        !a.nan() || !b.nan() ==> !larger(a, b).nan() && !smaller(a, b).nan(),
{
}

/// Zero has no bits set, and one only those of its exponent; zero is below one.
pub proof fn law_zero_is_below_one(n: Number)
    ensures
        zero().bits == 0,
        one().bits == 0x3ff0_0000_0000_0000,
        zero().below(one()),
        zero().finite() && one().finite(),
        n.below(zero()) ==> n.below(one()),
{
}

} // verus!
