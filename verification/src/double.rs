//! Double-precision numbers, carried by their bit patterns and compared as
//! IEEE 754 compares them.

use vstd::prelude::*;

verus! {

/// The sign bit of a double.
pub const SIGN: u64 = 0x8000_0000_0000_0000;

/// The bit pattern of positive infinity; a greater magnitude is not a number.
pub const INFINITE: u64 = 0x7ff0_0000_0000_0000;

/// A double, by its bit pattern.
#[derive(Clone, Copy, Debug, PartialEq, Eq, Structural)]
pub struct Double {
    pub bits: u64,
}

/// The bit pattern of one.
pub const ONE_BITS: u64 = 0x3ff0_0000_0000_0000;

/// The bit pattern of minus one.
pub const MINUS_ONE_BITS: u64 = 0xbff0_0000_0000_0000;

/// Zero.
pub open spec fn zero() -> Double {
    Double { bits: 0 }
}

/// One.
pub open spec fn one() -> Double {
    Double { bits: ONE_BITS }
}

/// Minus one, which is below every score.
pub open spec fn minus_one() -> Double {
    Double { bits: MINUS_ONE_BITS }
}

impl Double {
    /// The bits without the sign: a greater magnitude is a greater distance
    /// from zero.
    pub open spec fn magnitude(self) -> int {
        if self.bits < SIGN {
            self.bits as int
        } else {
            self.bits - SIGN
        }
    }

    pub open spec fn is_nan(self) -> bool {
        self.magnitude() > INFINITE
    }

    pub open spec fn is_finite(self) -> bool {
        self.magnitude() < INFINITE
    }

    /// Where the number stands on the number line; both zeros stand at 0.
    pub open spec fn rank(self) -> int {
        if self.bits < SIGN {
            self.magnitude()
        } else {
            -self.magnitude()
        }
    }

    /// Where the number stands in IEEE 754's total order, which tells the zeros
    /// apart and has a place for what is not a number.
    pub open spec fn total_rank(self) -> int {
        if self.bits < SIGN {
            self.magnitude()
        } else {
            -self.magnitude() - 1
        }
    }

    /// `self < other`.
    pub open spec fn below(self, other: Double) -> bool {
        !self.is_nan() && !other.is_nan() && self.rank() < other.rank()
    }

    /// `self >= other`.
    pub open spec fn reaches(self, other: Double) -> bool {
        !self.is_nan() && !other.is_nan() && self.rank() >= other.rank()
    }

    /// `self == other`.
    pub open spec fn equals(self, other: Double) -> bool {
        !self.is_nan() && !other.is_nan() && self.rank() == other.rank()
    }

    fn size(self) -> (m: u64)
        ensures
            m == self.magnitude(),
    {
        if self.bits < SIGN {
            self.bits
        } else {
            self.bits - SIGN
        }
    }

    /// Whether the bits stand for no number.
    pub fn not_a_number(self) -> (r: bool)
        ensures
            r == self.is_nan(),
    {
        self.size() > INFINITE
    }

    /// Whether the bits stand for a number other than the infinities.
    pub fn finite(self) -> (r: bool)
        ensures
            r == self.is_finite(),
    {
        self.size() < INFINITE
    }

    fn position(self) -> (k: i64)
        ensures
            k == self.rank(),
    {
        if self.bits < SIGN {
            self.bits as i64
        } else {
            -((self.bits - SIGN) as i64)
        }
    }

    fn total_position(self) -> (k: i64)
        ensures
            k == self.total_rank(),
    {
        if self.bits < SIGN {
            self.bits as i64
        } else {
            -((self.bits - SIGN) as i64) - 1
        }
    }

    /// `self < other`; false where either is not a number.
    pub fn is_below(self, other: Double) -> (r: bool)
        ensures
            r == self.below(other),
    {
        !self.not_a_number() && !other.not_a_number() && self.position() < other.position()
    }

    /// `self >= other`; false where either is not a number.
    pub fn is_at_least(self, other: Double) -> (r: bool)
        ensures
            r == self.reaches(other),
    {
        !self.not_a_number() && !other.not_a_number() && self.position() >= other.position()
    }

    /// `self == other`; false where either is not a number.
    pub fn is_equal(self, other: Double) -> (r: bool)
        ensures
            r == self.equals(other),
    {
        !self.not_a_number() && !other.not_a_number() && self.position() == other.position()
    }

    /// Whether `self` comes before `other` in the total order.
    pub fn is_totally_below(self, other: Double) -> (r: bool)
        ensures
            r == (self.total_rank() < other.total_rank()),
    {
        self.total_position() < other.total_position()
    }
}

/// Of two numbers exactly one holds: one is below the other, or they are equal; and
/// the first reaches the other exactly when it is not below it.
pub proof fn numbers_are_in_order(a: Double, b: Double)
    requires
        !a.is_nan(),
        !b.is_nan(),
    ensures
        a.below(b) as int + b.below(a) as int + a.equals(b) as int == 1,
        a.reaches(b) <==> !a.below(b),
        a.reaches(b) && b.reaches(a) <==> a.equals(b),
{
}

/// What is not a number compares as neither below, nor equal, nor reaching.
pub proof fn what_is_no_number_compares_with_nothing(a: Double, b: Double)
    requires
        a.bits & 0x7fff_ffff_ffff_ffff > 0x7ff0_0000_0000_0000,
    ensures
        a.is_nan(),
        !a.is_finite(),
        !a.below(b) && !b.below(a),
        !a.reaches(b) && !b.reaches(a),
        !a.equals(b) && !b.equals(a),
{
    let bits = a.bits;
    assert(bits < 0x8000_0000_0000_0000 ==> bits & 0x7fff_ffff_ffff_ffff == bits)
        by (bit_vector);
    assert(bits >= 0x8000_0000_0000_0000 ==> bits & 0x7fff_ffff_ffff_ffff == bits
        - 0x8000_0000_0000_0000) by (bit_vector);
}

/// Positive numbers are in the order of their bits, negative ones in the opposite
/// order, every negative one is below every positive one, and the two zeros are equal.
pub proof fn bits_give_the_order(a: Double, b: Double)
    requires
        !a.is_nan(),
        !b.is_nan(),
    ensures
        a.bits < 0x8000_0000_0000_0000 && b.bits < 0x8000_0000_0000_0000 ==> (a.below(b) <==> a.bits
            < b.bits),
        a.bits >= 0x8000_0000_0000_0000 && b.bits >= 0x8000_0000_0000_0000 ==> (a.below(b)
            <==> a.bits > b.bits),
        a.bits > 0x8000_0000_0000_0000 && b.bits < 0x8000_0000_0000_0000 ==> a.below(b),
        (Double { bits: 0 }).equals((Double { bits: 0x8000_0000_0000_0000 })),
        zero() == (Double { bits: 0 }),
        one() == (Double { bits: 0x3ff0_0000_0000_0000 }),
        minus_one() == (Double { bits: 0xbff0_0000_0000_0000 }),
{
}

} // verus!
