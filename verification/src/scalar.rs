use vstd::prelude::*;

verus! {

/// Bit of the pattern that carries the sign.
pub const SIGN_BIT: u64 = 0x8000_0000_0000_0000;

/// Pattern of positive infinity; every larger magnitude is a NaN.
pub const INFINITY_BITS: u64 = 0x7FF0_0000_0000_0000;

/// Pattern of the number 90.
pub const NINETY_BITS: u64 = 0x4056_8000_0000_0000;

/// Pattern of the number 180.
pub const ONE_EIGHTY_BITS: u64 = 0x4066_8000_0000_0000;

/// A double-precision number, carried by its IEEE-754 binary64 bit pattern.
///
/// The library never does arithmetic on such a number: it stores it, hands
/// it back unchanged, and compares it. Every comparison is decided on the
/// pattern alone and agrees with the comparison of the numbers it denotes:
/// a NaN compares with nothing, the two zeros are equal, and otherwise the
/// order is that of `rank`.
#[derive(Clone, Copy, Debug, PartialEq, Eq, Structural)]
pub struct Binary64 {
    pub bits: u64,
}

impl Binary64 {
    /// The pattern with the sign bit cleared.
    pub open spec fn magnitude(self) -> int {
        if self.bits >= SIGN_BIT {
            self.bits - SIGN_BIT
        } else {
            self.bits as int
        }
    }

    /// The sign bit is set.
    pub open spec fn sign(self) -> bool {
        self.bits >= SIGN_BIT
    }

    /// The pattern denotes no number.
    pub open spec fn spec_is_nan(self) -> bool {
        self.magnitude() > INFINITY_BITS
    }

    /// An integer that orders the patterns which denote numbers as the
    /// numbers themselves are ordered; both zeros have rank 0.
    pub open spec fn rank(self) -> int {
        if self.sign() {
            -self.magnitude()
        } else {
            self.magnitude()
        }
    }

    /// `self <= other` as numbers; false as soon as one side is a NaN.
    pub open spec fn spec_le(self, other: Binary64) -> bool {
        !self.spec_is_nan() && !other.spec_is_nan() && self.rank() <= other.rank()
    }

    /// `self < other` as numbers; false as soon as one side is a NaN.
    pub open spec fn spec_lt(self, other: Binary64) -> bool {
        !self.spec_is_nan() && !other.spec_is_nan() && self.rank() < other.rank()
    }

    /// `low <= self <= high` as numbers.
    pub open spec fn within(self, low: Binary64, high: Binary64) -> bool {
        low.spec_le(self) && self.spec_le(high)
    }

    /// The number is a latitude in degrees: between -90 and 90 inclusive.
    pub open spec fn is_latitude(self) -> bool {
        self.within(
            Binary64 { bits: (NINETY_BITS + SIGN_BIT) as u64 },
            Binary64 { bits: NINETY_BITS },
        )
    }

    /// The number is a longitude in degrees: between -180 and 180 inclusive.
    pub open spec fn is_longitude(self) -> bool {
        self.within(
            Binary64 { bits: (ONE_EIGHTY_BITS + SIGN_BIT) as u64 },
            Binary64 { bits: ONE_EIGHTY_BITS },
        )
    }

    pub fn from_bits(bits: u64) -> (x: Binary64)
        ensures
            x.bits == bits,
    {
        Binary64 { bits }
    }

    pub fn to_bits(self) -> (bits: u64)
        ensures
            bits == self.bits,
    {
        self.bits
    }

    pub fn zero() -> (x: Binary64)
        ensures
            x.bits == 0,
    {
        Binary64 { bits: 0 }
    }

    fn magnitude_bits(self) -> (m: u64)
        ensures
            m == self.magnitude(),
            m < SIGN_BIT,
    {
        if self.bits >= SIGN_BIT {
            self.bits - SIGN_BIT
        } else {
            self.bits
        }
    }

    pub fn is_nan(self) -> (r: bool)
        ensures
            r == self.spec_is_nan(),
    {
        self.magnitude_bits() > INFINITY_BITS
    }

    /// Decides the order of the ranks without leaving `u64`.
    pub fn rank_le(self, other: Binary64) -> (r: bool)
        ensures
            r == (self.rank() <= other.rank()),
    {
        let a: u64 = self.magnitude_bits();
        let b: u64 = other.magnitude_bits();
        if self.bits >= SIGN_BIT {
            if other.bits >= SIGN_BIT {
                b <= a
            } else {
                true
            }
        } else {
            if other.bits >= SIGN_BIT {
                a == 0 && b == 0
            } else {
                a <= b
            }
        }
    }

    pub fn le(self, other: Binary64) -> (r: bool)
        ensures
            r == self.spec_le(other),
    {
        !self.is_nan() && !other.is_nan() && self.rank_le(other)
    }

    pub fn lt(self, other: Binary64) -> (r: bool)
        ensures
            r == self.spec_lt(other),
    {
        !self.is_nan() && !other.is_nan() && !other.rank_le(self)
    }

    pub fn valid_latitude(self) -> (r: bool)
        ensures
            r == self.is_latitude(),
            r == (self.magnitude() <= NINETY_BITS),
    {
        let low = Binary64 { bits: NINETY_BITS + SIGN_BIT };
        let high = Binary64 { bits: NINETY_BITS };
        low.le(self) && self.le(high)
    }

    pub fn valid_longitude(self) -> (r: bool)
        ensures
            r == self.is_longitude(),
            r == (self.magnitude() <= ONE_EIGHTY_BITS),
    {
        let low = Binary64 { bits: ONE_EIGHTY_BITS + SIGN_BIT };
        let high = Binary64 { bits: ONE_EIGHTY_BITS };
        low.le(self) && self.le(high)
    }
}

} // verus!
