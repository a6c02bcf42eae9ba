//! IEEE 754 binary32 and binary64 values, carried by their bit patterns.
//!
//! Equality (`==`) on these types compares encodings. The ordering of the
//! encoded numbers is given by [`Single::lt_spec`] and its companions,
//! under which a NaN is unordered and the two zeros are equal.

use vstd::prelude::*;

verus! {

/// Sign bit of a binary64 encoding.
pub const DOUBLE_SIGN: u64 = 0x8000_0000_0000_0000;

/// Encoding of positive infinity in binary64; larger magnitudes are NaN.
pub const DOUBLE_INFINITY: u64 = 0x7FF0_0000_0000_0000;

/// Encoding of one half in binary64.
pub const DOUBLE_HALF: u64 = 0x3FE0_0000_0000_0000;

/// Encoding of one in binary64.
pub const DOUBLE_ONE: u64 = 0x3FF0_0000_0000_0000;

/// Sign bit of a binary32 encoding.
pub const SINGLE_SIGN: u32 = 0x8000_0000;

/// Encoding of positive infinity in binary32; larger magnitudes are NaN.
pub const SINGLE_INFINITY: u32 = 0x7F80_0000;

/// A binary64 number, held as its bit pattern.
#[derive(Clone, Copy, Debug, PartialEq, Eq, Structural)]
pub struct Double {
    pub bits: u64,
}

/// A binary32 number, held as its bit pattern.
#[derive(Clone, Copy, Debug, PartialEq, Eq, Structural)]
pub struct Single {
    pub bits: u32,
}

impl Double {
    /// Whether the sign bit is set.
    pub open spec fn is_sign_negative(self) -> bool {
        self.bits >= DOUBLE_SIGN
    }

    /// The encoding with the sign bit cleared.
    pub open spec fn magnitude(self) -> u64 {
        if self.bits >= DOUBLE_SIGN {
            (self.bits - DOUBLE_SIGN) as u64
        } else {
            self.bits
        }
    }

    pub open spec fn is_nan_spec(self) -> bool {
        self.magnitude() > DOUBLE_INFINITY
    }

    /// An integer that orders the numbers as IEEE 754 does: for `a` and `b`
    /// that are not NaN, `a < b` exactly when `a.key() < b.key()`. The two
    /// zeros share the key 0.
    pub open spec fn key(self) -> int {
        if self.is_sign_negative() {
            -(self.magnitude() as int)
        } else {
            self.magnitude() as int
        }
    }

    /// IEEE 754 `<`: false as soon as either side is NaN.
    pub open spec fn lt_spec(self, other: Double) -> bool {
        !self.is_nan_spec() && !other.is_nan_spec() && self.key() < other.key()
    }

    /// IEEE 754 `<=`: false as soon as either side is NaN.
    pub open spec fn le_spec(self, other: Double) -> bool {
        !self.is_nan_spec() && !other.is_nan_spec() && self.key() <= other.key()
    }

    /// IEEE 754 `>`.
    pub open spec fn gt_spec(self, other: Double) -> bool {
        other.lt_spec(self)
    }

    /// IEEE 754 `>=`.
    pub open spec fn ge_spec(self, other: Double) -> bool {
        other.le_spec(self)
    }

    pub fn from_bits(bits: u64) -> (d: Double)
        ensures
            d.bits == bits,
    {
        Double { bits }
    }

    pub fn to_bits(self) -> (bits: u64)
        ensures
            bits == self.bits,
    {
        self.bits
    }

    /// Positive zero.
    pub fn zero() -> (d: Double)
        ensures
            d.bits == 0,
    {
        Double { bits: 0 }
    }

    /// One half.
    pub fn half() -> (d: Double)
        ensures
            d.bits == DOUBLE_HALF,
    {
        Double { bits: DOUBLE_HALF }
    }

    /// One.
    pub fn one() -> (d: Double)
        ensures
            d.bits == DOUBLE_ONE,
    {
        Double { bits: DOUBLE_ONE }
    }

    fn magnitude_bits(self) -> (m: u64)
        ensures
            m == self.magnitude(),
    {
        if self.bits >= DOUBLE_SIGN {
            self.bits - DOUBLE_SIGN
        } else {
            self.bits
        }
    }

    fn key_value(self) -> (k: i128)
        ensures
            k == self.key(),
    {
        let m: u64 = self.magnitude_bits();
        if self.bits >= DOUBLE_SIGN {
            -(m as i128)
        } else {
            m as i128
        }
    }

    pub fn is_nan(self) -> (b: bool)
        ensures
            b == self.is_nan_spec(),
    {
        self.magnitude_bits() > DOUBLE_INFINITY
    }

    pub fn lt(self, other: Double) -> (b: bool)
        ensures
            b == self.lt_spec(other),
    {
        !self.is_nan() && !other.is_nan() && self.key_value() < other.key_value()
    }

    pub fn le(self, other: Double) -> (b: bool)
        ensures
            b == self.le_spec(other),
    {
        !self.is_nan() && !other.is_nan() && self.key_value() <= other.key_value()
    }

    pub fn gt(self, other: Double) -> (b: bool)
        ensures
            b == self.gt_spec(other),
    {
        other.lt(self)
    }

    pub fn ge(self, other: Double) -> (b: bool)
        ensures
            b == self.ge_spec(other),
    {
        other.le(self)
    }
}

impl Single {
    /// Whether the sign bit is set.
    pub open spec fn is_sign_negative(self) -> bool {
        self.bits >= SINGLE_SIGN
    }

    /// The encoding with the sign bit cleared.
    pub open spec fn magnitude(self) -> u32 {
        if self.bits >= SINGLE_SIGN {
            (self.bits - SINGLE_SIGN) as u32
        } else {
            self.bits
        }
    }

    pub open spec fn is_nan_spec(self) -> bool {
        self.magnitude() > SINGLE_INFINITY
    }

    /// An integer that orders the numbers as IEEE 754 does: for `a` and `b`
    /// that are not NaN, `a < b` exactly when `a.key() < b.key()`. The two
    /// zeros share the key 0.
    pub open spec fn key(self) -> int {
        if self.is_sign_negative() {
            -(self.magnitude() as int)
        } else {
            self.magnitude() as int
        }
    }

    /// IEEE 754 `<`: false as soon as either side is NaN.
    pub open spec fn lt_spec(self, other: Single) -> bool {
        !self.is_nan_spec() && !other.is_nan_spec() && self.key() < other.key()
    }

    /// IEEE 754 `<=`: false as soon as either side is NaN.
    pub open spec fn le_spec(self, other: Single) -> bool {
        !self.is_nan_spec() && !other.is_nan_spec() && self.key() <= other.key()
    }

    /// IEEE 754 `>`.
    pub open spec fn gt_spec(self, other: Single) -> bool {
        other.lt_spec(self)
    }

    /// IEEE 754 `>=`.
    pub open spec fn ge_spec(self, other: Single) -> bool {
        other.le_spec(self)
    }

    /// The number with its sign flipped: IEEE 754 negation, which is exact
    /// and also flips the sign of a zero or a NaN.
    pub open spec fn neg_spec(self) -> Single {
        if self.bits >= SINGLE_SIGN {
            Single { bits: (self.bits - SINGLE_SIGN) as u32 }
        } else {
            Single { bits: (self.bits + SINGLE_SIGN) as u32 }
        }
    }

    /// The number with its sign cleared.
    pub open spec fn abs_spec(self) -> Single {
        Single { bits: self.magnitude() }
    }

    pub fn from_bits(bits: u32) -> (s: Single)
        ensures
            s.bits == bits,
    {
        Single { bits }
    }

    pub fn to_bits(self) -> (bits: u32)
        ensures
            bits == self.bits,
    {
        self.bits
    }

    /// Positive zero.
    pub fn zero() -> (s: Single)
        ensures
            s.bits == 0,
    {
        Single { bits: 0 }
    }

    fn magnitude_bits(self) -> (m: u32)
        ensures
            m == self.magnitude(),
    {
        if self.bits >= SINGLE_SIGN {
            self.bits - SINGLE_SIGN
        } else {
            self.bits
        }
    }

    fn key_value(self) -> (k: i64)
        ensures
            k == self.key(),
    {
        let m: u32 = self.magnitude_bits();
        if self.bits >= SINGLE_SIGN {
            -(m as i64)
        } else {
            m as i64
        }
    }

    pub fn is_nan(self) -> (b: bool)
        ensures
            b == self.is_nan_spec(),
    {
        self.magnitude_bits() > SINGLE_INFINITY
    }

    pub fn lt(self, other: Single) -> (b: bool)
        ensures
            b == self.lt_spec(other),
    {
        !self.is_nan() && !other.is_nan() && self.key_value() < other.key_value()
    }

    pub fn le(self, other: Single) -> (b: bool)
        ensures
            b == self.le_spec(other),
    {
        !self.is_nan() && !other.is_nan() && self.key_value() <= other.key_value()
    }

    pub fn gt(self, other: Single) -> (b: bool)
        ensures
            b == self.gt_spec(other),
    {
        other.lt(self)
    }

    pub fn ge(self, other: Single) -> (b: bool)
        ensures
            b == self.ge_spec(other),
    {
        other.le(self)
    }

    pub fn neg(self) -> (s: Single)
        ensures
            s == self.neg_spec(),
    {
        if self.bits >= SINGLE_SIGN {
            Single { bits: self.bits - SINGLE_SIGN }
        } else {
            Single { bits: self.bits + SINGLE_SIGN }
        }
    }

    pub fn abs(self) -> (s: Single)
        ensures
            s == self.abs_spec(),
    {
        Single { bits: self.magnitude_bits() }
    }
}

} // verus!
