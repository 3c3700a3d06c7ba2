//! Single-precision numbers as the engine stores them.
//!
//! The engine never computes with a number itself. It keeps each one as the
//! 32 bits of its IEEE 754 binary32 encoding, copies and compares those
//! bits, and recognises the few classes of value its rules depend on (zero,
//! negative). Everything else is the business of an [`Arithmetic`] backend.
//!
//! [`Arithmetic`]: crate::arithmetic::Arithmetic
use vstd::prelude::*;

verus! {

/// Sign bit of a binary32 encoding.
pub const SIGN_BIT: u32 = 0x8000_0000;

/// Encoding of positive infinity; every larger magnitude is a NaN.
pub const INFINITY_BITS: u32 = 0x7f80_0000;

/// Encoding of `1.0`.
pub const ONE_BITS: u32 = 0x3f80_0000;

/// Encoding of `2.0`.
pub const TWO_BITS: u32 = 0x4000_0000;

/// Encoding of `-1.0`.
pub const MINUS_ONE_BITS: u32 = 0xbf80_0000;

/// A binary32 number, held as its encoding.
///
/// Two scalars are equal when their encodings are: `0.0` and `-0.0` are
/// different scalars, and a NaN equals itself.
#[derive(Clone, Copy, Debug, PartialEq, Eq, Structural)]
pub struct Scalar {
    pub bits: u32,
}

impl Scalar {
    /// The encoding without its sign bit.
    pub open spec fn magnitude_bits(self) -> u32 {
        self.bits & 0x7fff_ffffu32
    }

    /// Whether the number is `0.0` or `-0.0`.
    pub open spec fn is_zero_spec(self) -> bool {
        self.bits == 0 || self.bits == SIGN_BIT
    }

    /// Whether the number is below zero: the sign bit is set, and what
    /// remains is neither zero nor a NaN.
    pub open spec fn is_negative_spec(self) -> bool {
        SIGN_BIT < self.bits <= 0xff80_0000u32
    }

    /// Whether the encoding is a NaN.
    pub open spec fn is_nan_spec(self) -> bool {
        INFINITY_BITS < self.bits < SIGN_BIT || 0xff80_0000u32 < self.bits
    }

    /// The scalar with the given encoding.
    pub fn from_bits(bits: u32) -> (r: Scalar)
        ensures
            r.bits == bits,
    {
        Scalar { bits }
    }

    /// The encoding of the scalar.
    pub fn to_bits(self) -> (r: u32)
        ensures
            r == self.bits,
    {
        self.bits
    }

    /// Positive zero.
    pub fn zero() -> (r: Scalar)
        ensures
            r.bits == 0,
            r.is_zero_spec(),
    {
        Scalar { bits: 0 }
    }

    /// The number one.
    pub fn one() -> (r: Scalar)
        ensures
            r.bits == ONE_BITS,
            !r.is_zero_spec(),
            !r.is_negative_spec(),
    {
        Scalar { bits: ONE_BITS }
    }

    /// The number two.
    pub fn two() -> (r: Scalar)
        ensures
            r.bits == TWO_BITS,
    {
        Scalar { bits: TWO_BITS }
    }

    /// The number minus one.
    pub fn minus_one() -> (r: Scalar)
        ensures
            r.bits == MINUS_ONE_BITS,
            r.is_negative_spec(),
    {
        Scalar { bits: MINUS_ONE_BITS }
    }

    /// Tells whether the number is `0.0` or `-0.0`.
    pub fn is_zero(self) -> (r: bool)
        ensures
            r == self.is_zero_spec(),
            r == (self.magnitude_bits() == 0),
    {
        proof {
            let b = self.bits;
            assert((b & 0x7fff_ffffu32 == 0) == (b == 0 || b == 0x8000_0000u32)) by (bit_vector);
        }
        self.bits == 0 || self.bits == SIGN_BIT
    }

    /// Tells whether the number is below zero. A NaN and `-0.0` are not.
    pub fn is_negative(self) -> (r: bool)
        ensures
            r == self.is_negative_spec(),
            r ==> !self.is_zero_spec() && !self.is_nan_spec(),
    {
        self.bits > SIGN_BIT && self.bits <= 0xff80_0000
    }
}

} // verus!
