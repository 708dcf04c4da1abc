//! Single-precision values carried by their IEEE-754 bit pattern.

use vstd::prelude::*;

verus! {

/// A 32-bit real number held as its IEEE-754 bit pattern.
///
/// The library stores, compares for identity and routes such values; it
/// never does arithmetic on them. Two scalars are equal when their bit
/// patterns are.
#[derive(Clone, Copy, Debug, PartialEq, Eq, Structural)]
pub struct Scalar {
    pub bits: u32,
}

impl Scalar {
    /// Wraps a bit pattern.
    pub fn from_bits(bits: u32) -> (s: Scalar)
        ensures
            s.bits == bits,
    {
        Scalar { bits }
    }

    /// The bit pattern of the value.
    pub fn to_bits(self) -> (bits: u32)
        ensures
            bits == self.bits,
    {
        self.bits
    }

    /// Positive zero.
    pub open spec fn spec_zero() -> Scalar {
        Scalar { bits: 0 }
    }

    /// Positive zero.
    #[verifier::when_used_as_spec(spec_zero)]
    pub fn zero() -> (s: Scalar)
        ensures
            s == Scalar::spec_zero(),
    {
        Scalar { bits: 0 }
    }

    /// One half.
    pub open spec fn spec_half() -> Scalar {
        Scalar { bits: 0x3F00_0000 }
    }

    /// One half.
    #[verifier::when_used_as_spec(spec_half)]
    pub fn half() -> (s: Scalar)
        ensures
            s == Scalar::spec_half(),
    {
        Scalar { bits: 0x3F00_0000 }
    }

    /// One.
    pub open spec fn spec_one() -> Scalar {
        Scalar { bits: 0x3F80_0000 }
    }

    /// One.
    #[verifier::when_used_as_spec(spec_one)]
    pub fn one() -> (s: Scalar)
        ensures
            s == Scalar::spec_one(),
    {
        Scalar { bits: 0x3F80_0000 }
    }
}

} // verus!
