//! The runtime operand type: a double-precision number, carried by its bits.
//!
//! The verified core never performs floating-point arithmetic itself.  A
//! [`Value`] holds the IEEE 754 binary64 bit pattern of a number as a plain
//! `u64`; the embedder converts to and from its own floating-point type at the
//! boundary.  The one arithmetic operation that is a pure bit operation —
//! negation, which flips the sign bit — is implemented and verified here.

use vstd::prelude::*;

verus! {

/// The most significant bit of a 64-bit word: the IEEE 754 binary64 sign bit.
pub const SIGN_BIT: u64 = 0x8000_0000_0000_0000;

/// A runtime operand: the bit pattern of a double-precision number.
#[derive(Clone, Copy, Debug, PartialEq, Eq, Structural)]
pub struct Value {
    /// The IEEE 754 binary64 bit pattern.
    pub bits: u64,
}

/// The negation of `v`: IEEE 754 negation flips the sign bit and leaves
/// every other bit unchanged.
pub open spec fn spec_negate(v: Value) -> Value {
    Value { bits: v.bits ^ SIGN_BIT }
}

impl Value {
    /// Wraps a bit pattern as a value.
    pub fn from_bits(bits: u64) -> (r: Value)
        ensures
            r.bits == bits,
    {
        Value { bits }
    }

    /// The bit pattern of this value.
    pub fn to_bits(self) -> (r: u64)
        ensures
            r == self.bits,
    {
        self.bits
    }

    /// The arithmetic negation of this value: the sign bit flipped.
    pub fn negate(self) -> (r: Value)
        ensures
            r == spec_negate(self),
    {
        Value { bits: self.bits ^ SIGN_BIT }
    }
}

} // verus!
