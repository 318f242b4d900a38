use vstd::prelude::*;

verus! {

/// The bit that holds the sign of a double-precision number.
pub const SIGN_BIT: u64 = 0x8000_0000_0000_0000;

/// A double-precision number, held as its 64-bit IEEE-754 pattern. The
/// library moves such numbers about and flips their sign; it leaves all
/// other arithmetic to its caller.
#[derive(Clone, Copy, Debug, PartialEq, Eq, Structural)]
pub struct Value {
    pub bits: u64,
}

impl Value {
    /// The number with the opposite sign: the same pattern but for the
    /// sign bit.
    pub open spec fn negated(self) -> Value {
        if self.bits >= SIGN_BIT {
            Value { bits: (self.bits - SIGN_BIT) as u64 }
        } else {
            Value { bits: (self.bits + SIGN_BIT) as u64 }
        }
    }

    /// The number with the given bit pattern.
    pub fn from_bits(bits: u64) -> (value: Value)
        ensures
            value.bits == bits,
    {
        Value { bits }
    }

    /// The bit pattern of the number.
    pub fn to_bits(self) -> (bits: u64)
        ensures
            bits == self.bits,
    {
        self.bits
    }

    /// The number with the opposite sign.
    pub fn negate(self) -> (value: Value)
        ensures
            value == self.negated(),
    {
        let bits = self.bits;
        let flipped = bits ^ SIGN_BIT;
        assert(flipped == if bits >= 0x8000_0000_0000_0000u64 {
            (bits - 0x8000_0000_0000_0000u64) as u64
        } else {
            (bits + 0x8000_0000_0000_0000u64) as u64
        }) by (bit_vector)
            requires
                flipped == bits ^ 0x8000_0000_0000_0000u64,
        ;
        Value { bits: flipped }
    }
}

/// Flipping the sign twice gives the number back.
pub proof fn lemma_negated_twice(value: Value)
    ensures
        value.negated().negated() == value,
{
}

} // verus!
