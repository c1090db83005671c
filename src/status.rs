use vstd::prelude::*;

verus! {

/// Bit of a status that marks the remote address as blocked.
pub const BLOCKED_BIT: u32 = 1;

/// Bit of a status that records that a proof-of-work was already taken from the address.
pub const POW_SENT_BIT: u32 = 2;

/// Enforcement state kept per remote address and per connection pair, as bit flags.
#[derive(Clone, Copy, Debug, PartialEq, Eq, Structural)]
pub struct Status {
    pub bits: u32,
}

pub open spec fn has_bit(bits: u32, bit: u32) -> bool {
    bits & bit == bit
}

impl Status {
    pub open spec fn blocked_spec(self) -> bool {
        has_bit(self.bits, BLOCKED_BIT)
    }

    pub open spec fn pow_sent_spec(self) -> bool {
        has_bit(self.bits, POW_SENT_BIT)
    }

    /// No flag set.
    pub fn empty() -> (r: Status)
        ensures
            r.bits == 0,
            !r.blocked_spec(),
            !r.pow_sent_spec(),
    {
        assert(0u32 & 1u32 != 1u32) by (bit_vector);
        assert(0u32 & 2u32 != 2u32) by (bit_vector);
        Status { bits: 0 }
    }

    pub fn from_bits(bits: u32) -> (r: Status)
        ensures
            r.bits == bits,
    {
        Status { bits }
    }

    pub fn is_blocked(&self) -> (r: bool)
        ensures
            r == self.blocked_spec(),
    {
        self.bits & BLOCKED_BIT == BLOCKED_BIT
    }

    pub fn is_pow_sent(&self) -> (r: bool)
        ensures
            r == self.pow_sent_spec(),
    {
        self.bits & POW_SENT_BIT == POW_SENT_BIT
    }

    /// The same flags with `BLOCKED` set.
    pub fn with_blocked(self) -> (r: Status)
        ensures
            r.bits == self.bits | BLOCKED_BIT,
            r.blocked_spec(),
            r.pow_sent_spec() == self.pow_sent_spec(),
    {
        let b = self.bits;
        assert((b | 1u32) & 1u32 == 1u32) by (bit_vector);
        assert(((b | 1u32) & 2u32 == 2u32) == (b & 2u32 == 2u32)) by (bit_vector);
        Status { bits: self.bits | BLOCKED_BIT }
    }

    /// The same flags with `POW_SENT` set.
    pub fn with_pow_sent(self) -> (r: Status)
        ensures
            r.bits == self.bits | POW_SENT_BIT,
            r.pow_sent_spec(),
            r.blocked_spec() == self.blocked_spec(),
    {
        let b = self.bits;
        assert((b | 2u32) & 2u32 == 2u32) by (bit_vector);
        assert(((b | 2u32) & 1u32 == 1u32) == (b & 1u32 == 1u32)) by (bit_vector);
        Status { bits: self.bits | POW_SENT_BIT }
    }
}

/// Setting `BLOCKED` twice is setting it once.
pub proof fn lemma_blocked_idempotent(bits: u32)
    ensures
        (bits | BLOCKED_BIT) | BLOCKED_BIT == bits | BLOCKED_BIT,
{
    assert((bits | 1u32) | 1u32 == bits | 1u32) by (bit_vector);
}

} // verus!
