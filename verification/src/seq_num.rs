//! TCP sequence numbers: 32-bit values with wraparound arithmetic.
//!
//! All distances are taken modulo 2^32, so `seq_sub(b, a)` is the number of
//! bytes from `a` up to `b` even when the 32-bit counter has wrapped.

use vstd::prelude::*;

verus! {

/// Mathematical value of `a + b` modulo 2^32.
pub open spec fn seq_add_spec(a: u32, b: u32) -> u32 {
    ((a + b) % 0x1_0000_0000) as u32
}

/// Mathematical value of `a - b` modulo 2^32.
pub open spec fn seq_sub_spec(a: u32, b: u32) -> u32 {
    (((a - b) + 0x1_0000_0000) % 0x1_0000_0000) as u32
}

/// A TCP sequence number.
#[derive(Clone, Copy, Debug, PartialEq, Eq, Structural)]
pub struct SeqNumber {
    /// The raw 32-bit counter value.
    pub val: u32,
}

impl SeqNumber {
    /// Wraps a raw counter value.
    pub fn from_u32(val: u32) -> (r: SeqNumber)
        ensures
            r.val == val,
    {
        SeqNumber { val }
    }

    /// Advances this sequence number by `n` bytes, wrapping at 2^32.
    pub fn add(self, n: u32) -> (r: SeqNumber)
        ensures
            r.val == seq_add_spec(self.val, n),
    {
        let wide: u64 = self.val as u64 + n as u64;
        SeqNumber { val: (wide % 0x1_0000_0000) as u32 }
    }

    /// Distance in bytes from `other` up to `self`, modulo 2^32.
    pub fn sub(self, other: SeqNumber) -> (r: u32)
        ensures
            r == seq_sub_spec(self.val, other.val),
    {
        let wide: u64 = self.val as u64 + 0x1_0000_0000 - other.val as u64;
        (wide % 0x1_0000_0000) as u32
    }
}

} // verus!
