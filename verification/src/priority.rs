use vstd::prelude::*;
use vstd::string::StringExecFns;
use crate::text::{decimal, decimal_string};

verus! {

/// The output priority of a sink node unless told otherwise.
pub const DEFAULT_OUTPUT_PRIORITY: u8 = 0u8;

/// Mask selecting the frame-number part of a [`Priority`].
pub const FRAME_MASK: u64 = 0x00ff_ffff_ffff_ffffu64;

/// Scheduling priority of a task: the output priority in the top byte and the
/// frame number below it. Smaller values are scheduled first.
#[derive(Copy, Clone, Debug, PartialEq, Eq, PartialOrd, Ord, Structural)]
pub struct Priority(pub u64);

impl Default for Priority {
    fn default() -> (p: Self)
        ensures
            p.0 == 0,
    {
        Priority(0)
    }
}

impl Priority {
    pub open spec fn spec_new(output_priority: u8, frame_number: u64) -> u64 {
        ((output_priority as u64) << 56u64) | (frame_number & FRAME_MASK)
    }

    pub fn new(output_priority: u8, frame_number: u64) -> (p: Self)
        ensures
            p.0 == Self::spec_new(output_priority, frame_number),
    {
        Priority(((output_priority as u64) << 56u64) | (frame_number & FRAME_MASK))
    }

    pub fn for_frame(self, frame_number: u64) -> (p: Self)
        ensures
            p.0 == (self.0 & !FRAME_MASK) | (frame_number & FRAME_MASK),
    {
        Priority((self.0 & !FRAME_MASK) | (frame_number & FRAME_MASK))
    }

    pub fn get_frame(&self) -> (f: u64)
        ensures
            f == self.0 & FRAME_MASK,
    {
        self.0 & FRAME_MASK
    }

    /// The priority as text: `Priority(output = <top byte>, frame = <frame>)`.
    pub fn describe(&self) -> (s: String)
        ensures
            s@ == "Priority(output = "@ + decimal((self.0 >> 56u64) as nat) + ", frame = "@
                + decimal((self.0 & FRAME_MASK) as nat) + ")"@,
    {
        let mut s = String::from_str("Priority(output = ");
        let output = decimal_string(self.0 >> 56u64);
        s.append(output.as_str());
        s.append(", frame = ");
        let frame = decimal_string(self.0 & FRAME_MASK);
        s.append(frame.as_str());
        s.append(")");
        s
    }
}

} // verus!

verus! {

/// Re-targeting a priority to another frame keeps its output priority and
/// hands back the frame number (within the 56 bits of the frame field).
pub proof fn lemma_for_frame_roundtrip(p: u64, frame_number: u64)
    ensures
        ((p & !FRAME_MASK) | (frame_number & FRAME_MASK)) & FRAME_MASK == frame_number & FRAME_MASK,
        ((p & !FRAME_MASK) | (frame_number & FRAME_MASK)) >> 56u64 == p >> 56u64,
        frame_number < 0x100_0000_0000_0000 ==> frame_number & FRAME_MASK == frame_number,
{
    assert(((p & !FRAME_MASK) | (frame_number & FRAME_MASK)) & FRAME_MASK == frame_number
        & FRAME_MASK) by (bit_vector);
    assert(((p & !FRAME_MASK) | (frame_number & FRAME_MASK)) >> 56u64 == p >> 56u64) by (bit_vector);
    assert(frame_number < 0x100_0000_0000_0000 ==> frame_number & FRAME_MASK == frame_number)
        by (bit_vector);
}

/// A new priority holds the output priority in its top byte and the frame
/// number (taken modulo 2^56) below it.
pub proof fn lemma_new_keeps_frame(output_priority: u8, frame_number: u64)
    ensures
        Priority::spec_new(output_priority, frame_number) & FRAME_MASK == frame_number
            % 0x100_0000_0000_0000,
        Priority::spec_new(output_priority, frame_number) >> 56u64 == output_priority,
{
    assert((((output_priority as u64) << 56u64) | (frame_number & FRAME_MASK)) & FRAME_MASK
        == frame_number % 0x100_0000_0000_0000) by (bit_vector);
    assert((((output_priority as u64) << 56u64) | (frame_number & FRAME_MASK)) >> 56u64
        == output_priority) by (bit_vector);
}

/// Priorities order first by output priority, then by frame number (for frame
/// numbers below 2^56): lower output priorities and earlier frames run first.
pub proof fn lemma_priority_order(p1: u8, f1: u64, p2: u8, f2: u64)
    requires
        f1 < 0x100_0000_0000_0000,
        f2 < 0x100_0000_0000_0000,
    ensures
        (Priority::spec_new(p1, f1) < Priority::spec_new(p2, f2)) == (p1 < p2 || (p1 == p2 && f1
            < f2)),
{
    assert(((((p1 as u64) << 56u64) | (f1 & FRAME_MASK)) < (((p2 as u64) << 56u64) | (f2
        & FRAME_MASK))) == (p1 < p2 || (p1 == p2 && f1 < f2))) by (bit_vector)
        requires
            f1 < 0x100_0000_0000_0000u64,
            f2 < 0x100_0000_0000_0000u64,
    ;
}

} // verus!
