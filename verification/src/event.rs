//! Events and the flags that say what happened.
use vstd::prelude::*;

use crate::net::Socket;

verus! {

/// An interest in a socket, or what came of it.
#[derive(Debug, Clone, Copy)]
pub struct Event {
    pub flags: EventFlags,
    pub socket: Socket,
    pub data: u64,
}

/// Flags that indicate which event occurred.
#[derive(Debug, Clone, Copy)]
pub struct EventFlags(pub u32);

impl EventFlags {
    pub const NONE: u32 = 0;

    pub const READABLE: u32 = 0b0001;

    pub const WRITABLE: u32 = 0b0010;

    pub const RCLOSED: u32 = 0b0100;

    pub const WCLOSED: u32 = 0b1000;

    /// Some flag of the reading side is set.
    pub open spec fn spec_reads(self) -> bool {
        self.0 & (EventFlags::READABLE | EventFlags::RCLOSED) != 0
    }

    /// Some flag of the writing side is set.
    pub open spec fn spec_writes(self) -> bool {
        self.0 & (EventFlags::WRITABLE | EventFlags::WCLOSED) != 0
    }

    /// Tells whether some flag of the reading side is set.
    #[verifier::when_used_as_spec(spec_reads)]
    pub fn reads(self) -> (reads: bool)
        ensures
            reads == self.reads(),
    {
        self.0 & (EventFlags::READABLE | EventFlags::RCLOSED) != EventFlags::NONE
    }

    /// Tells whether some flag of the writing side is set.
    #[verifier::when_used_as_spec(spec_writes)]
    pub fn writes(self) -> (writes: bool)
        ensures
            writes == self.writes(),
    {
        self.0 & (EventFlags::WRITABLE | EventFlags::WCLOSED) != EventFlags::NONE
    }
}

/// The four flags are different bits: a reading side has those for readable and closed, a writing
/// side the other two.
pub proof fn law_flags_have_a_side(flags: EventFlags)
    ensures
        EventFlags::NONE == 0,
        EventFlags::READABLE == 1,
        EventFlags::WRITABLE == 2,
        EventFlags::RCLOSED == 4,
        EventFlags::WCLOSED == 8,
        flags.reads() <==> flags.0 & 1 != 0 || flags.0 & 4 != 0,
        flags.writes() <==> flags.0 & 2 != 0 || flags.0 & 8 != 0,
{
    let bits = flags.0;
    assert(0b0001u32 | 0b0100u32 == 0b0101u32) by (bit_vector);
    assert(0b0010u32 | 0b1000u32 == 0b1010u32) by (bit_vector);
    assert(bits & 0b0101u32 != 0 <==> bits & 1 != 0 || bits & 4 != 0) by (bit_vector);
    assert(bits & 0b1010u32 != 0 <==> bits & 2 != 0 || bits & 8 != 0) by (bit_vector);
}

} // verus!
