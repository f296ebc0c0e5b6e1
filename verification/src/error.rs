//! The failures that the PIO core reports.

use vstd::prelude::*;

verus! {

/// Every failure is a fact about capacity or ownership at the time of the
/// call. None is transient, so nothing is retried: the caller decides what to
/// do next.
#[derive(Clone, Copy, Debug, PartialEq, Eq, Structural)]
pub enum Error {
    /// The program does not fit: it is longer than the instruction memory, it
    /// would run past the last slot, or no free range is long enough.
    CapacityExceeded,
    /// A fixed origin was asked for and a slot of that range is occupied.
    AddressInUse,
    /// Under strict addressing, a relocated address would leave the
    /// instruction memory.
    RelocationOutOfRange,
    /// The state machine is already owned by a live handle.
    AlreadyClaimed,
    /// The operation is legal only while the state machine is halted.
    NotHalted,
    /// The clock divisor is below 1.0.
    ClockDividerTooSmall,
    /// The loaded program is still bound to a state machine.
    Busy,
    /// The interrupt vector already has a handler set.
    VectorAlreadyBound,
    /// A field value does not fit the bits that the instruction has for it.
    InvalidOperand,
}

} // verus!
