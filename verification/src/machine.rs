//! What a state machine is configured with, and what the block records of
//! each of its four state machines.

use crate::memory::Placement;
use vstd::prelude::*;

verus! {

/// Number of state machines of a block.
pub const MACHINES: u8 = 4;

/// Number of words that each of the two FIFOs of a state machine holds while
/// they are not joined.
pub const FIFO_DEPTH: u8 = 4;

/// Highest threshold of automatic push and pull: the width of a shift
/// register.
pub const MAX_THRESHOLD: u8 = 32;

/// The clock divisor of a state machine: a fixed-point ratio with sixteen
/// integer and eight fractional bits. The state machine runs at the system
/// clock divided by `int + frac / 256`.
#[derive(Clone, Copy, Debug, PartialEq, Eq, Structural)]
pub struct ClockDivider {
    /// The integer part.
    pub int: u16,
    /// The fractional part in 256ths.
    pub frac: u8,
}

impl ClockDivider {
    /// Whether the ratio is 1.0 or more.
    pub open spec fn spec_at_least_one(self) -> bool {
        self.int >= 1
    }

    /// Whether the ratio is 1.0 or more.
    #[verifier::when_used_as_spec(spec_at_least_one)]
    pub fn at_least_one(self) -> (ok: bool)
        ensures
            ok == self.spec_at_least_one(),
    {
        self.int >= 1
    }

    /// The ratio in 256ths.
    pub open spec fn spec_to_bits(self) -> u32 {
        (self.int as u32 * 256 + self.frac as u32) as u32
    }

    /// The ratio in 256ths: the integer part above the eight fractional bits.
    #[verifier::when_used_as_spec(spec_to_bits)]
    pub fn to_bits(self) -> (bits: u32)
        ensures
            bits == self.spec_to_bits(),
            bits == self.int * 256 + self.frac,
    {
        self.int as u32 * 256 + self.frac as u32
    }
}

/// A group of consecutive pins.
#[derive(Clone, Copy, Debug, PartialEq, Eq, Structural)]
pub struct PinGroup {
    /// The first pin.
    pub base: u8,
    /// Number of pins.
    pub count: u8,
}

/// How the two FIFOs of a state machine share their storage.
#[derive(Clone, Copy, Debug, PartialEq, Eq, Structural)]
pub enum FifoJoin {
    /// Each direction has its own four words.
    Duplex,
    /// The receive FIFO takes the storage of both; nothing can be sent.
    RxOnly,
    /// The transmit FIFO takes the storage of both; nothing can be received.
    TxOnly,
}

impl FifoJoin {
    /// Number of words the receive FIFO holds.
    pub open spec fn spec_rx_depth(self) -> u8 {
        match self {
            FifoJoin::Duplex => FIFO_DEPTH,
            FifoJoin::RxOnly => (2 * FIFO_DEPTH) as u8,
            FifoJoin::TxOnly => 0,
        }
    }

    /// Number of words the receive FIFO holds.
    #[verifier::when_used_as_spec(spec_rx_depth)]
    pub fn rx_depth(self) -> (depth: u8)
        ensures
            depth == self.spec_rx_depth(),
    {
        match self {
            FifoJoin::Duplex => FIFO_DEPTH,
            FifoJoin::RxOnly => 2 * FIFO_DEPTH,
            FifoJoin::TxOnly => 0,
        }
    }

    /// Number of words the transmit FIFO holds.
    pub open spec fn spec_tx_depth(self) -> u8 {
        match self {
            FifoJoin::Duplex => FIFO_DEPTH,
            FifoJoin::RxOnly => 0,
            FifoJoin::TxOnly => (2 * FIFO_DEPTH) as u8,
        }
    }

    /// Number of words the transmit FIFO holds.
    #[verifier::when_used_as_spec(spec_tx_depth)]
    pub fn tx_depth(self) -> (depth: u8)
        ensures
            depth == self.spec_tx_depth(),
            self.spec_rx_depth() + depth == 2 * FIFO_DEPTH,
    {
        match self {
            FifoJoin::Duplex => FIFO_DEPTH,
            FifoJoin::RxOnly => 0,
            FifoJoin::TxOnly => 2 * FIFO_DEPTH,
        }
    }
}

/// The direction in which a shift register moves its bits.
#[derive(Clone, Copy, Debug, PartialEq, Eq, Structural)]
pub enum ShiftDirection {
    /// Towards the most significant bit.
    Left,
    /// Towards the least significant bit.
    Right,
}

/// How one of the two shift registers works. The threshold, the number of
/// bits shifted after which the register is pushed or pulled automatically,
/// is always between 1 and 32.
#[derive(Clone, Copy, Debug, PartialEq, Eq, Structural)]
pub struct ShiftConfig {
    threshold: u8,
    direction: ShiftDirection,
    auto_fill: bool,
}

impl ShiftConfig {
    #[verifier::type_invariant]
    spec fn inv(self) -> bool {
        1 <= self.threshold <= MAX_THRESHOLD
    }

    /// The threshold.
    pub closed spec fn spec_threshold(self) -> u8 {
        self.threshold
    }

    /// The direction.
    pub closed spec fn spec_direction(self) -> ShiftDirection {
        self.direction
    }

    /// Whether the register is pushed or pulled automatically.
    pub closed spec fn spec_auto_fill(self) -> bool {
        self.auto_fill
    }

    /// A shift configuration, or `None` where the threshold is not between
    /// 1 and 32.
    pub fn new(threshold: u8, direction: ShiftDirection, auto_fill: bool) -> (config: Option<Self>)
        ensures
            config is Some <==> 1 <= threshold <= MAX_THRESHOLD,
            config matches Some(c) ==> c.spec_threshold() == threshold && c.spec_direction()
                == direction && c.spec_auto_fill() == auto_fill,
    {
        if 1 <= threshold && threshold <= MAX_THRESHOLD {
            Some(ShiftConfig { threshold, direction, auto_fill })
        } else {
            None
        }
    }

    /// The configuration after reset: the full width, shifting right, nothing
    /// automatic.
    pub closed spec fn spec_full_width() -> ShiftConfig {
        ShiftConfig { threshold: MAX_THRESHOLD, direction: ShiftDirection::Right, auto_fill: false }
    }

    /// The configuration after reset: the full width, shifting right, nothing
    /// automatic.
    #[verifier::when_used_as_spec(spec_full_width)]
    pub fn full_width() -> (config: Self)
        ensures
            config == ShiftConfig::spec_full_width(),
            config.spec_threshold() == MAX_THRESHOLD,
            config.spec_direction() == ShiftDirection::Right,
            !config.spec_auto_fill(),
    {
        ShiftConfig { threshold: MAX_THRESHOLD, direction: ShiftDirection::Right, auto_fill: false }
    }

    /// The threshold.
    #[verifier::when_used_as_spec(spec_threshold)]
    pub fn threshold(self) -> (threshold: u8)
        ensures
            threshold == self.spec_threshold(),
            1 <= threshold <= MAX_THRESHOLD,
    {
        proof {
            use_type_invariant(self);
        }
        self.threshold
    }

    /// The direction.
    #[verifier::when_used_as_spec(spec_direction)]
    pub fn direction(self) -> (direction: ShiftDirection)
        ensures
            direction == self.spec_direction(),
    {
        self.direction
    }

    /// Whether the register is pushed or pulled automatically.
    #[verifier::when_used_as_spec(spec_auto_fill)]
    pub fn auto_fill(self) -> (auto_fill: bool)
        ensures
            auto_fill == self.spec_auto_fill(),
    {
        self.auto_fill
    }
}

/// The configuration of a state machine. The pin groups are taken as they
/// come: whether they may overlap is for whoever assigns the pins to say.
#[derive(Clone, Copy, Debug, PartialEq, Eq, Structural)]
pub struct StateMachineConfig {
    /// The clock divisor.
    pub clock_divider: ClockDivider,
    /// The pins that `set` instructions write.
    pub set_pins: PinGroup,
    /// The pins that `out` instructions write.
    pub out_pins: PinGroup,
    /// The pins that `in` instructions read.
    pub in_pins: PinGroup,
    /// The pins that the side-set drives.
    pub side_set_pins: PinGroup,
    /// How the FIFOs share their storage.
    pub fifo_join: FifoJoin,
    /// The input shift register and automatic push.
    pub shift_in: ShiftConfig,
    /// The output shift register and automatic pull.
    pub shift_out: ShiftConfig,
}

impl StateMachineConfig {
    /// The configuration after reset: divisor 1.0, no pins, separate FIFOs,
    /// full-width shifts to the right, nothing automatic.
    pub open spec fn spec_reset() -> StateMachineConfig {
        StateMachineConfig {
            clock_divider: ClockDivider { int: 1, frac: 0 },
            set_pins: PinGroup { base: 0, count: 0 },
            out_pins: PinGroup { base: 0, count: 0 },
            in_pins: PinGroup { base: 0, count: 0 },
            side_set_pins: PinGroup { base: 0, count: 0 },
            fifo_join: FifoJoin::Duplex,
            shift_in: ShiftConfig::spec_full_width(),
            shift_out: ShiftConfig::spec_full_width(),
        }
    }

    /// The configuration after reset: divisor 1.0, no pins, separate FIFOs,
    /// full-width shifts to the right, nothing automatic.
    #[verifier::when_used_as_spec(spec_reset)]
    pub fn reset() -> (config: Self)
        ensures
            config == StateMachineConfig::spec_reset(),
    {
        let none = PinGroup { base: 0, count: 0 };
        StateMachineConfig {
            clock_divider: ClockDivider { int: 1, frac: 0 },
            set_pins: none,
            out_pins: none,
            in_pins: none,
            side_set_pins: none,
            fifo_join: FifoJoin::Duplex,
            shift_in: ShiftConfig::full_width(),
            shift_out: ShiftConfig::full_width(),
        }
    }
}

/// Where a state machine stands in its life cycle. A state machine begins
/// and ends unclaimed; claiming hands it over halted; configuring and
/// binding prepare it; starting and stopping move it between running and
/// the halted state it was prepared to; releasing takes it back from any
/// state.
#[derive(Clone, Copy, Debug, PartialEq, Eq, Structural)]
pub enum Lifecycle {
    /// Nobody owns the state machine.
    Unclaimed,
    /// Claimed and halted, with no configuration and no program.
    Claimed,
    /// Halted with a configuration and no program.
    Configured,
    /// Halted and bound to a program.
    Bound,
    /// Running.
    Running,
}

/// What a block records of one state machine. Whether it runs is a bit of
/// the block's control register.
#[derive(Clone, Copy, Debug, PartialEq, Eq)]
pub struct Machine {
    /// Whether a handle to the state machine is out.
    pub claimed: bool,
    /// The configuration, once there is one.
    pub config: Option<StateMachineConfig>,
    /// The program the state machine is bound to.
    pub bound: Option<Placement>,
    /// The slot at which the state machine enters its program.
    pub pc: u8,
}

impl Machine {
    /// A state machine that nobody owns.
    pub open spec fn spec_unclaimed() -> Machine {
        Machine { claimed: false, config: None, bound: None, pc: 0 }
    }

    /// A state machine that nobody owns.
    #[verifier::when_used_as_spec(spec_unclaimed)]
    pub fn unclaimed() -> (machine: Machine)
        ensures
            machine == Machine::spec_unclaimed(),
    {
        Machine { claimed: false, config: None, bound: None, pc: 0 }
    }

    /// A state machine as its new owner gets it: halted, not configured,
    /// bound to nothing.
    pub open spec fn spec_fresh() -> Machine {
        Machine { claimed: true, config: None, bound: None, pc: 0 }
    }

    /// A state machine as its new owner gets it: halted, not configured,
    /// bound to nothing.
    #[verifier::when_used_as_spec(spec_fresh)]
    pub fn fresh() -> (machine: Machine)
        ensures
            machine == Machine::spec_fresh(),
    {
        Machine { claimed: true, config: None, bound: None, pc: 0 }
    }
}

} // verus!
