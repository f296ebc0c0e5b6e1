//! The registry of interrupt bindings.
//!
//! Each block raises two interrupt vectors. A vector is bound once, to one
//! set of handlers; a second binding of the same vector is refused, never
//! taken in place of the first. An event that arrives on a vector goes to
//! the set bound to it, if that set serves the event.

use crate::error::Error;
use crate::machine::MACHINES;
use crate::reg::{bit, spec_bit};
use vstd::prelude::*;

verus! {

/// Number of interrupt vectors of the two blocks.
pub const VECTORS: u8 = 4;

/// An interrupt vector of a block.
#[derive(Clone, Copy, Debug, PartialEq, Eq, Structural)]
pub enum Vector {
    /// First vector of block 0.
    Pio0Irq0,
    /// Second vector of block 0.
    Pio0Irq1,
    /// First vector of block 1.
    Pio1Irq0,
    /// Second vector of block 1.
    Pio1Irq1,
}

impl Vector {
    /// The place of the vector in the registry.
    pub open spec fn spec_index(self) -> u8 {
        match self {
            Vector::Pio0Irq0 => 0,
            Vector::Pio0Irq1 => 1,
            Vector::Pio1Irq0 => 2,
            Vector::Pio1Irq1 => 3,
        }
    }

    /// The place of the vector in the registry.
    #[verifier::when_used_as_spec(spec_index)]
    pub fn index(self) -> (index: u8)
        ensures
            index == self.spec_index(),
            index < VECTORS,
    {
        match self {
            Vector::Pio0Irq0 => 0,
            Vector::Pio0Irq1 => 1,
            Vector::Pio1Irq0 => 2,
            Vector::Pio1Irq1 => 3,
        }
    }

    /// The block that raises the vector.
    pub fn block(self) -> (block: u8)
        ensures
            block == self.spec_index() / 2,
    {
        match self {
            Vector::Pio0Irq0 => 0,
            Vector::Pio0Irq1 => 0,
            Vector::Pio1Irq0 => 1,
            Vector::Pio1Irq1 => 1,
        }
    }
}

/// What a block can raise an interrupt for.
#[derive(Clone, Copy, Debug, PartialEq, Eq, Structural)]
pub enum Event {
    /// The receive FIFO of a state machine holds data.
    FifoReady {
        /// The state machine.
        machine: u8,
    },
    /// The transmit FIFO of a state machine has room.
    FifoEmpty {
        /// The state machine.
        machine: u8,
    },
    /// A program raised an interrupt flag.
    IrqFlag {
        /// The flag.
        flag: u8,
    },
}

/// The handlers bound to one vector, by the events they serve: one bit per
/// state machine for each kind of FIFO event, one bit per interrupt flag.
#[derive(Clone, Copy, Debug, PartialEq, Eq, Structural)]
pub struct HandlerSet {
    /// State machines whose receive FIFO is served.
    pub fifo_ready: u8,
    /// State machines whose transmit FIFO is served.
    pub fifo_empty: u8,
    /// Interrupt flags that are served.
    pub irq_flags: u8,
}

impl HandlerSet {
    /// Whether the set serves `event`.
    pub open spec fn spec_serves(self, event: Event) -> bool {
        match event {
            Event::FifoReady { machine } => machine < MACHINES && spec_bit(
                self.fifo_ready as u32,
                machine as u32,
            ),
            Event::FifoEmpty { machine } => machine < MACHINES && spec_bit(
                self.fifo_empty as u32,
                machine as u32,
            ),
            Event::IrqFlag { flag } => flag < MACHINES && spec_bit(
                self.irq_flags as u32,
                flag as u32,
            ),
        }
    }

    /// Whether the set serves `event`.
    #[verifier::when_used_as_spec(spec_serves)]
    pub fn serves(self, event: Event) -> (served: bool)
        ensures
            served == self.spec_serves(event),
    {
        match event {
            Event::FifoReady { machine } => machine < MACHINES && bit(
                self.fifo_ready as u32,
                machine as u32,
            ),
            Event::FifoEmpty { machine } => machine < MACHINES && bit(
                self.fifo_empty as u32,
                machine as u32,
            ),
            Event::IrqFlag { flag } => flag < MACHINES && bit(self.irq_flags as u32, flag as u32),
        }
    }
}

/// The state of a registry: what each vector is bound to.
pub struct RegistryView {
    /// The handler set of each vector, by the index of the vector.
    pub bound: Seq<Option<HandlerSet>>,
}

impl RegistryView {
    /// A registry with nothing bound.
    pub open spec fn empty() -> RegistryView {
        RegistryView { bound: Seq::new(VECTORS as nat, |v: int| None::<HandlerSet>) }
    }

    /// The registry has a place for every vector.
    pub open spec fn wf(self) -> bool {
        self.bound.len() == VECTORS
    }

    /// Whether `vector` is bound.
    pub open spec fn is_bound(self, vector: Vector) -> bool {
        self.bound[vector.spec_index() as int] is Some
    }

    /// Binding `vector`: `VectorAlreadyBound` where it is bound, else the
    /// registry in which it is bound to `handlers`.
    pub open spec fn bind(self, vector: Vector, handlers: HandlerSet) -> Result<
        RegistryView,
        Error,
    > {
        if self.is_bound(vector) {
            Err(Error::VectorAlreadyBound)
        } else {
            Ok(RegistryView { bound: self.bound.update(vector.spec_index() as int, Some(handlers)) })
        }
    }

    /// Whether an `event` that arrives on `vector` finds a handler.
    pub open spec fn routes(self, vector: Vector, event: Event) -> bool {
        self.is_bound(vector) && self.bound[vector.spec_index() as int].unwrap().spec_serves(
            event,
        )
    }
}

/// The registry of interrupt bindings.
pub struct InterruptRegistry {
    bound: Vec<Option<HandlerSet>>,
}

impl View for InterruptRegistry {
    type V = RegistryView;

    closed spec fn view(&self) -> RegistryView {
        RegistryView { bound: self.bound@ }
    }
}

impl InterruptRegistry {
    /// The registry has a place for every vector.
    pub open spec fn wf(&self) -> bool {
        self@.wf()
    }

    /// A registry with nothing bound.
    pub fn new() -> (registry: Self)
        ensures
            registry.wf(),
            registry@ == RegistryView::empty(),
    {
        let mut bound: Vec<Option<HandlerSet>> = Vec::new();
        let mut v: u8 = 0;
        while v < VECTORS
            invariant
                v <= VECTORS,
                bound@.len() == v,
                forall|k: int| 0 <= k < v ==> bound@[k] is None,
            decreases VECTORS - v,
        {
            bound.push(None);
            v = v + 1;
        }
        let registry = InterruptRegistry { bound };
        assert(registry@.bound =~= RegistryView::empty().bound);
        registry
    }

    /// Binds `vector` to `handlers`.
    ///
    /// A vector is bound once: a second binding fails with
    /// `VectorAlreadyBound` and leaves the first in place.
    pub fn bind(&mut self, vector: Vector, handlers: HandlerSet) -> (bound: Result<(), Error>)
        requires
            old(self).wf(),
        ensures
            final(self).wf(),
            match bound {
                Ok(()) => old(self)@.bind(vector, handlers) == Ok::<RegistryView, Error>(
                    final(self)@,
                ),
                Err(e) => old(self)@.bind(vector, handlers) == Err::<RegistryView, Error>(e)
                    && final(self)@ == old(self)@,
            },
            final(self)@.is_bound(vector),
    {
        let index = vector.index() as usize;
        if self.bound[index].is_some() {
            return Err(Error::VectorAlreadyBound);
        }
        self.bound.set(index, Some(handlers));
        Ok(())
    }

    /// Whether `vector` is bound.
    pub fn is_bound(&self, vector: Vector) -> (bound: bool)
        requires
            self.wf(),
        ensures
            bound == self@.is_bound(vector),
    {
        self.bound[vector.index() as usize].is_some()
    }

    /// Whether an `event` that arrives on `vector` finds a handler: the
    /// vector is bound, and to a set that serves the event. An event that
    /// finds none wakes nobody.
    pub fn routes(&self, vector: Vector, event: Event) -> (routed: bool)
        requires
            self.wf(),
        ensures
            routed == self@.routes(vector, event),
    {
        match self.bound[vector.index() as usize] {
            Some(handlers) => handlers.serves(event),
            None => false,
        }
    }
}

/// A vector that was bound stays bound to the same handlers whatever is
/// bound afterwards, and binding it again fails.
pub proof fn lemma_bound_once(
    registry: RegistryView,
    vector: Vector,
    handlers: HandlerSet,
    other: Vector,
    others: HandlerSet,
)
    requires
        registry.wf(),
        registry.bind(vector, handlers) is Ok,
    ensures
        registry.bind(vector, handlers).unwrap().wf(),
        registry.bind(vector, handlers).unwrap().bind(vector, others) == Err::<
            RegistryView,
            Error,
        >(Error::VectorAlreadyBound),
        registry.bind(vector, handlers).unwrap().bind(other, others) matches Ok(after)
            ==> after.bound[vector.spec_index() as int] == Some(handlers),
{
}

} // verus!
