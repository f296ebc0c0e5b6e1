//! A PIO block: its instruction memory and its four state machines.
//!
//! The block owns what its state machines share. A state machine is used
//! through the handle that claiming it gives out, of which there is one at a
//! time; a loaded program through the handle that loading it gives out. The
//! operations change the images that the block keeps of its registers and
//! memory; those that touch the run bits hand back the bus write to perform.

use crate::allocator::{InstructionMemory, LoadedProgram};
use crate::error::Error;
use crate::instr::{opcode_class, OpcodeClass};
use crate::machine::{Lifecycle, Machine, StateMachineConfig, MACHINES};
use crate::memory::Placement;
use crate::model::{
    lemma_bind, lemma_claim, lemma_configure, lemma_load, lemma_release, lemma_start, lemma_stop,
    lemma_unbind, lemma_unload, BlockView, MachineId,
};
use crate::program::Program;
use crate::reg::{bit, Alias, Reg, RegWrite};
use crate::relocate::Addressing;
use vstd::prelude::*;

verus! {

/// The handle of a claimed state machine. Claiming makes it, releasing
/// takes it back, and it cannot be copied: while it is out, nobody else can
/// get hold of the state machine.
#[derive(Debug)]
pub struct StateMachineHandle {
    block: u8,
    machine: u8,
}

impl View for StateMachineHandle {
    type V = MachineId;

    closed spec fn view(&self) -> MachineId {
        MachineId { block: self.block, machine: self.machine }
    }
}

impl StateMachineHandle {
    /// The block of the state machine.
    pub fn block(&self) -> (block: u8)
        ensures
            block == self@.block,
    {
        self.block
    }

    /// The number of the state machine in its block.
    pub fn machine(&self) -> (machine: u8)
        ensures
            machine == self@.machine,
    {
        self.machine
    }
}

/// One PIO block.
pub struct PioBlock {
    ctrl: Reg,
    machines: Vec<Machine>,
    memory: InstructionMemory,
}

impl View for PioBlock {
    type V = BlockView;

    closed spec fn view(&self) -> BlockView {
        BlockView { ctrl: self.ctrl@, machines: self.machines@, memory: self.memory@ }
    }
}

impl PioBlock {
    /// The state is well formed and the allocator's records agree.
    pub closed spec fn wf(&self) -> bool {
        &&& self@.wf()
        &&& self.memory.wf()
    }

    /// A well-formed block has a well-formed state.
    pub proof fn lemma_wf(&self)
        requires
            self.wf(),
        ensures
            self@.wf(),
    {
    }

    /// Block `block` after reset: nothing runs, nothing is claimed, nothing
    /// is loaded.
    pub fn new(block: u8, addressing: Addressing) -> (pio: Self)
        ensures
            pio.wf(),
            pio@ == BlockView::empty(block, addressing),
    {
        let mut machines: Vec<Machine> = Vec::new();
        let mut m: u8 = 0;
        while m < MACHINES
            invariant
                m <= MACHINES,
                machines@.len() == m,
                forall|k: int| 0 <= k < m ==> machines@[k] == Machine::spec_unclaimed(),
            decreases MACHINES - m,
        {
            machines.push(Machine::unclaimed());
            m = m + 1;
        }
        let pio = PioBlock {
            ctrl: Reg::new(0),
            machines,
            memory: InstructionMemory::new(block, addressing),
        };
        proof {
            assert(pio@.machines =~= BlockView::empty(block, addressing).machines);
            pio.memory.lemma_wf();
            assert forall|k: int| 0 <= k < MACHINES implies !pio@.running(k) by {
                let i = k as u32;
                assert(0u32 & (1u32 << i) == 0) by (bit_vector);
            }
        }
        pio
    }

    /// Claims state machine `machine`.
    ///
    /// Fails with `AlreadyClaimed`, and changes nothing, while a handle to
    /// it is out. Otherwise the state machine is handed over halted, not
    /// configured and bound to nothing.
    pub fn claim(&mut self, machine: u8) -> (claimed: Result<StateMachineHandle, Error>)
        requires
            old(self).wf(),
            machine < MACHINES,
        ensures
            final(self).wf(),
            match claimed {
                Ok(sm) => {
                    &&& old(self)@.claim(machine as int) == Ok::<BlockView, Error>(final(self)@)
                    &&& sm@ == (MachineId { block: old(self)@.memory.block, machine })
                    &&& final(self)@.owns(sm@)
                },
                Err(e) => {
                    &&& old(self)@.claim(machine as int) == Err::<BlockView, Error>(e)
                    &&& final(self)@ == old(self)@
                },
            },
    {
        if self.machines[machine as usize].claimed {
            return Err(Error::AlreadyClaimed);
        }
        proof {
            lemma_claim(self@, machine as int);
        }
        self.machines.set(machine as usize, Machine::fresh());
        Ok(StateMachineHandle { block: self.memory.block(), machine })
    }

    /// Configures a state machine.
    ///
    /// Legal only while the state machine is halted: fails with `NotHalted`
    /// while it runs, and with `ClockDividerTooSmall` where the divisor is
    /// below 1.0. A failed call changes nothing.
    pub fn configure(&mut self, sm: &StateMachineHandle, config: StateMachineConfig) -> (configured:
        Result<(), Error>)
        requires
            old(self).wf(),
            old(self)@.owns(sm@),
        ensures
            final(self).wf(),
            final(self)@.owns(sm@),
            match configured {
                Ok(()) => old(self)@.configure(sm@.machine as int, config) == Ok::<
                    BlockView,
                    Error,
                >(final(self)@),
                Err(e) => {
                    &&& old(self)@.configure(sm@.machine as int, config) == Err::<
                        BlockView,
                        Error,
                    >(e)
                    &&& final(self)@ == old(self)@
                },
            },
    {
        let m = sm.machine as usize;
        if bit(self.ctrl.value(), sm.machine as u32) {
            return Err(Error::NotHalted);
        }
        if !config.clock_divider.at_least_one() {
            return Err(Error::ClockDividerTooSmall);
        }
        proof {
            lemma_configure(self@, m as int, config);
        }
        let machine = self.machines[m];
        self.machines.set(
            m,
            Machine {
                claimed: machine.claimed,
                config: Some(config),
                bound: machine.bound,
                pc: machine.pc,
            },
        );
        Ok(())
    }

    /// Unbinds a state machine from its program, if it has one: the program
    /// has one reference less.
    pub fn unbind(&mut self, sm: &StateMachineHandle)
        requires
            old(self).wf(),
            old(self)@.owns(sm@),
        ensures
            final(self).wf(),
            final(self)@.owns(sm@),
            final(self)@ == old(self)@.unbind(sm@.machine as int),
    {
        let m = sm.machine as usize;
        proof {
            lemma_unbind(self@, m as int);
        }
        let machine = self.machines[m];
        match machine.bound {
            Some(p) => {
                self.memory.remove_reference(p.origin);
                self.machines.set(
                    m,
                    Machine {
                        claimed: machine.claimed,
                        config: machine.config,
                        bound: None,
                        pc: machine.pc,
                    },
                );
            },
            None => {},
        }
    }

    /// Binds a state machine to a loaded program: the state machine will
    /// enter the program at its origin, and the program has one reference
    /// more. A state machine that was bound leaves its former program first.
    pub fn bind(&mut self, sm: &StateMachineHandle, program: &LoadedProgram)
        requires
            old(self).wf(),
            old(self)@.owns(sm@),
            old(self)@.memory.holds(program@),
        ensures
            final(self).wf(),
            final(self)@.owns(sm@),
            final(self)@ == old(self)@.bind(sm@.machine as int, program@),
            final(self)@.memory.holds(program@),
    {
        let m = sm.machine as usize;
        proof {
            lemma_unbind(self@, m as int);
            lemma_bind(self@, m as int, program@);
        }
        self.unbind(sm);
        assert(self@.memory.refs(program@.origin as int) == self@.bound_count(
            program@.origin as int,
        ));
        self.memory.add_reference(program);
        let machine = self.machines[m];
        let placement = program.placement();
        self.machines.set(
            m,
            Machine {
                claimed: machine.claimed,
                config: machine.config,
                bound: Some(placement),
                pc: placement.origin,
            },
        );
    }

    /// Starts a state machine: sets its run bit, and no other, through the
    /// bit-set alias of the control register. Returns that write.
    pub fn start(&mut self, sm: &StateMachineHandle) -> (write: RegWrite)
        requires
            old(self).wf(),
            old(self)@.owns(sm@),
        ensures
            final(self).wf(),
            final(self)@.owns(sm@),
            final(self)@ == old(self)@.start(sm@.machine as int),
            final(self)@.running(sm@.machine as int),
            write == (RegWrite { alias: Alias::BitSet, bits: 1u32 << (sm@.machine as u32) }),
            final(self)@.ctrl == write.result(old(self)@.ctrl),
    {
        proof {
            lemma_start(self@, sm.machine as int);
        }
        self.ctrl.write_set(1u32 << (sm.machine as u32))
    }

    /// Stops a state machine: clears its run bit, and no other, through the
    /// bit-clear alias of the control register. Returns that write.
    pub fn stop(&mut self, sm: &StateMachineHandle) -> (write: RegWrite)
        requires
            old(self).wf(),
            old(self)@.owns(sm@),
        ensures
            final(self).wf(),
            final(self)@.owns(sm@),
            final(self)@ == old(self)@.stop(sm@.machine as int),
            !final(self)@.running(sm@.machine as int),
            write == (RegWrite { alias: Alias::BitClear, bits: 1u32 << (sm@.machine as u32) }),
            final(self)@.ctrl == write.result(old(self)@.ctrl),
    {
        proof {
            lemma_stop(self@, sm.machine as int);
        }
        self.ctrl.write_clear(1u32 << (sm.machine as u32))
    }

    /// Checks an instruction for injection into a state machine, outside
    /// its program, and hands back the word to write to its instruction
    /// register.
    ///
    /// While the state machine is halted every instruction passes. While it
    /// runs, only an instruction that writes an immediate to pins passes;
    /// any other fails with `NotHalted`.
    pub fn exec(&self, sm: &StateMachineHandle, instruction: u16) -> (injected: Result<u16, Error>)
        requires
            self.wf(),
            self@.owns(sm@),
        ensures
            injected == if self@.may_exec(sm@.machine as int, instruction) {
                Ok::<u16, Error>(instruction)
            } else {
                Err::<u16, Error>(Error::NotHalted)
            },
    {
        if !bit(self.ctrl.value(), sm.machine as u32) {
            Ok(instruction)
        } else {
            match opcode_class(instruction) {
                OpcodeClass::SetImm => Ok(instruction),
                _ => Err(Error::NotHalted),
            }
        }
    }

    /// Releases a state machine: stops it, unbinds it from its program,
    /// takes the handle back and puts the state machine in the state it had
    /// after reset. Returns the write that stops it.
    pub fn release(&mut self, sm: StateMachineHandle) -> (write: RegWrite)
        requires
            old(self).wf(),
            old(self)@.owns(sm@),
        ensures
            final(self).wf(),
            final(self)@ == old(self)@.release(sm@.machine as int),
            !final(self)@.claimed(sm@.machine as int),
            !final(self)@.running(sm@.machine as int),
            write == (RegWrite { alias: Alias::BitClear, bits: 1u32 << (sm@.machine as u32) }),
            final(self)@.ctrl == write.result(old(self)@.ctrl),
    {
        proof {
            lemma_release(self@, sm.machine as int);
        }
        let write = self.stop(&sm);
        self.unbind(&sm);
        self.machines.set(sm.machine as usize, Machine::unclaimed());
        write
    }

    /// Loads a program into the instruction memory of the block.
    ///
    /// The place is `preferred_origin`, or else the origin that the program
    /// asks for, or else the first free range that is long enough. The words
    /// written are the program relocated to that place. See
    /// [`InstructionMemory::load`] for the failures; a failed call changes
    /// nothing.
    pub fn load(&mut self, program: &Program, preferred_origin: Option<u8>) -> (loaded: Result<
        LoadedProgram,
        Error,
    >)
        requires
            old(self).wf(),
        ensures
            final(self).wf(),
            match loaded {
                Ok(handle) => {
                    &&& old(self)@.load(program@, preferred_origin) == Ok::<
                        (Placement, BlockView),
                        Error,
                    >((handle@, final(self)@))
                    &&& final(self)@.memory.holds(handle@)
                    &&& final(self)@.memory.refs(handle@.origin as int) == 0
                },
                Err(e) => {
                    &&& old(self)@.load(program@, preferred_origin) == Err::<
                        (Placement, BlockView),
                        Error,
                    >(e)
                    &&& final(self)@ == old(self)@
                },
            },
    {
        proof {
            use_type_invariant(program);
        }
        let loaded = self.memory.load(program, preferred_origin);
        proof {
            if loaded is Ok {
                lemma_load(old(self)@, program@, preferred_origin);
            }
        }
        loaded
    }

    /// Unloads a program and gives its slots back.
    ///
    /// While a state machine is bound to the program the call fails with
    /// `Busy`, hands the handle back and changes nothing.
    pub fn unload(&mut self, handle: LoadedProgram) -> (unloaded: Result<
        (),
        (Error, LoadedProgram),
    >)
        requires
            old(self).wf(),
            old(self)@.memory.holds(handle@),
        ensures
            final(self).wf(),
            match unloaded {
                Ok(()) => old(self)@.unload(handle@.origin as int) == Ok::<BlockView, Error>(
                    final(self)@,
                ),
                Err((e, back)) => {
                    &&& old(self)@.unload(handle@.origin as int) == Err::<BlockView, Error>(e)
                    &&& e == Error::Busy
                    &&& back@ == handle@
                    &&& final(self)@ == old(self)@
                },
            },
    {
        let ghost p = handle@;
        let unloaded = self.memory.unload(handle);
        proof {
            if unloaded is Ok {
                lemma_unload(old(self)@, p);
            }
        }
        unloaded
    }
    /// Whether `sm` is the live handle of a state machine of this block.
    pub fn owns(&self, sm: &StateMachineHandle) -> (owned: bool)
        requires
            self.wf(),
        ensures
            owned == self@.owns(sm@),
    {
        sm.block == self.memory.block() && sm.machine < MACHINES
            && self.machines[sm.machine as usize].claimed
    }

    /// Whether `program` names a program that is loaded in this block.
    pub fn holds(&self, program: &LoadedProgram) -> (held: bool)
        requires
            self.wf(),
        ensures
            held == self@.memory.holds(program@),
    {
        self.memory.holds(program)
    }

    /// Whether a handle to state machine `machine` is out.
    pub fn is_claimed(&self, machine: u8) -> (claimed: bool)
        requires
            self.wf(),
        ensures
            claimed == (machine < MACHINES && self@.claimed(machine as int)),
    {
        machine < MACHINES && self.machines[machine as usize].claimed
    }

    /// Where state machine `machine` stands in its life cycle.
    pub fn lifecycle(&self, machine: u8) -> (state: Lifecycle)
        requires
            self.wf(),
            machine < MACHINES,
        ensures
            state == self@.lifecycle(machine as int),
    {
        let record = self.machines[machine as usize];
        if !record.claimed {
            Lifecycle::Unclaimed
        } else if bit(self.ctrl.value(), machine as u32) {
            Lifecycle::Running
        } else if record.bound.is_some() {
            Lifecycle::Bound
        } else if record.config.is_some() {
            Lifecycle::Configured
        } else {
            Lifecycle::Claimed
        }
    }

    /// Whether the state machine runs.
    pub fn is_running(&self, sm: &StateMachineHandle) -> (running: bool)
        requires
            self.wf(),
            self@.owns(sm@),
        ensures
            running == self@.running(sm@.machine as int),
    {
        bit(self.ctrl.value(), sm.machine as u32)
    }

    /// What the block records of the state machine.
    pub fn machine(&self, sm: &StateMachineHandle) -> (machine: Machine)
        requires
            self.wf(),
            self@.owns(sm@),
        ensures
            machine == self@.machines[sm@.machine as int],
    {
        self.machines[sm.machine as usize]
    }

    /// The image of the control register.
    pub fn ctrl(&self) -> (ctrl: u32)
        ensures
            ctrl == self@.ctrl,
    {
        self.ctrl.value()
    }

    /// The instruction memory, to read.
    pub fn memory(&self) -> (memory: &InstructionMemory)
        requires
            self.wf(),
        ensures
            memory.wf(),
            memory@ == self@.memory,
    {
        &self.memory
    }
}

} // verus!
