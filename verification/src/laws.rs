//! What holds of the library as a whole: laws that relate several
//! operations, and the invariants that every sequence of operations keeps.

use crate::error::Error;
use crate::free_list::{free_list_of, is_free_list, lemma_free_list_of};
use crate::instr::{
    lemma_patch_jump_target, spec_is_jump, spec_jump_target, spec_patch_jump_target,
};
use crate::machine::{Lifecycle, Machine, StateMachineConfig, MACHINES};
use crate::memory::{
    lemma_first_fit, lemma_regions_disjoint, lemma_vacate, MemoryView, Placement, Span,
};
use crate::model::{
    lemma_bind, lemma_claim, lemma_configure, lemma_load, lemma_memory_load, lemma_release,
    lemma_start, lemma_stop, lemma_unbind, lemma_unload, BlockView,
};
use crate::program::ProgramView;
use crate::relocate::{
    in_range, relocate_spec, relocated_address, relocated_word, Addressing, SLOTS,
};
use vstd::prelude::*;

verus! {

/// The base by which a program relocated by `base` comes back to where it
/// was, under wrapping addressing.
pub open spec fn inverse_base(base: u8) -> u8 {
    ((SLOTS - base) % (SLOTS as int)) as u8
}

/// Relocation there and back: a jump patched to `target`, relocated by
/// `base` and then by the inverse base, is the patched jump again, and its
/// target field reads `target`.
pub proof fn lemma_relocation_round_trip(raw: u16, target: u8, base: u8)
    requires
        spec_is_jump(raw),
        target < SLOTS,
        base < SLOTS,
    ensures
        ({
            let patched = spec_patch_jump_target(raw, target);
            let there = relocated_word(patched, base);
            let back = relocated_word(there, inverse_base(base));
            &&& spec_is_jump(there)
            &&& spec_jump_target(there) == relocated_address(target, base)
            &&& back == patched
            &&& spec_jump_target(back) == target
        }),
{
    let patched = spec_patch_jump_target(raw, target);
    lemma_patch_jump_target(raw, target);
    let moved = relocated_address(target, base);
    let there = relocated_word(patched, base);
    assert(there == spec_patch_jump_target(patched, moved));
    lemma_patch_jump_target(patched, moved);
    let home = relocated_address(moved, inverse_base(base));
    assert(home == target);
    let back = relocated_word(there, inverse_base(base));
    assert(back == spec_patch_jump_target(there, target));
    lemma_patch_jump_target(there, target);
    let t = target as u16;
    let m = moved as u16;
    let low = patched & 0x1f;
    assert(low < 32) by (bit_vector)
        requires
            low == patched & 0x1f,
    ;
    assert(((((patched & 0xffe0) | m) & 0xffe0) | t) == patched) by (bit_vector)
        requires
            patched & 0x1f == t,
            m < 32,
    ;
}

/// Loading succeeds whenever it can: a program of at most 32 words that asks
/// for no origin is loaded if some range of its length is free, at the
/// lowest such range, and the words installed there are the program
/// relocated to that base. Under strict addressing this holds of the
/// programs whose addresses stay in range at that base.
pub proof fn lemma_load_succeeds(memory: MemoryView, program: ProgramView, base: int)
    requires
        memory.wf(),
        program.wf(),
        program.code.len() <= SLOTS,
        program.origin is None,
        memory.range_free(base, program.code.len() as int),
        memory.addressing == Addressing::Wrapping || (memory.first_fit(program.code.len() as int)
            matches Some(b) && in_range(program, b as u8)),
    ensures
        memory.load(program, None) is Ok,
        ({
            let (handle, after) = memory.load(program, None).unwrap();
            let relocated = relocate_spec(program, handle.origin, memory.addressing);
            &&& memory.first_fit(program.code.len() as int) == Some(handle.origin as int)
            &&& handle.origin <= base
            &&& handle.len == program.code.len()
            &&& relocated is Ok
            &&& after.wf()
            &&& after.holds(handle)
            &&& forall|j: int|
                0 <= j < program.code.len() ==> after.words[handle.origin + j]
                    == relocated.unwrap().code[j]
            &&& forall|slot: int|
                0 <= slot < SLOTS && !(handle.origin <= slot < handle.origin + handle.len)
                    ==> after.words[slot] == memory.words[slot]
        }),
{
    let len = program.code.len() as int;
    lemma_first_fit(memory, 0, len);
    assert(memory.first_fit(len) is Some);
    let b = memory.first_fit(len).unwrap();
    assert(memory.range_free(b, len));
    assert(memory.placement(len, None) == Ok::<u8, Error>(b as u8));
    assert(relocate_spec(program, b as u8, memory.addressing) is Ok);
    assert(memory.load(program, None) is Ok);
    lemma_memory_load(memory, program, None);
}

/// Unloading gives back exactly what loading took: after a program is
/// loaded and unloaded again, the table and the free list are what they
/// were.
pub proof fn lemma_unload_restores(
    memory: MemoryView,
    free: Seq<Span>,
    program: ProgramView,
    preferred: Option<u8>,
)
    requires
        memory.wf(),
        is_free_list(free, memory),
        program.wf(),
        memory.load(program, preferred) is Ok,
    ensures
        ({
            let (handle, loaded) = memory.load(program, preferred).unwrap();
            let unloaded = loaded.unload(handle.origin as int);
            &&& unloaded is Ok
            &&& unloaded.unwrap().regions == memory.regions
            &&& is_free_list(free, unloaded.unwrap())
            &&& free_list_of(unloaded.unwrap()) == free_list_of(memory)
        }),
{
    let (handle, loaded) = memory.load(program, preferred).unwrap();
    lemma_memory_load(memory, program, preferred);
    let origin = handle.origin as int;
    let after = loaded.unload(origin).unwrap();
    assert(after.regions =~= memory.regions);
    assert forall|slot: int| after.occupied(slot) <==> memory.occupied(slot) by {
        if after.occupied(slot) {
            let o = choose|o: int| after.covers(o, slot);
            assert(memory.covers(o, slot));
        }
        if memory.occupied(slot) {
            let o = choose|o: int| memory.covers(o, slot);
            assert(after.covers(o, slot));
        }
    }
    lemma_free_list_of(free, after);
    lemma_free_list_of(free, memory);
}

/// An operation on the instruction memory.
pub enum MemoryOp {
    /// Load a program, with or without a preferred origin.
    Load {
        /// The program.
        program: ProgramView,
        /// The preferred origin.
        preferred: Option<u8>,
    },
    /// Unload a loaded program.
    Unload {
        /// The handle of the program.
        handle: Placement,
    },
}

impl MemoryView {
    /// The memory after `op`. An operation that fails changes nothing, and
    /// neither does one whose arguments no caller can have: a program that
    /// is not well formed, a handle of nothing that is loaded.
    pub open spec fn apply(self, op: MemoryOp) -> MemoryView {
        match op {
            MemoryOp::Load { program, preferred } => if program.wf() && self.load(
                program,
                preferred,
            ) is Ok {
                self.load(program, preferred).unwrap().1
            } else {
                self
            },
            MemoryOp::Unload { handle } => if self.holds(handle) && self.unload(
                handle.origin as int,
            ) is Ok {
                self.unload(handle.origin as int).unwrap()
            } else {
                self
            },
        }
    }

    /// The memory after the operations of `ops` in order.
    pub open spec fn run(self, ops: Seq<MemoryOp>) -> MemoryView
        decreases ops.len(),
    {
        if ops.len() == 0 {
            self
        } else {
            self.run(ops.drop_last()).apply(ops.last())
        }
    }
}

/// After any sequence of loads and unloads the table is well formed: no two
/// loaded programs share a slot.
pub proof fn lemma_never_overlap(
    block: u8,
    addressing: Addressing,
    ops: Seq<MemoryOp>,
    a: int,
    b: int,
    slot: int,
)
    requires
        0 <= a < SLOTS,
        0 <= b < SLOTS,
        a != b,
    ensures
        MemoryView::empty(block, addressing).run(ops).wf(),
        !(MemoryView::empty(block, addressing).run(ops).covers(a, slot) && MemoryView::empty(
            block,
            addressing,
        ).run(ops).covers(b, slot)),
{
    let start = MemoryView::empty(block, addressing);
    lemma_run_wf(start, ops);
    let end = start.run(ops);
    if end.covers(a, slot) && end.covers(b, slot) {
        lemma_regions_disjoint(end, a, b);
    }
}

/// Every sequence of loads and unloads keeps a well-formed table well
/// formed.
pub proof fn lemma_run_wf(memory: MemoryView, ops: Seq<MemoryOp>)
    requires
        memory.wf(),
    ensures
        memory.run(ops).wf(),
    decreases ops.len(),
{
    if ops.len() > 0 {
        lemma_run_wf(memory, ops.drop_last());
        let before = memory.run(ops.drop_last());
        match ops.last() {
            MemoryOp::Load { program, preferred } => {
                if program.wf() && before.load(program, preferred) is Ok {
                    lemma_memory_load(before, program, preferred);
                }
            },
            MemoryOp::Unload { handle } => {
                if before.holds(handle) && before.unload(handle.origin as int) is Ok {
                    lemma_vacate(before, handle.origin as int);
                }
            },
        }
    }
}

/// Unloading a program that a state machine is bound to fails with `Busy`
/// and changes nothing: neither the table nor, with it, the free list.
pub proof fn lemma_unload_busy(b: BlockView, handle: Placement)
    requires
        b.wf(),
        b.memory.holds(handle),
        b.memory.refs(handle.origin as int) > 0,
    ensures
        b.unload(handle.origin as int) == Err::<BlockView, Error>(Error::Busy),
        b.memory.apply(MemoryOp::Unload { handle }) == b.memory,
        free_list_of(b.memory.apply(MemoryOp::Unload { handle })) == free_list_of(b.memory),
{
}

/// An operation on a block.
pub enum Op {
    /// Claim a state machine.
    Claim {
        /// The state machine.
        machine: int,
    },
    /// Configure a state machine.
    Configure {
        /// The state machine.
        machine: int,
        /// The configuration.
        config: StateMachineConfig,
    },
    /// Bind a state machine to a loaded program.
    Bind {
        /// The state machine.
        machine: int,
        /// The handle of the program.
        handle: Placement,
    },
    /// Unbind a state machine.
    Unbind {
        /// The state machine.
        machine: int,
    },
    /// Start a state machine.
    Start {
        /// The state machine.
        machine: int,
    },
    /// Stop a state machine.
    Stop {
        /// The state machine.
        machine: int,
    },
    /// Release a state machine.
    Release {
        /// The state machine.
        machine: int,
    },
    /// Load a program.
    Load {
        /// The program.
        program: ProgramView,
        /// The preferred origin.
        preferred: Option<u8>,
    },
    /// Unload a loaded program.
    Unload {
        /// The handle of the program.
        handle: Placement,
    },
}

impl BlockView {
    /// Whether a caller can have the arguments of `op`: the state machine
    /// exists, and is claimed where the operation takes its handle; the
    /// program is well formed; the program handle is of a loaded program.
    pub open spec fn admits(self, op: Op) -> bool {
        match op {
            Op::Claim { machine } => 0 <= machine < MACHINES,
            Op::Configure { machine, config } => 0 <= machine < MACHINES && self.claimed(machine),
            Op::Bind { machine, handle } => 0 <= machine < MACHINES && self.claimed(machine)
                && self.memory.holds(handle),
            Op::Unbind { machine } => 0 <= machine < MACHINES && self.claimed(machine),
            Op::Start { machine } => 0 <= machine < MACHINES && self.claimed(machine),
            Op::Stop { machine } => 0 <= machine < MACHINES && self.claimed(machine),
            Op::Release { machine } => 0 <= machine < MACHINES && self.claimed(machine),
            Op::Load { program, preferred } => program.wf(),
            Op::Unload { handle } => self.memory.holds(handle),
        }
    }

    /// The state after `op`. An operation that fails, or that no caller can
    /// make, changes nothing.
    pub open spec fn apply(self, op: Op) -> BlockView {
        if !self.admits(op) {
            self
        } else {
            match op {
                Op::Claim { machine } => match self.claim(machine) {
                    Ok(after) => after,
                    Err(_) => self,
                },
                Op::Configure { machine, config } => match self.configure(machine, config) {
                    Ok(after) => after,
                    Err(_) => self,
                },
                Op::Bind { machine, handle } => self.bind(machine, handle),
                Op::Unbind { machine } => self.unbind(machine),
                Op::Start { machine } => self.start(machine),
                Op::Stop { machine } => self.stop(machine),
                Op::Release { machine } => self.release(machine),
                Op::Load { program, preferred } => match self.load(program, preferred) {
                    Ok((_, after)) => after,
                    Err(_) => self,
                },
                Op::Unload { handle } => match self.unload(handle.origin as int) {
                    Ok(after) => after,
                    Err(_) => self,
                },
            }
        }
    }

    /// The state after the operations of `ops` in order.
    pub open spec fn run(self, ops: Seq<Op>) -> BlockView
        decreases ops.len(),
    {
        if ops.len() == 0 {
            self
        } else {
            self.run(ops.drop_last()).apply(ops.last())
        }
    }
}

/// Every operation keeps a well-formed state well formed, and only
/// releasing a state machine ends its claim.
pub proof fn lemma_apply(b: BlockView, op: Op, m: int)
    requires
        b.wf(),
        0 <= m < MACHINES,
    ensures
        b.apply(op).wf(),
        b.apply(op).memory.block == b.memory.block,
        b.claimed(m) && op != (Op::Release { machine: m }) ==> b.apply(op).claimed(m),
{
    if b.admits(op) {
        match op {
            Op::Claim { machine } => {
                if !b.claimed(machine) {
                    lemma_claim(b, machine);
                }
            },
            Op::Configure { machine, config } => {
                if b.configure(machine, config) is Ok {
                    lemma_configure(b, machine, config);
                }
            },
            Op::Bind { machine, handle } => {
                lemma_unbind(b, machine);
                lemma_bind(b, machine, handle);
                let free = b.unbind(machine);
                assert(free.machines[m].claimed == b.machines[m].claimed) by {
                    if b.machines[machine].bound is Some {
                        assert(free.machines == b.machines.update(
                            machine,
                            Machine { bound: None, ..b.machines[machine] },
                        ));
                    }
                }
                assert(b.bind(machine, handle).machines == free.machines.update(
                    machine,
                    Machine { bound: Some(handle), pc: handle.origin, ..free.machines[machine] },
                ));
            },
            Op::Unbind { machine } => {
                lemma_unbind(b, machine);
                if b.machines[machine].bound is Some {
                    assert(b.unbind(machine).machines == b.machines.update(
                        machine,
                        Machine { bound: None, ..b.machines[machine] },
                    ));
                }
            },
            Op::Start { machine } => {
                lemma_start(b, machine);
            },
            Op::Stop { machine } => {
                lemma_stop(b, machine);
            },
            Op::Release { machine } => {
                lemma_release(b, machine);
            },
            Op::Load { program, preferred } => {
                if b.load(program, preferred) is Ok {
                    lemma_load(b, program, preferred);
                    lemma_memory_load(b.memory, program, preferred);
                }
            },
            Op::Unload { handle } => {
                if b.unload(handle.origin as int) is Ok {
                    lemma_unload(b, handle);
                }
            },
        }
    }
}

/// Every sequence of operations keeps a well-formed block well formed: no
/// two loaded programs overlap, every reference count is the number of
/// state machines bound, and no state machine runs or is bound that nobody
/// owns.
pub proof fn lemma_run(b: BlockView, ops: Seq<Op>)
    requires
        b.wf(),
    ensures
        b.run(ops).wf(),
        b.run(ops).memory.block == b.memory.block,
    decreases ops.len(),
{
    if ops.len() > 0 {
        lemma_run(b, ops.drop_last());
        lemma_apply(b.run(ops.drop_last()), ops.last(), 0);
    }
}

/// A claim holds through every interleaving: after a successful claim of
/// state machine `m`, and whatever operations follow that do not release
/// `m`, claiming `m` again fails with `AlreadyClaimed`, and the failed claim
/// changes nothing.
pub proof fn lemma_claim_is_exclusive(b: BlockView, m: int, ops: Seq<Op>)
    requires
        b.wf(),
        0 <= m < MACHINES,
        b.claim(m) is Ok,
        forall|i: int| 0 <= i < ops.len() ==> ops[i] != (Op::Release { machine: m }),
    ensures
        b.claim(m).unwrap().run(ops).wf(),
        b.claim(m).unwrap().run(ops).claim(m) == Err::<BlockView, Error>(Error::AlreadyClaimed),
        b.claim(m).unwrap().run(ops).apply(Op::Claim { machine: m }) == b.claim(m).unwrap().run(
            ops,
        ),
    decreases ops.len(),
{
    lemma_claim(b, m);
    let first = b.claim(m).unwrap();
    if ops.len() > 0 {
        lemma_claim_is_exclusive(b, m, ops.drop_last());
        lemma_apply(first.run(ops.drop_last()), ops.last(), m);
    }
}

/// The life cycle of a state machine: claiming takes it from unclaimed to
/// claimed and halted; configuring is refused while it runs and otherwise
/// leaves it halted with a configuration; binding a halted state machine
/// leaves it bound; starting makes it run; stopping halts it without giving
/// it up; releasing takes it back from any state.
pub proof fn lemma_life_cycle(b: BlockView, m: int, config: StateMachineConfig, p: Placement)
    requires
        b.wf(),
        0 <= m < MACHINES,
        b.memory.holds(p),
    ensures
        b.lifecycle(m) == Lifecycle::Unclaimed ==> b.claim(m) is Ok && b.claim(
            m,
        ).unwrap().lifecycle(m) == Lifecycle::Claimed,
        b.lifecycle(m) != Lifecycle::Unclaimed ==> b.claim(m) is Err,
        b.lifecycle(m) == Lifecycle::Running ==> b.configure(m, config) == Err::<
            BlockView,
            Error,
        >(Error::NotHalted),
        b.configure(m, config) matches Ok(after) ==> after.lifecycle(m) == (if b.lifecycle(m)
            == Lifecycle::Claimed {
            Lifecycle::Configured
        } else {
            b.lifecycle(m)
        }),
        b.claimed(m) ==> b.bind(m, p).lifecycle(m) == (if b.running(m) {
            Lifecycle::Running
        } else {
            Lifecycle::Bound
        }),
        b.claimed(m) ==> b.start(m).lifecycle(m) == Lifecycle::Running,
        b.claimed(m) ==> b.stop(m).lifecycle(m) != Lifecycle::Running && b.stop(m).lifecycle(m)
            != Lifecycle::Unclaimed,
        b.lifecycle(m) == Lifecycle::Running ==> b.stop(m).start(m).lifecycle(m)
            == Lifecycle::Running,
        b.release(m).lifecycle(m) == Lifecycle::Unclaimed,
{
    lemma_stop(b, m);
    lemma_release(b, m);
    if b.claimed(m) {
        lemma_start(b, m);
        lemma_unbind(b, m);
        let free = b.unbind(m);
        if b.machines[m].bound is Some {
            assert(free.machines == b.machines.update(
                m,
                Machine { bound: None, ..b.machines[m] },
            ));
        }
        assert(b.bind(m, p).machines == free.machines.update(
            m,
            Machine { bound: Some(p), pc: p.origin, ..free.machines[m] },
        ));
        lemma_start(b.stop(m), m);
    }
}

/// Release gives the state machine back as new: after a release, claiming
/// the same state machine succeeds, and the state machine is then in every
/// respect as a state machine claimed in a block just reset: halted, not
/// configured, bound to nothing.
pub proof fn lemma_release_then_claim(b: BlockView, m: int)
    requires
        b.wf(),
        0 <= m < MACHINES,
        b.claimed(m),
    ensures
        b.release(m).wf(),
        b.release(m).claim(m) is Ok,
        ({
            let again = b.release(m).claim(m).unwrap();
            let new = BlockView::empty(b.memory.block, b.memory.addressing).claim(m).unwrap();
            &&& again.wf()
            &&& again.machines[m] == new.machines[m]
            &&& again.running(m) == new.running(m)
            &&& forall|origin: int| !again.bound_to(m, origin)
        }),
{
    lemma_release(b, m);
    lemma_claim(b.release(m), m);
    let new = BlockView::empty(b.memory.block, b.memory.addressing);
    let i = m as u32;
    assert(0u32 & (1u32 << i) == 0) by (bit_vector);
}

} // verus!
