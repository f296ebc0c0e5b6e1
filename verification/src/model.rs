//! The block as a mathematical state machine: its state, the effect of each
//! operation on it, and the proof that every operation keeps the state well
//! formed.

use crate::error::Error;
use crate::instr::{spec_opcode_class, OpcodeClass};
use crate::machine::{Lifecycle, Machine, StateMachineConfig, MACHINES};
use crate::memory::{lemma_occupy, lemma_recount, lemma_vacate, MemoryView, Placement, Region};
use crate::program::ProgramView;
use crate::reg::{lemma_clear_bit, lemma_set_bit, spec_bit};
use crate::relocate::{Addressing, SLOTS};
use vstd::prelude::*;

verus! {

/// Which state machine a handle stands for.
pub struct MachineId {
    /// The block of the state machine.
    pub block: u8,
    /// The number of the state machine in its block.
    pub machine: u8,
}

/// Whether a state machine with this record is bound to the program loaded
/// at `origin`.
pub open spec fn bound_here(machine: Machine, origin: int) -> bool {
    machine.bound is Some && machine.bound.unwrap().origin == origin
}

/// One for true, zero for false.
pub open spec fn one_if(condition: bool) -> int {
    if condition {
        1
    } else {
        0
    }
}

/// Number of the four state machines that are bound to the program loaded
/// at `origin`.
pub open spec fn count_bound(machines: Seq<Machine>, origin: int) -> int {
    one_if(bound_here(machines[0], origin)) + one_if(bound_here(machines[1], origin)) + one_if(
        bound_here(machines[2], origin),
    ) + one_if(bound_here(machines[3], origin))
}

/// Replacing the record of one state machine changes the count by what that
/// state machine was and is bound to.
pub proof fn lemma_count_bound(machines: Seq<Machine>, m: int, machine: Machine, origin: int)
    requires
        machines.len() == MACHINES,
        0 <= m < MACHINES,
    ensures
        count_bound(machines.update(m, machine), origin) == count_bound(machines, origin) - one_if(
            bound_here(machines[m], origin),
        ) + one_if(bound_here(machine, origin)),
        0 <= count_bound(machines, origin) <= MACHINES,
{
    let new = machines.update(m, machine);
    assert(new[0] == if m == 0 {
        machine
    } else {
        machines[0]
    });
    assert(new[1] == if m == 1 {
        machine
    } else {
        machines[1]
    });
    assert(new[2] == if m == 2 {
        machine
    } else {
        machines[2]
    });
    assert(new[3] == if m == 3 {
        machine
    } else {
        machines[3]
    });
}

/// The mathematical value of a block.
pub struct BlockView {
    /// The control register: bit `m` is the run bit of state machine `m`.
    pub ctrl: u32,
    /// The record of each state machine.
    pub machines: Seq<Machine>,
    /// The instruction memory.
    pub memory: MemoryView,
}

impl BlockView {
    /// A block after reset: nothing runs, nothing is claimed, nothing is
    /// loaded.
    pub open spec fn empty(block: u8, addressing: Addressing) -> BlockView {
        BlockView {
            ctrl: 0,
            machines: Seq::new(MACHINES as nat, |m: int| Machine::spec_unclaimed()),
            memory: MemoryView::empty(block, addressing),
        }
    }

    /// Whether a handle to state machine `m` is out.
    pub open spec fn claimed(self, m: int) -> bool {
        self.machines[m].claimed
    }

    /// Whether `id` is the live handle of a state machine of this block.
    pub open spec fn owns(self, id: MachineId) -> bool {
        &&& id.block == self.memory.block
        &&& id.machine < MACHINES
        &&& self.claimed(id.machine as int)
    }

    /// Whether state machine `m` runs.
    pub open spec fn running(self, m: int) -> bool {
        spec_bit(self.ctrl, m as u32)
    }

    /// Where state machine `m` stands in its life cycle.
    pub open spec fn lifecycle(self, m: int) -> Lifecycle {
        if !self.claimed(m) {
            Lifecycle::Unclaimed
        } else if self.running(m) {
            Lifecycle::Running
        } else if self.machines[m].bound is Some {
            Lifecycle::Bound
        } else if self.machines[m].config is Some {
            Lifecycle::Configured
        } else {
            Lifecycle::Claimed
        }
    }

    /// Whether state machine `m` is bound to the program loaded at `origin`.
    pub open spec fn bound_to(self, m: int, origin: int) -> bool {
        bound_here(self.machines[m], origin)
    }

    /// Number of state machines bound to the program loaded at `origin`.
    pub open spec fn bound_count(self, origin: int) -> int {
        count_bound(self.machines, origin)
    }

    /// A state machine is bound only while it is claimed, and only to a
    /// program that is loaded.
    pub open spec fn bindings_ok(self) -> bool {
        forall|m: int|
            0 <= m < MACHINES && (#[trigger] self.machines[m]).bound is Some
                ==> self.machines[m].claimed && self.memory.holds(self.machines[m].bound.unwrap())
    }

    /// A state machine that nobody owns is halted and as it was after reset.
    pub open spec fn idle_ok(self) -> bool {
        forall|m: int|
            0 <= m < MACHINES && !(#[trigger] self.machines[m]).claimed ==> self.machines[m]
                == Machine::spec_unclaimed() && !self.running(m)
    }

    /// The reference count of every loaded program is the number of state
    /// machines bound to it.
    pub open spec fn refs_ok(self) -> bool {
        forall|o: int|
            0 <= o < SLOTS && (#[trigger] self.memory.regions[o]) is Some ==> self.memory.refs(o)
                == self.bound_count(o)
    }

    /// The state is well formed: the memory is; a state machine is bound
    /// only while it is claimed, and only to a program that is loaded; a
    /// state machine that nobody owns is halted and as it was after reset;
    /// and the reference count of every loaded program is the number of
    /// state machines bound to it.
    pub open spec fn wf(self) -> bool {
        &&& self.machines.len() == MACHINES
        &&& self.memory.wf()
        &&& self.bindings_ok()
        &&& self.idle_ok()
        &&& self.refs_ok()
    }

    /// The state with the record of state machine `m` replaced.
    pub open spec fn with_machine(self, m: int, machine: Machine) -> BlockView {
        BlockView { machines: self.machines.update(m, machine), ..self }
    }

    /// Claiming state machine `m`: `AlreadyClaimed` where a handle is out,
    /// else the state in which `m` is claimed, halted and fresh.
    pub open spec fn claim(self, m: int) -> Result<BlockView, Error> {
        if self.claimed(m) {
            Err(Error::AlreadyClaimed)
        } else {
            Ok(self.with_machine(m, Machine::spec_fresh()))
        }
    }

    /// Configuring state machine `m`: `NotHalted` while it runs,
    /// `ClockDividerTooSmall` where the divisor is below 1.0, else the state
    /// in which `m` has the new configuration.
    pub open spec fn configure(self, m: int, config: StateMachineConfig) -> Result<
        BlockView,
        Error,
    > {
        if self.running(m) {
            Err(Error::NotHalted)
        } else if !config.clock_divider.spec_at_least_one() {
            Err(Error::ClockDividerTooSmall)
        } else {
            Ok(self.with_machine(m, Machine { config: Some(config), ..self.machines[m] }))
        }
    }

    /// State machine `m` bound to nothing: the program it was bound to, if
    /// any, has one reference less.
    pub open spec fn unbind(self, m: int) -> BlockView {
        match self.machines[m].bound {
            Some(p) => BlockView {
                memory: self.memory.remove_reference(p.origin as int),
                ..self.with_machine(m, Machine { bound: None, ..self.machines[m] })
            },
            None => self,
        }
    }

    /// State machine `m` bound to the program at `p`: it leaves the program
    /// it was bound to, enters the new one at its origin, and the new one
    /// has one reference more.
    pub open spec fn bind(self, m: int, p: Placement) -> BlockView {
        let free = self.unbind(m);
        BlockView {
            memory: free.memory.add_reference(p.origin as int),
            ..free.with_machine(m, Machine { bound: Some(p), pc: p.origin, ..free.machines[m] })
        }
    }

    /// State machine `m` started: its run bit is set.
    pub open spec fn start(self, m: int) -> BlockView {
        BlockView { ctrl: self.ctrl | (1u32 << (m as u32)), ..self }
    }

    /// State machine `m` stopped: its run bit is cleared.
    pub open spec fn stop(self, m: int) -> BlockView {
        BlockView { ctrl: self.ctrl & !(1u32 << (m as u32)), ..self }
    }

    /// State machine `m` released: stopped, bound to nothing, owned by
    /// nobody and as it was after reset.
    pub open spec fn release(self, m: int) -> BlockView {
        self.stop(m).unbind(m).with_machine(m, Machine::spec_unclaimed())
    }

    /// Whether `instruction` may be injected into state machine `m`: always
    /// while it is halted; while it runs, only an instruction of the class
    /// that writes immediates to pins, which neither stalls nor branches.
    pub open spec fn may_exec(self, m: int, instruction: u16) -> bool {
        !self.running(m) || spec_opcode_class(instruction) == OpcodeClass::SetImm
    }

    /// Loading a program: the handle and the state afterwards, or the
    /// failure.
    pub open spec fn load(self, program: ProgramView, preferred: Option<u8>) -> Result<
        (Placement, BlockView),
        Error,
    > {
        match self.memory.load(program, preferred) {
            Ok((p, memory)) => Ok((p, BlockView { memory, ..self })),
            Err(e) => Err(e),
        }
    }

    /// Unloading the program at `origin`: the state afterwards, or `Busy`
    /// while a state machine is bound to the program.
    pub open spec fn unload(self, origin: int) -> Result<BlockView, Error> {
        match self.memory.unload(origin) {
            Ok(memory) => Ok(BlockView { memory, ..self }),
            Err(e) => Err(e),
        }
    }
}

/// Claiming keeps the state well formed.
pub proof fn lemma_claim(b: BlockView, m: int)
    requires
        b.wf(),
        0 <= m < MACHINES,
        !b.claimed(m),
    ensures
        b.claim(m) is Ok,
        b.claim(m).unwrap().wf(),
{
    let n = b.claim(m).unwrap();
    assert(b.machines[m] == Machine::spec_unclaimed());
    assert forall|o: int| b.bound_count(o) == n.bound_count(o) by {
        lemma_count_bound(b.machines, m, Machine::spec_fresh(), o);
    }
    assert(n.bindings_ok()) by {
        assert forall|k: int| 0 <= k < MACHINES && (#[trigger] n.machines[k]).bound is Some
            implies n.machines[k].claimed && n.memory.holds(n.machines[k].bound.unwrap()) by {
            assert(k != m);
            assert(b.machines[k].bound is Some);
        }
    }
    assert(n.idle_ok()) by {
        assert forall|k: int| 0 <= k < MACHINES && !(#[trigger] n.machines[k]).claimed
            implies n.machines[k] == Machine::spec_unclaimed() && !n.running(k) by {
            assert(k != m);
            assert(!b.machines[k].claimed);
        }
    }
    assert(n.refs_ok()) by {
        assert forall|o: int| 0 <= o < SLOTS && (#[trigger] n.memory.regions[o]) is Some
            implies n.memory.refs(o) == n.bound_count(o) by {
            assert(b.memory.regions[o] is Some);
        }
    }
}

/// Configuring keeps the state well formed.
pub proof fn lemma_configure(b: BlockView, m: int, config: StateMachineConfig)
    requires
        b.wf(),
        0 <= m < MACHINES,
        b.claimed(m),
        b.configure(m, config) is Ok,
    ensures
        b.configure(m, config).unwrap().wf(),
{
    let n = b.configure(m, config).unwrap();
    let machine = Machine { config: Some(config), ..b.machines[m] };
    assert forall|o: int| b.bound_count(o) == n.bound_count(o) by {
        lemma_count_bound(b.machines, m, machine, o);
    }
    assert(n.bindings_ok()) by {
        assert forall|k: int| 0 <= k < MACHINES && (#[trigger] n.machines[k]).bound is Some
            implies n.machines[k].claimed && n.memory.holds(n.machines[k].bound.unwrap()) by {
            assert(b.machines[k].bound is Some);
        }
    }
    assert(n.idle_ok()) by {
        assert forall|k: int| 0 <= k < MACHINES && !(#[trigger] n.machines[k]).claimed
            implies n.machines[k] == Machine::spec_unclaimed() && !n.running(k) by {
            assert(k != m);
            assert(!b.machines[k].claimed);
        }
    }
    assert(n.refs_ok()) by {
        assert forall|o: int| 0 <= o < SLOTS && (#[trigger] n.memory.regions[o]) is Some
            implies n.memory.refs(o) == n.bound_count(o) by {
            assert(b.memory.regions[o] is Some);
        }
    }
}

/// Changing a reference count keeps every handle valid.
pub proof fn lemma_recount_holds(memory: MemoryView, origin: int, region: Region)
    requires
        memory.wf(),
        0 <= origin < SLOTS,
        memory.regions[origin] is Some,
        memory.regions[origin].unwrap().len == region.len,
    ensures
        memory.with_region(origin, Some(region)).wf(),
        forall|p: Placement|
            memory.holds(p) <==> #[trigger] memory.with_region(origin, Some(region)).holds(p),
        forall|x: int|
            0 <= x < SLOTS ==> (#[trigger] memory.with_region(origin, Some(region)).regions[x])
                is Some == memory.regions[x] is Some,
        forall|x: int|
            0 <= x < SLOTS && x != origin ==> #[trigger] memory.with_region(
                origin,
                Some(region),
            ).regions[x] == memory.regions[x],
        memory.with_region(origin, Some(region)).regions[origin] == Some(region),
{
    lemma_recount(memory, origin, region);
}

/// Unbinding keeps the state well formed.
pub proof fn lemma_unbind(b: BlockView, m: int)
    requires
        b.wf(),
        0 <= m < MACHINES,
    ensures
        b.unbind(m).wf(),
        b.unbind(m).machines[m].bound is None,
        b.unbind(m).ctrl == b.ctrl,
        b.unbind(m).memory.block == b.memory.block,
        b.unbind(m).claimed(m) == b.claimed(m),
        forall|p: Placement| b.memory.holds(p) ==> #[trigger] b.unbind(m).memory.holds(p),
        b.machines[m].bound is Some ==> b.memory.refs(b.machines[m].bound.unwrap().origin as int)
            >= 1,
{
    let n = b.unbind(m);
    if b.machines[m].bound is Some {
        let p = b.machines[m].bound.unwrap();
        let o = p.origin as int;
        let machine = Machine { bound: None, ..b.machines[m] };
        assert(b.memory.holds(p));
        assert(b.bound_to(m, o));
        lemma_count_bound(b.machines, m, machine, o);
        assert(b.memory.refs(o) == b.bound_count(o));
        let region = b.memory.regions[o].unwrap();
        let fewer = Region { refs: (region.refs - 1) as u32, ..region };
        lemma_recount_holds(b.memory, o, fewer);
        assert(n.memory == b.memory.with_region(o, Some(fewer)));
        assert(n.machines == b.machines.update(m, machine));
        assert(n.bindings_ok()) by {
            assert forall|k: int| 0 <= k < MACHINES && (#[trigger] n.machines[k]).bound is Some
                implies n.machines[k].claimed && n.memory.holds(n.machines[k].bound.unwrap()) by {
                assert(k != m);
                assert(b.machines[k].bound is Some);
                assert(b.memory.holds(b.machines[k].bound.unwrap()));
            }
        }
        assert(n.idle_ok()) by {
            assert forall|k: int| 0 <= k < MACHINES && !(#[trigger] n.machines[k]).claimed
                implies n.machines[k] == Machine::spec_unclaimed() && !n.running(k) by {
                assert(!b.machines[k].claimed);
            }
        }
        assert(n.refs_ok()) by {
            assert forall|x: int| 0 <= x < SLOTS && (#[trigger] n.memory.regions[x]) is Some
                implies n.memory.refs(x) == n.bound_count(x) by {
                assert(b.memory.regions[x] is Some);
                assert(b.memory.refs(x) == b.bound_count(x));
                lemma_count_bound(b.machines, m, machine, x);
            }
        }
    }
}

/// Binding keeps the state well formed.
pub proof fn lemma_bind(b: BlockView, m: int, p: Placement)
    requires
        b.wf(),
        0 <= m < MACHINES,
        b.claimed(m),
        b.memory.holds(p),
    ensures
        b.bind(m, p).wf(),
        b.bind(m, p).memory.holds(p),
        b.unbind(m).memory.refs(p.origin as int) < MACHINES,
{
    lemma_unbind(b, m);
    let f = b.unbind(m);
    let n = b.bind(m, p);
    let o = p.origin as int;
    let machine = Machine { bound: Some(p), pc: p.origin, ..f.machines[m] };
    assert(f.memory.holds(p));
    assert(f.memory.regions[o] is Some);
    assert(f.memory.refs(o) == f.bound_count(o));
    lemma_count_bound(f.machines, m, machine, o);
    let region = f.memory.regions[o].unwrap();
    let more = Region { refs: (region.refs + 1) as u32, ..region };
    lemma_recount_holds(f.memory, o, more);
    assert(n.memory == f.memory.with_region(o, Some(more)));
    assert(n.machines == f.machines.update(m, machine));
    assert(n.bindings_ok()) by {
        assert forall|k: int| 0 <= k < MACHINES && (#[trigger] n.machines[k]).bound is Some
            implies n.machines[k].claimed && n.memory.holds(n.machines[k].bound.unwrap()) by {
            if k != m {
                assert(f.machines[k].bound is Some);
                assert(f.memory.holds(f.machines[k].bound.unwrap()));
            }
        }
    }
    assert(n.idle_ok()) by {
        assert forall|k: int| 0 <= k < MACHINES && !(#[trigger] n.machines[k]).claimed
            implies n.machines[k] == Machine::spec_unclaimed() && !n.running(k) by {
            assert(k != m);
            assert(!f.machines[k].claimed);
        }
    }
    assert(n.refs_ok()) by {
        assert forall|x: int| 0 <= x < SLOTS && (#[trigger] n.memory.regions[x]) is Some
            implies n.memory.refs(x) == n.bound_count(x) by {
            assert(f.memory.regions[x] is Some);
            assert(f.memory.refs(x) == f.bound_count(x));
            lemma_count_bound(f.machines, m, machine, x);
        }
    }
}

/// Starting a claimed state machine keeps the state well formed and changes
/// the run bit of no other.
pub proof fn lemma_start(b: BlockView, m: int)
    requires
        b.wf(),
        0 <= m < MACHINES,
        b.claimed(m),
    ensures
        b.start(m).wf(),
        b.start(m).running(m),
        forall|k: int| 0 <= k < MACHINES && k != m ==> b.start(m).running(k) == b.running(k),
{
    let n = b.start(m);
    assert forall|k: int| 0 <= k < MACHINES implies n.running(k) == (k == m || b.running(k)) by {
        lemma_set_bit(b.ctrl, m as u32, k as u32);
    }
    assert(n.idle_ok()) by {
        assert forall|k: int| 0 <= k < MACHINES && !(#[trigger] n.machines[k]).claimed
            implies n.machines[k] == Machine::spec_unclaimed() && !n.running(k) by {
            assert(k != m);
            assert(!b.machines[k].claimed);
        }
    }
}

/// Stopping a state machine keeps the state well formed and changes the run
/// bit of no other.
pub proof fn lemma_stop(b: BlockView, m: int)
    requires
        b.wf(),
        0 <= m < MACHINES,
    ensures
        b.stop(m).wf(),
        !b.stop(m).running(m),
        forall|k: int| 0 <= k < MACHINES && k != m ==> b.stop(m).running(k) == b.running(k),
{
    let n = b.stop(m);
    assert forall|k: int| 0 <= k < MACHINES implies n.running(k) == (k != m && b.running(k)) by {
        lemma_clear_bit(b.ctrl, m as u32, k as u32);
    }
    assert(n.idle_ok()) by {
        assert forall|k: int| 0 <= k < MACHINES && !(#[trigger] n.machines[k]).claimed
            implies n.machines[k] == Machine::spec_unclaimed() && !n.running(k) by {
            assert(!b.machines[k].claimed);
        }
    }
}

/// Releasing keeps the state well formed and leaves the state machine
/// halted and as it was after reset.
pub proof fn lemma_release(b: BlockView, m: int)
    requires
        b.wf(),
        0 <= m < MACHINES,
    ensures
        b.release(m).wf(),
        !b.release(m).running(m),
        b.release(m).machines[m] == Machine::spec_unclaimed(),
        forall|k: int|
            0 <= k < MACHINES && k != m ==> b.release(m).running(k) == b.running(k)
                && b.release(m).machines[k] == b.machines[k],
{
    lemma_stop(b, m);
    let s = b.stop(m);
    lemma_unbind(s, m);
    let u = s.unbind(m);
    let n = b.release(m);
    assert(n.ctrl == u.ctrl);
    assert(n.memory == u.memory);
    assert(n.machines == u.machines.update(m, Machine::spec_unclaimed()));
    assert forall|o: int| u.bound_count(o) == n.bound_count(o) by {
        lemma_count_bound(u.machines, m, Machine::spec_unclaimed(), o);
    }
    assert(n.bindings_ok()) by {
        assert forall|k: int| 0 <= k < MACHINES && (#[trigger] n.machines[k]).bound is Some
            implies n.machines[k].claimed && n.memory.holds(n.machines[k].bound.unwrap()) by {
            assert(k != m);
            assert(u.machines[k].bound is Some);
        }
    }
    assert(n.idle_ok()) by {
        assert forall|k: int| 0 <= k < MACHINES && !(#[trigger] n.machines[k]).claimed
            implies n.machines[k] == Machine::spec_unclaimed() && !n.running(k) by {
            if k != m {
                assert(!u.machines[k].claimed);
            }
        }
    }
    assert(n.refs_ok()) by {
        assert forall|o: int| 0 <= o < SLOTS && (#[trigger] n.memory.regions[o]) is Some
            implies n.memory.refs(o) == n.bound_count(o) by {
            assert(u.memory.regions[o] is Some);
        }
    }
    assert forall|k: int| 0 <= k < MACHINES && k != m implies n.running(k) == b.running(k)
        && n.machines[k] == b.machines[k] by {
        assert(s.machines[k] == b.machines[k]);
        if s.machines[m].bound is Some {
            assert(u.machines[k] == s.machines[k]);
        }
    }
}

/// Loading leaves the table well formed and enters the program where no
/// program was.
pub proof fn lemma_memory_load(memory: MemoryView, program: ProgramView, preferred: Option<u8>)
    requires
        memory.wf(),
        program.wf(),
        memory.load(program, preferred) is Ok,
    ensures
        ({
            let (h, n) = memory.load(program, preferred).unwrap();
            &&& n.wf()
            &&& n.block == memory.block
            &&& h.origin < SLOTS
            &&& h.len == program.code.len()
            &&& memory.regions[h.origin as int] is None
            &&& memory.range_free(h.origin as int, h.len as int)
            &&& n.regions == memory.regions.update(
                h.origin as int,
                Some(Region { len: h.len, refs: 0 }),
            )
            &&& n.holds(h)
        }),
{
    let (h, n) = memory.load(program, preferred).unwrap();
    let origin = if preferred is Some {
        preferred
    } else {
        program.origin
    };
    let len = program.code.len() as int;
    let base = memory.placement(len, origin).unwrap();
    let region = Region { len: len as u8, refs: 0 };
    crate::memory::lemma_placement(memory, len, origin);
    assert(memory.range_free(base as int, len));
    let relocated = crate::relocate::relocate_spec(program, base, memory.addressing).unwrap();
    let coded = memory.with_code(base as int, relocated.code);
    assert(coded.regions == memory.regions);
    assert forall|slot: int| coded.occupied(slot) <==> memory.occupied(slot) by {
        if coded.occupied(slot) {
            let o = choose|o: int| coded.covers(o, slot);
            assert(memory.covers(o, slot));
        }
        if memory.occupied(slot) {
            let o = choose|o: int| memory.covers(o, slot);
            assert(coded.covers(o, slot));
        }
    }
    assert(coded.range_free(base as int, len));
    lemma_occupy(coded, base as int, region);
    assert(n == coded.with_region(base as int, Some(region)));
}

/// Loading keeps the state well formed, and what was loaded stays loaded
/// with its reference count.
pub proof fn lemma_load(b: BlockView, program: ProgramView, preferred: Option<u8>)
    requires
        b.wf(),
        program.wf(),
        b.load(program, preferred) is Ok,
    ensures
        b.load(program, preferred).unwrap().1.wf(),
        b.load(program, preferred).unwrap().1.memory.holds(b.load(program, preferred).unwrap().0),
        b.memory.regions[b.load(program, preferred).unwrap().0.origin as int] is None,
        forall|p: Placement|
            b.memory.holds(p) ==> #[trigger] b.load(program, preferred).unwrap().1.memory.holds(p)
                && b.load(program, preferred).unwrap().1.memory.refs(p.origin as int)
                == b.memory.refs(p.origin as int),
{
    let (h, n) = b.load(program, preferred).unwrap();
    lemma_memory_load(b.memory, program, preferred);
    let base = h.origin as int;
    assert(n.machines == b.machines);
    assert(n.ctrl == b.ctrl);
    assert forall|k: int| 0 <= k < MACHINES implies !b.bound_to(k, base) by {
        if b.machines[k].bound is Some {
            assert(b.memory.holds(b.machines[k].bound.unwrap()));
        }
    }
    assert(n.bindings_ok()) by {
        assert forall|k: int| 0 <= k < MACHINES && (#[trigger] n.machines[k]).bound is Some
            implies n.machines[k].claimed && n.memory.holds(n.machines[k].bound.unwrap()) by {
            assert(b.memory.holds(b.machines[k].bound.unwrap()));
        }
    }
    assert(n.refs_ok()) by {
        assert forall|x: int| 0 <= x < SLOTS && (#[trigger] n.memory.regions[x]) is Some
            implies n.memory.refs(x) == n.bound_count(x) by {
            if x != base {
                assert(b.memory.regions[x] is Some);
            } else {
                assert(!b.bound_to(0, base));
                assert(!b.bound_to(1, base));
                assert(!b.bound_to(2, base));
                assert(!b.bound_to(3, base));
            }
        }
    }
}

/// Unloading keeps the state well formed, and what else was loaded stays
/// loaded with its reference count.
pub proof fn lemma_unload(b: BlockView, p: Placement)
    requires
        b.wf(),
        b.memory.holds(p),
        b.unload(p.origin as int) is Ok,
    ensures
        b.unload(p.origin as int).unwrap().wf(),
        b.bound_count(p.origin as int) == 0,
        forall|q: Placement|
            b.memory.holds(q) && q.origin != p.origin ==> #[trigger] b.unload(
                p.origin as int,
            ).unwrap().memory.holds(q) && b.unload(p.origin as int).unwrap().memory.refs(
                q.origin as int,
            ) == b.memory.refs(q.origin as int),
{
    let o = p.origin as int;
    let n = b.unload(o).unwrap();
    lemma_vacate(b.memory, o);
    assert(n.memory == b.memory.with_region(o, None));
    assert(n.machines == b.machines);
    assert(b.memory.refs(o) == b.bound_count(o));
    assert(n.bindings_ok()) by {
        assert forall|k: int| 0 <= k < MACHINES && (#[trigger] n.machines[k]).bound is Some
            implies n.machines[k].claimed && n.memory.holds(n.machines[k].bound.unwrap()) by {
            assert(b.memory.holds(b.machines[k].bound.unwrap()));
            assert(!b.bound_to(k, o));
        }
    }
    assert(n.refs_ok()) by {
        assert forall|x: int| 0 <= x < SLOTS && (#[trigger] n.memory.regions[x]) is Some
            implies n.memory.refs(x) == n.bound_count(x) by {
            assert(b.memory.regions[x] is Some);
        }
    }
}

} // verus!
