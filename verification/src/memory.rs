//! The allocator of a block's instruction memory.
//!
//! A PIO block has 32 instruction slots that its four state machines share.
//! The allocator hands out contiguous ranges of them to programs, keeps the
//! ranges of different programs apart, counts for each loaded program the
//! state machines bound to it, and takes a range back only when nothing is
//! bound. It keeps two records that always agree: a table of the loaded
//! programs by origin, and a list of the free ranges in ascending order, in
//! which no two ranges touch.

use crate::error::Error;
use crate::program::ProgramView;
use crate::relocate::{relocate_spec, Addressing, SLOTS};
use vstd::prelude::*;

verus! {

/// A range of slots: `len` slots from `start` on.
#[derive(Clone, Copy, Debug, PartialEq, Eq, Structural)]
pub struct Span {
    /// The first slot.
    pub start: u8,
    /// Number of slots.
    pub len: u8,
}

impl Span {
    /// The slot after the last one.
    pub open spec fn end(self) -> int {
        self.start + self.len
    }

    /// Whether `slot` lies in the range.
    pub open spec fn has(self, slot: int) -> bool {
        self.start <= slot < self.start + self.len
    }
}

/// What the table records for a loaded program.
#[derive(Clone, Copy, Debug, PartialEq, Eq, Structural)]
pub struct Region {
    /// Number of slots the program occupies.
    pub len: u8,
    /// Number of state machines bound to the program.
    pub refs: u32,
}

/// Where a loaded program stands, with its addresses as the hardware needs
/// them.
#[derive(Clone, Copy, Debug, PartialEq, Eq)]
pub struct Placement {
    /// The block whose memory holds the program.
    pub block: u8,
    /// The slot of the first instruction.
    pub origin: u8,
    /// Number of slots the program occupies.
    pub len: u8,
    /// Slot of the last instruction of the wrapped loop.
    pub wrap_source: u8,
    /// Slot of the instruction that follows the wrap source.
    pub wrap_target: u8,
    /// Number of the five delay / side-set bits that hold the side-set.
    pub side_set_width: u8,
    /// First pin that the side-set drives, where the program fixes it.
    pub side_set_pin_base: Option<u8>,
}

/// The mathematical value of an [`InstructionMemory`].
pub struct MemoryView {
    /// The block that the memory belongs to.
    pub block: u8,
    /// How addresses past the last slot are treated.
    pub addressing: Addressing,
    /// The instruction word in each slot.
    pub words: Seq<u16>,
    /// The loaded programs, each at the index of its first slot.
    pub regions: Seq<Option<Region>>,
}

impl MemoryView {
    /// The memory of block `block` with nothing loaded and every word zero.
    pub open spec fn empty(block: u8, addressing: Addressing) -> MemoryView {
        MemoryView {
            block,
            addressing,
            words: Seq::new(SLOTS as nat, |slot: int| 0u16),
            regions: Seq::new(SLOTS as nat, |origin: int| None::<Region>),
        }
    }

    /// Whether the program loaded at `origin` occupies `slot`.
    pub open spec fn covers(self, origin: int, slot: int) -> bool {
        &&& 0 <= origin < self.regions.len()
        &&& self.regions[origin] is Some
        &&& origin <= slot < origin + self.regions[origin].unwrap().len
    }

    /// Whether some loaded program occupies `slot`.
    pub open spec fn occupied(self, slot: int) -> bool {
        exists|origin: int| #[trigger] self.covers(origin, slot)
    }

    /// Whether the `len` slots from `base` on are slots of the memory and
    /// free.
    pub open spec fn range_free(self, base: int, len: int) -> bool {
        &&& 0 <= base
        &&& base + len <= SLOTS
        &&& forall|slot: int| base <= slot < base + len ==> !#[trigger] self.occupied(slot)
    }

    /// The table is as long as the memory; every loaded program has at least
    /// one slot and ends within the memory; no two loaded programs share a
    /// slot.
    pub open spec fn wf(self) -> bool {
        &&& self.words.len() == SLOTS
        &&& self.regions.len() == SLOTS
        &&& forall|o: int|
            0 <= o < SLOTS && (#[trigger] self.regions[o]) is Some ==> 1
                <= self.regions[o].unwrap().len && o + self.regions[o].unwrap().len <= SLOTS
        &&& forall|a: int, b: int|
            0 <= a < b < SLOTS && (#[trigger] self.regions[a]) is Some && (
            #[trigger] self.regions[b]) is Some ==> a + self.regions[a].unwrap().len <= b
    }

    /// Whether `handle` names a program that is loaded in this memory.
    pub open spec fn holds(self, handle: Placement) -> bool {
        &&& handle.block == self.block
        &&& handle.origin < SLOTS
        &&& self.regions[handle.origin as int] is Some
        &&& self.regions[handle.origin as int].unwrap().len == handle.len
    }

    /// Number of state machines bound to the program loaded at `origin`.
    pub open spec fn refs(self, origin: int) -> int {
        self.regions[origin].unwrap().refs as int
    }

    /// The lowest base at or above `start` at which `len` slots are free.
    pub open spec fn fit_from(self, start: int, len: int) -> Option<int>
        decreases SLOTS - start,
    {
        if start < 0 || len < 0 || start + len > SLOTS {
            None
        } else if self.range_free(start, len) {
            Some(start)
        } else {
            self.fit_from(start + 1, len)
        }
    }

    /// First fit: the lowest base at which `len` slots are free.
    pub open spec fn first_fit(self, len: int) -> Option<int> {
        self.fit_from(0, len)
    }

    /// The base a program of `len` slots is loaded at.
    ///
    /// With an origin asked for, it is that origin: `CapacityExceeded` where
    /// the program would run past the last slot, `AddressInUse` where a slot
    /// of the range is occupied. With none, it is the first fit, and
    /// `CapacityExceeded` where nothing fits.
    pub open spec fn placement(self, len: int, origin: Option<u8>) -> Result<u8, Error> {
        match origin {
            Some(o) => if o + len > SLOTS {
                Err(Error::CapacityExceeded)
            } else if !self.range_free(o as int, len) {
                Err(Error::AddressInUse)
            } else {
                Ok(o)
            },
            None => match self.first_fit(len) {
                Some(base) => Ok(base as u8),
                None => Err(Error::CapacityExceeded),
            },
        }
    }

    /// The memory with the table entry at `origin` replaced.
    pub open spec fn with_region(self, origin: int, region: Option<Region>) -> MemoryView {
        MemoryView { regions: self.regions.update(origin, region), ..self }
    }

    /// The memory with `code` written to the slots from `base` on.
    pub open spec fn with_code(self, base: int, code: Seq<u16>) -> MemoryView {
        MemoryView {
            words: Seq::new(
                self.words.len(),
                |slot: int|
                    if base <= slot < base + code.len() {
                        code[slot - base]
                    } else {
                        self.words[slot]
                    },
            ),
            ..self
        }
    }

    /// Loading `program`: the handle and the memory afterwards, or the
    /// failure. The origin is the one passed with the call or else the one
    /// the program asks for; the words written are the program relocated to
    /// the chosen base; the new entry has no reference.
    pub open spec fn load(self, program: ProgramView, preferred: Option<u8>) -> Result<
        (Placement, MemoryView),
        Error,
    > {
        let origin = if preferred is Some {
            preferred
        } else {
            program.origin
        };
        match self.placement(program.code.len() as int, origin) {
            Err(e) => Err(e),
            Ok(base) => match relocate_spec(program, base, self.addressing) {
                Err(e) => Err(e),
                Ok(relocated) => Ok(
                    (
                        Placement {
                            block: self.block,
                            origin: base,
                            len: program.code.len() as u8,
                            wrap_source: relocated.wrap_source,
                            wrap_target: relocated.wrap_target,
                            side_set_width: program.side_set_width,
                            side_set_pin_base: program.side_set_pin_base,
                        },
                        self.with_code(base as int, relocated.code).with_region(
                            base as int,
                            Some(Region { len: program.code.len() as u8, refs: 0 }),
                        ),
                    ),
                ),
            },
        }
    }

    /// Unloading the program at `origin`: the memory afterwards, or `Busy`
    /// where a state machine is still bound to the program.
    pub open spec fn unload(self, origin: int) -> Result<MemoryView, Error> {
        if self.refs(origin) > 0 {
            Err(Error::Busy)
        } else {
            Ok(self.with_region(origin, None))
        }
    }

    /// The memory with one reference more to the program at `origin`.
    pub open spec fn add_reference(self, origin: int) -> MemoryView {
        let region = self.regions[origin].unwrap();
        self.with_region(origin, Some(Region { refs: (region.refs + 1) as u32, ..region }))
    }

    /// The memory with one reference less to the program at `origin`.
    pub open spec fn remove_reference(self, origin: int) -> MemoryView {
        let region = self.regions[origin].unwrap();
        self.with_region(origin, Some(Region { refs: (region.refs - 1) as u32, ..region }))
    }
}

/// No two loaded programs overlap: of two table entries, the one that starts
/// lower ends at or before the start of the other.
pub proof fn lemma_regions_disjoint(view: MemoryView, a: int, b: int)
    requires
        view.wf(),
        0 <= a < SLOTS,
        0 <= b < SLOTS,
        a != b,
        view.regions[a] is Some,
        view.regions[b] is Some,
    ensures
        a + view.regions[a].unwrap().len <= b || b + view.regions[b].unwrap().len <= a,
        forall|slot: int| !(view.covers(a, slot) && view.covers(b, slot)),
{
}

/// Entering a program in a free range adds its slots to the occupied ones
/// and changes nothing else.
pub proof fn lemma_occupy(view: MemoryView, origin: int, region: Region)
    requires
        view.wf(),
        region.len >= 1,
        view.range_free(origin, region.len as int),
    ensures
        view.regions[origin] is None,
        view.with_region(origin, Some(region)).wf(),
        forall|slot: int|
            #![trigger view.with_region(origin, Some(region)).occupied(slot)]
            #![trigger view.occupied(slot)]
            view.with_region(origin, Some(region)).occupied(slot) <==> view.occupied(slot)
                || origin <= slot < origin + region.len,
{
    let new = view.with_region(origin, Some(region));
    let n = region.len as int;
    if view.regions[origin] is Some {
        assert(view.covers(origin, origin));
        assert(view.occupied(origin));
        assert(false);
    }
    assert forall|slot: int|
        #![trigger new.occupied(slot)]
        #![trigger view.occupied(slot)]
        new.occupied(slot) <==> view.occupied(slot) || origin <= slot < origin + n by {
        if new.occupied(slot) {
            let o = choose|o: int| new.covers(o, slot);
            if o != origin {
                assert(view.covers(o, slot));
            }
        }
        if view.occupied(slot) {
            let o = choose|o: int| view.covers(o, slot);
            assert(new.covers(o, slot));
        }
        if origin <= slot < origin + n {
            assert(new.covers(origin, slot));
        }
    }
    assert forall|a: int, b: int|
        0 <= a < b < SLOTS && (#[trigger] new.regions[a]) is Some && (
        #[trigger] new.regions[b]) is Some implies a + new.regions[a].unwrap().len <= b by {
        if a == origin {
            if b < origin + n {
                assert(view.covers(b, b));
                assert(view.occupied(b));
            }
        } else if b == origin {
            if a + view.regions[a].unwrap().len > origin {
                assert(view.covers(a, origin));
                assert(view.occupied(origin));
            }
        }
    }
}

/// Taking a program out of the table frees its slots and changes nothing
/// else.
pub proof fn lemma_vacate(view: MemoryView, origin: int)
    requires
        view.wf(),
        0 <= origin < SLOTS,
        view.regions[origin] is Some,
    ensures
        view.with_region(origin, None).wf(),
        forall|slot: int|
            origin <= slot < origin + view.regions[origin].unwrap().len ==> #[trigger] view.occupied(
                slot,
            ),
        forall|slot: int|
            #![trigger view.with_region(origin, None).occupied(slot)]
            #![trigger view.occupied(slot)]
            view.with_region(origin, None).occupied(slot) <==> view.occupied(slot) && !(origin
                <= slot < origin + view.regions[origin].unwrap().len),
{
    let new = view.with_region(origin, None);
    let n = view.regions[origin].unwrap().len as int;
    assert forall|slot: int| origin <= slot < origin + n implies #[trigger] view.occupied(slot) by {
        assert(view.covers(origin, slot));
    }
    assert forall|slot: int|
        #![trigger new.occupied(slot)]
        #![trigger view.occupied(slot)]
        new.occupied(slot) <==> view.occupied(slot) && !(origin <= slot < origin + n) by {
        if new.occupied(slot) {
            let o = choose|o: int| new.covers(o, slot);
            assert(view.covers(o, slot));
            lemma_regions_disjoint(view, o, origin);
        }
        if view.occupied(slot) && !(origin <= slot < origin + n) {
            let o = choose|o: int| view.covers(o, slot);
            assert(new.covers(o, slot));
        }
    }
}

/// The reference count of a program has no part in which slots are occupied.
pub proof fn lemma_recount(view: MemoryView, origin: int, region: Region)
    requires
        view.wf(),
        0 <= origin < SLOTS,
        view.regions[origin] is Some,
        view.regions[origin].unwrap().len == region.len,
    ensures
        view.with_region(origin, Some(region)).wf(),
        forall|slot: int|
            #![trigger view.with_region(origin, Some(region)).occupied(slot)]
            #![trigger view.occupied(slot)]
            view.with_region(origin, Some(region)).occupied(slot) <==> view.occupied(slot),
{
    let new = view.with_region(origin, Some(region));
    assert forall|slot: int|
        #![trigger new.occupied(slot)]
        #![trigger view.occupied(slot)]
        new.occupied(slot) <==> view.occupied(slot) by {
        if new.occupied(slot) {
            let o = choose|o: int| new.covers(o, slot);
            assert(view.covers(o, slot));
        }
        if view.occupied(slot) {
            let o = choose|o: int| view.covers(o, slot);
            assert(new.covers(o, slot));
        }
    }
}

/// What a successful placement is: a base at which the program fits and
/// finds every slot free.
pub proof fn lemma_placement(view: MemoryView, len: int, origin: Option<u8>)
    requires
        0 <= len,
        view.placement(len, origin) is Ok,
    ensures
        view.range_free(view.placement(len, origin).unwrap() as int, len),
        origin is Some ==> view.placement(len, origin).unwrap() == origin.unwrap(),
        origin is None ==> view.first_fit(len) == Some(
            view.placement(len, origin).unwrap() as int,
        ),
{
    if origin is None {
        lemma_first_fit(view, 0, len);
    }
}

/// The first fit is the lowest free base.
pub proof fn lemma_fit_found(view: MemoryView, start: int, base: int, len: int)
    requires
        0 <= start <= base,
        len >= 0,
        view.range_free(base, len),
        forall|b: int| start <= b < base ==> !view.range_free(b, len),
    ensures
        view.fit_from(start, len) == Some(base),
    decreases base - start,
{
    if start < base {
        lemma_fit_found(view, start + 1, base, len);
    }
}

/// Where no base is free, nothing fits.
pub proof fn lemma_fit_none(view: MemoryView, start: int, len: int)
    requires
        forall|b: int| start <= b ==> !view.range_free(b, len),
    ensures
        view.fit_from(start, len) is None,
    decreases SLOTS - start,
{
    if !(start < 0 || len < 0 || start + len > SLOTS) {
        lemma_fit_none(view, start + 1, len);
    }
}

/// What the first fit is, where there is one: a free base below which no
/// base is free.
pub proof fn lemma_first_fit(view: MemoryView, start: int, len: int)
    requires
        0 <= start,
        0 <= len,
    ensures
        view.fit_from(start, len) matches Some(base) ==> start <= base && view.range_free(base, len)
            && forall|b: int| start <= b < base ==> !view.range_free(b, len),
        view.fit_from(start, len) is None ==> forall|b: int|
            start <= b ==> !view.range_free(b, len),
    decreases SLOTS - start,
{
    if start + len <= SLOTS && !view.range_free(start, len) {
        lemma_first_fit(view, start + 1, len);
    }
}

} // verus!
