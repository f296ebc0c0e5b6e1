//! The instruction memory of one block with its allocator.

use crate::error::Error;
use crate::free_list::{
    carve, free_list_of, in_free, is_free_list, lemma_carve, lemma_free_list_of,
    lemma_free_range_in_span, lemma_merge, lemma_span_free, merge,
};
use crate::memory::{
    lemma_fit_found, lemma_fit_none, lemma_occupy, lemma_recount, lemma_vacate, MemoryView,
    Placement, Region, Span,
};
use crate::program::Program;
use crate::relocate::{relocate, Addressing, SLOTS};
use vstd::prelude::*;

verus! {

/// The handle of a loaded program. It is made by loading and given up by
/// unloading; state machines are bound to the program through it.
#[derive(Debug)]
pub struct LoadedProgram {
    placement: Placement,
}

impl View for LoadedProgram {
    type V = Placement;

    closed spec fn view(&self) -> Placement {
        self.placement
    }
}

/// The instruction memory of one block: the words in its 32 slots, the
/// table of the programs loaded in it, and the list of its free ranges.
pub struct InstructionMemory {
    block: u8,
    addressing: Addressing,
    words: Vec<u16>,
    regions: Vec<Option<Region>>,
    free: Vec<Span>,
}

impl View for InstructionMemory {
    type V = MemoryView;

    closed spec fn view(&self) -> MemoryView {
        MemoryView {
            block: self.block,
            addressing: self.addressing,
            words: self.words@,
            regions: self.regions@,
        }
    }
}

impl InstructionMemory {
    /// The table is well formed and the free list is in step with it.
    pub closed spec fn wf(&self) -> bool {
        &&& self@.wf()
        &&& is_free_list(self.free@, self@)
    }

    /// What well-formedness means to a caller: no two loaded programs
    /// overlap, and the free list holds exactly the slots that no program
    /// occupies, in ascending ranges of which no two touch.
    pub proof fn lemma_wf(&self)
        requires
            self.wf(),
        ensures
            self@.wf(),
            is_free_list(free_list_of(self@), self@),
    {
        lemma_free_list_of(self.free@, self@);
    }

    /// The block that the memory belongs to.
    pub fn block(&self) -> (block: u8)
        ensures
            block == self@.block,
    {
        self.block
    }

    /// How addresses past the last slot are treated.
    pub fn addressing(&self) -> (addressing: Addressing)
        ensures
            addressing == self@.addressing,
    {
        self.addressing
    }

    /// The memory of block `block` with nothing loaded: every word is zero
    /// and the free list is the one range of all slots.
    pub fn new(block: u8, addressing: Addressing) -> (memory: Self)
        ensures
            memory.wf(),
            memory@ == MemoryView::empty(block, addressing),
            free_list_of(memory@) == seq![Span { start: 0, len: SLOTS }],
    {
        let mut words: Vec<u16> = Vec::new();
        let mut regions: Vec<Option<Region>> = Vec::new();
        let mut i: u8 = 0;
        while i < SLOTS
            invariant
                i <= SLOTS,
                words@.len() == i,
                regions@.len() == i,
                forall|j: int| 0 <= j < i ==> words@[j] == 0,
                forall|j: int| 0 <= j < i ==> regions@[j] is None,
            decreases SLOTS - i,
        {
            words.push(0);
            regions.push(None);
            i = i + 1;
        }
        let mut free: Vec<Span> = Vec::new();
        free.push(Span { start: 0, len: SLOTS });
        let memory = InstructionMemory { block, addressing, words, regions, free };
        proof {
            assert(memory@.words =~= MemoryView::empty(block, addressing).words);
            assert(memory@.regions =~= MemoryView::empty(block, addressing).regions);
            assert forall|slot: int| !memory@.occupied(slot) by {
                if memory@.occupied(slot) {
                    let o = choose|o: int| memory@.covers(o, slot);
                    assert(memory@.covers(o, slot));
                }
            }
            assert forall|slot: int| 0 <= slot < SLOTS implies in_free(memory.free@, slot) by {
                assert(memory.free@[0].has(slot));
            }
            assert(is_free_list(memory.free@, memory@));
            assert(memory.free@ =~= seq![Span { start: 0, len: SLOTS }]);
            lemma_free_list_of(memory.free@, memory@);
        }
        memory
    }

    /// Index of the first free range of at least `len` slots.
    fn find_fit(&self, len: u8) -> (found: Option<usize>)
        requires
            self.wf(),
            1 <= len,
        ensures
            match found {
                Some(i) => i < self.free@.len() && self.free@[i as int].len >= len
                    && self@.first_fit(len as int) == Some(self.free@[i as int].start as int),
                None => self@.first_fit(len as int) is None,
            },
    {
        let mut i: usize = 0;
        while i < self.free.len()
            invariant
                i <= self.free@.len(),
                self.wf(),
                1 <= len,
                forall|k: int| 0 <= k < i ==> (#[trigger] self.free@[k]).len < len,
            decreases self.free@.len() - i,
        {
            if self.free[i].len >= len {
                proof {
                    let base = self.free@[i as int].start as int;
                    assert forall|slot: int| base <= slot < base + len implies !self@.occupied(
                        slot,
                    ) by {
                        lemma_span_free(self.free@, self@, i as int, slot);
                    }
                    assert forall|b: int| 0 <= b < base implies !self@.range_free(b, len as int) by {
                        if self@.range_free(b, len as int) {
                            let k = lemma_free_range_in_span(self.free@, self@, b, len as int);
                            assert(self.free@[k].len >= len);
                            if k > i as int {
                                assert(self.free@[i as int].end() < self.free@[k].start);
                            }
                        }
                    }
                    lemma_fit_found(self@, 0, base, len as int);
                }
                return Some(i);
            }
            i = i + 1;
        }
        proof {
            assert forall|b: int| 0 <= b implies !self@.range_free(b, len as int) by {
                if self@.range_free(b, len as int) {
                    let k = lemma_free_range_in_span(self.free@, self@, b, len as int);
                    assert(self.free@[k].len >= len);
                }
            }
            lemma_fit_none(self@, 0, len as int);
        }
        None
    }

    /// Index of the free range that holds `slot`.
    fn find_span(&self, slot: u8) -> (found: Option<usize>)
        requires
            self.wf(),
        ensures
            match found {
                Some(i) => i < self.free@.len() && self.free@[i as int].has(slot as int),
                None => !in_free(self.free@, slot as int),
            },
    {
        let mut i: usize = 0;
        while i < self.free.len()
            invariant
                i <= self.free@.len(),
                self.wf(),
                forall|k: int| 0 <= k < i ==> !(#[trigger] self.free@[k]).has(slot as int),
            decreases self.free@.len() - i,
        {
            let span = self.free[i];
            if span.start <= slot && slot - span.start < span.len {
                return Some(i);
            }
            i = i + 1;
        }
        None
    }

    /// Enters a program of `len` slots at `origin`, which lie in the free
    /// range `i`.
    fn occupy(&mut self, i: usize, origin: u8, len: u8)
        requires
            old(self).wf(),
            i < old(self).free@.len(),
            old(self).free@[i as int].start <= origin,
            1 <= len,
            origin + len <= old(self).free@[i as int].end(),
        ensures
            final(self).wf(),
            final(self)@ == old(self)@.with_region(origin as int, Some(Region { len, refs: 0 })),
            final(self).free@ == carve(old(self).free@, i as int, origin as int, len as int),
    {
        let span = self.free[i];
        let below = Span { start: span.start, len: origin - span.start };
        let above = Span { start: origin + len, len: span.start + span.len - origin - len };
        if below.len == 0 && above.len == 0 {
            self.free.remove(i);
        } else if below.len == 0 {
            self.free.set(i, above);
        } else if above.len == 0 {
            self.free.set(i, below);
        } else {
            assert(i < self.free.len());
            self.free.set(i, below);
            self.free.insert(i + 1, above);
        }
        self.regions.set(origin as usize, Some(Region { len, refs: 0 }));
        proof {
            let region = Region { len, refs: 0 };
            assert forall|slot: int| origin <= slot < origin + len implies !old(self)@.occupied(
                slot,
            ) by {
                lemma_span_free(old(self).free@, old(self)@, i as int, slot);
            }
            lemma_occupy(old(self)@, origin as int, region);
            assert(self@ == old(self)@.with_region(origin as int, Some(region)));
            lemma_carve(old(self).free@, old(self)@, self@, i as int, origin as int, len as int);
        }
    }

    /// Takes the program at `origin` out of the table and gives its slots
    /// back to the free list.
    fn vacate(&mut self, origin: u8)
        requires
            old(self).wf(),
            origin < SLOTS,
            old(self)@.regions[origin as int] is Some,
        ensures
            final(self).wf(),
            final(self)@ == old(self)@.with_region(origin as int, None),
    {
        let len = match self.regions[origin as usize] {
            Some(region) => region.len,
            None => 0,
        };
        let mut at: usize = 0;
        while at < self.free.len() && self.free[at].start < origin
            invariant
                at <= self.free@.len(),
                self.wf(),
                forall|k: int| 0 <= k < at ==> (#[trigger] self.free@[k]).start < origin,
            decreases self.free@.len() - at,
        {
            at = at + 1;
        }
        proof {
            assert forall|k: int| at <= k < self.free@.len() implies (
            #[trigger] self.free@[k]).start >= origin by {
                if k > at {
                    assert(self.free@[at as int].end() < self.free@[k].start);
                }
            }
            lemma_vacate(self@, origin as int);
            crate::free_list::lemma_neighbours(
                self.free@,
                self@,
                at as int,
                origin as int,
                len as int,
            );
        }
        let below = at > 0 && self.free[at - 1].start + self.free[at - 1].len == origin;
        let above = at < self.free.len() && self.free[at].start == origin + len;
        if below && above {
            let low = self.free[at - 1];
            let high = self.free[at];
            self.free.set(at - 1, Span { start: low.start, len: low.len + len + high.len });
            self.free.remove(at);
        } else if below {
            let low = self.free[at - 1];
            self.free.set(at - 1, Span { start: low.start, len: low.len + len });
        } else if above {
            let high = self.free[at];
            self.free.set(at, Span { start: origin, len: len + high.len });
        } else {
            self.free.insert(at, Span { start: origin, len });
        }
        self.regions.set(origin as usize, None);
        proof {
            assert(self@ == old(self)@.with_region(origin as int, None));
            assert(self.free@ == merge(old(self).free@, at as int, origin as int, len as int));
            lemma_merge(old(self).free@, old(self)@, self@, at as int, origin as int, len as int);
        }
    }

    /// Writes `code` to the slots from `base` on.
    fn install(&mut self, base: u8, code: &Vec<u16>)
        requires
            old(self).wf(),
            base + code@.len() <= SLOTS,
        ensures
            final(self).wf(),
            final(self)@ == old(self)@.with_code(base as int, code@),
            final(self).free@ == old(self).free@,
    {
        let mut j: usize = 0;
        while j < code.len()
            invariant
                j <= code@.len(),
                base + code@.len() <= SLOTS,
                self.words@.len() == SLOTS,
                self.block == old(self).block,
                self.addressing == old(self).addressing,
                self.regions == old(self).regions,
                self.free == old(self).free,
                forall|slot: int|
                    0 <= slot < SLOTS ==> self.words@[slot] == if base <= slot < base + j {
                        code@[slot - base]
                    } else {
                        old(self).words@[slot]
                    },
            decreases code@.len() - j,
        {
            self.words.set(base as usize + j, code[j]);
            j = j + 1;
        }
        proof {
            assert(self@.words =~= old(self)@.with_code(base as int, code@).words);
            assert forall|slot: int| self@.occupied(slot) <==> old(self)@.occupied(slot) by {
                if self@.occupied(slot) {
                    let o = choose|o: int| self@.covers(o, slot);
                    assert(old(self)@.covers(o, slot));
                }
                if old(self)@.occupied(slot) {
                    let o = choose|o: int| old(self)@.covers(o, slot);
                    assert(self@.covers(o, slot));
                }
            }
        }
    }

    /// Loads `program`: finds its place, relocates it to the base chosen,
    /// writes the relocated words to the memory and enters the range in the
    /// table with no reference.
    ///
    /// The place is `preferred_origin`, or else the origin that the program
    /// asks for, or else the first free range that is long enough, lowest
    /// address first. A fixed origin fails with `AddressInUse` unless every
    /// slot of the range is free. `CapacityExceeded` says that the program
    /// would run past the last slot or that no free range is long enough.
    /// Under strict addressing the relocation may fail with
    /// `RelocationOutOfRange`. A failed call changes nothing.
    pub fn load(&mut self, program: &Program, preferred_origin: Option<u8>) -> (loaded: Result<
        LoadedProgram,
        Error,
    >)
        requires
            old(self).wf(),
        ensures
            final(self).wf(),
            match loaded {
                Ok(handle) => {
                    &&& old(self)@.load(program@, preferred_origin) == Ok::<
                        (Placement, MemoryView),
                        Error,
                    >((handle@, final(self)@))
                    &&& final(self)@.holds(handle@)
                    &&& final(self)@.refs(handle@.origin as int) == 0
                },
                Err(e) => {
                    &&& old(self)@.load(program@, preferred_origin) == Err::<
                        (Placement, MemoryView),
                        Error,
                    >(e)
                    &&& final(self)@ == old(self)@
                },
            },
    {
        let len = program.len();
        let origin = match preferred_origin {
            Some(o) => Some(o),
            None => program.origin(),
        };
        if len > SLOTS as usize {
            return Err(Error::CapacityExceeded);
        }
        let n: u8 = len as u8;
        let (i, base) = match origin {
            Some(o) => {
                if o as usize + len > SLOTS as usize {
                    return Err(Error::CapacityExceeded);
                }
                match self.find_span(o) {
                    Some(i) => {
                        let span = self.free[i];
                        if o - span.start + n > span.len {
                            proof {
                                if self@.range_free(o as int, n as int) {
                                    let k = lemma_free_range_in_span(
                                        self.free@,
                                        self@,
                                        o as int,
                                        n as int,
                                    );
                                    assert(self.free@[k].has(o as int));
                                    crate::free_list::lemma_one_span(
                                        self.free@,
                                        k,
                                        i as int,
                                        o as int,
                                    );
                                }
                            }
                            return Err(Error::AddressInUse);
                        }
                        (i, o)
                    },
                    None => {
                        proof {
                            if self@.range_free(o as int, n as int) {
                                assert(!self@.occupied(o as int));
                            }
                        }
                        return Err(Error::AddressInUse);
                    },
                }
            },
            None => match self.find_fit(n) {
                Some(i) => (i, self.free[i].start),
                None => {
                    return Err(Error::CapacityExceeded);
                },
            },
        };
        proof {
            assert forall|slot: int| base <= slot < base + n implies !self@.occupied(slot) by {
                lemma_span_free(self.free@, self@, i as int, slot);
            }
            assert(self@.range_free(base as int, n as int));
            assert(self@.placement(n as int, origin) == Ok::<u8, Error>(base));
        }
        let relocated = match relocate(program, base, self.addressing) {
            Ok(relocated) => relocated,
            Err(e) => {
                return Err(e);
            },
        };
        self.install(base, &relocated.code);
        self.occupy(i, base, n);
        Ok(
            LoadedProgram {
                placement: Placement {
                    block: self.block,
                    origin: base,
                    len: n,
                    wrap_source: relocated.wrap_source,
                    wrap_target: relocated.wrap_target,
                    side_set_width: program.side_set_width(),
                    side_set_pin_base: program.side_set_pin_base(),
                },
            },
        )
    }

    /// Unloads a program: takes it out of the table and gives its slots back
    /// to the free list, merged with the free ranges next to them.
    ///
    /// While a state machine is bound to the program the call fails with
    /// `Busy`, hands the handle back and changes nothing.
    pub fn unload(&mut self, handle: LoadedProgram) -> (unloaded: Result<
        (),
        (Error, LoadedProgram),
    >)
        requires
            old(self).wf(),
            old(self)@.holds(handle@),
        ensures
            final(self).wf(),
            match unloaded {
                Ok(()) => old(self)@.unload(handle@.origin as int) == Ok::<MemoryView, Error>(
                    final(self)@,
                ),
                Err((e, back)) => {
                    &&& old(self)@.unload(handle@.origin as int) == Err::<MemoryView, Error>(e)
                    &&& back@ == handle@
                    &&& final(self)@ == old(self)@
                },
            },
    {
        let origin = handle.placement.origin;
        if self.reference_count(&handle) > 0 {
            return Err((Error::Busy, handle));
        }
        self.vacate(origin);
        Ok(())
    }

    /// Counts one more state machine bound to the program.
    pub(crate) fn add_reference(&mut self, handle: &LoadedProgram)
        requires
            old(self).wf(),
            old(self)@.holds(handle@),
            old(self)@.refs(handle@.origin as int) < u32::MAX,
        ensures
            final(self).wf(),
            final(self)@ == old(self)@.add_reference(handle@.origin as int),
    {
        let origin = handle.placement.origin;
        self.recount(origin, self.reference_count(handle) + 1);
    }

    /// Counts one state machine less bound to the program at `origin`.
    pub(crate) fn remove_reference(&mut self, origin: u8)
        requires
            old(self).wf(),
            origin < SLOTS,
            old(self)@.regions[origin as int] is Some,
            old(self)@.refs(origin as int) > 0,
        ensures
            final(self).wf(),
            final(self)@ == old(self)@.remove_reference(origin as int),
    {
        let refs = match self.regions[origin as usize] {
            Some(region) => region.refs,
            None => 1,
        };
        self.recount(origin, refs - 1);
    }

    /// Sets the reference count of the program at `origin`.
    fn recount(&mut self, origin: u8, refs: u32)
        requires
            old(self).wf(),
            origin < SLOTS,
            old(self)@.regions[origin as int] is Some,
        ensures
            final(self).wf(),
            final(self)@ == old(self)@.with_region(
                origin as int,
                Some(Region { len: old(self)@.regions[origin as int].unwrap().len, refs }),
            ),
            final(self).free@ == old(self).free@,
    {
        let len = match self.regions[origin as usize] {
            Some(region) => region.len,
            None => 0,
        };
        self.regions.set(origin as usize, Some(Region { len, refs }));
        proof {
            lemma_recount(old(self)@, origin as int, Region { len, refs });
            assert(self@ == old(self)@.with_region(origin as int, Some(Region { len, refs })));
        }
    }

    /// Whether `handle` names a program that is loaded in this memory.
    pub fn holds(&self, handle: &LoadedProgram) -> (held: bool)
        requires
            self.wf(),
        ensures
            held == self@.holds(handle@),
    {
        let placement = handle.placement;
        if placement.block != self.block || placement.origin >= SLOTS {
            return false;
        }
        match self.regions[placement.origin as usize] {
            Some(region) => region.len == placement.len,
            None => false,
        }
    }

    /// Number of state machines bound to the program.
    pub fn reference_count(&self, handle: &LoadedProgram) -> (refs: u32)
        requires
            self.wf(),
            self@.holds(handle@),
        ensures
            refs == self@.refs(handle@.origin as int),
    {
        match self.regions[handle.placement.origin as usize] {
            Some(region) => region.refs,
            None => 0,
        }
    }

    /// The word in `slot`, or `None` where the memory has no such slot.
    pub fn word(&self, slot: u8) -> (word: Option<u16>)
        requires
            self.wf(),
        ensures
            word == if slot < SLOTS {
                Some(self@.words[slot as int])
            } else {
                None::<u16>
            },
    {
        if slot < SLOTS {
            Some(self.words[slot as usize])
        } else {
            None
        }
    }

    /// Whether `slot` is a slot of the memory that no loaded program
    /// occupies.
    pub fn is_free(&self, slot: u8) -> (free: bool)
        requires
            self.wf(),
        ensures
            free == (slot < SLOTS && !self@.occupied(slot as int)),
    {
        match self.find_span(slot) {
            Some(_) => true,
            None => false,
        }
    }

    /// The free ranges in ascending order.
    pub fn free_ranges(&self) -> (ranges: Vec<Span>)
        requires
            self.wf(),
        ensures
            ranges@ == free_list_of(self@),
    {
        proof {
            lemma_free_list_of(self.free@, self@);
        }
        let mut ranges: Vec<Span> = Vec::new();
        let mut i: usize = 0;
        while i < self.free.len()
            invariant
                i <= self.free@.len(),
                ranges@ == self.free@.subrange(0, i as int),
            decreases self.free@.len() - i,
        {
            ranges.push(self.free[i]);
            i = i + 1;
        }
        assert(ranges@ =~= self.free@);
        ranges
    }
}

impl LoadedProgram {
    /// Where the program stands.
    pub fn placement(&self) -> (placement: Placement)
        ensures
            placement == self@,
    {
        self.placement
    }
}

} // verus!
