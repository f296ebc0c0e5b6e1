use embassy_rp::allocator::InstructionMemory;
use embassy_rp::block::PioBlock;
use embassy_rp::error::Error;
use embassy_rp::memory::{Placement, Span};
use embassy_rp::program::Program;
use embassy_rp::relocate::{relocate, Addressing};

fn words(len: usize) -> Program {
    let code: Vec<u16> = (0..len).map(|i| 0xe000 | (i as u16 & 0x1f)).collect();
    Program::new(code, 0, None, (len - 1) as u8, 0, None).unwrap()
}

fn span(start: u8, len: u8) -> Span {
    Span { start, len }
}

#[test]
fn a_new_memory_is_one_free_range_of_zeros() {
    let memory = InstructionMemory::new(0, Addressing::Wrapping);
    assert_eq!(memory.free_ranges(), vec![span(0, 32)]);
    for slot in 0u8..32 {
        assert_eq!(memory.word(slot), Some(0));
        assert!(memory.is_free(slot));
    }
    assert_eq!(memory.word(32), None);
    assert!(!memory.is_free(32));
    assert_eq!(memory.block(), 0);
    assert_eq!(memory.addressing(), Addressing::Wrapping);
}

#[test]
fn load_at_base_five_installs_slots_five_to_seven() {
    let mut pio = PioBlock::new(0, Addressing::Wrapping);
    let program = Program::new(vec![0x0002, 0xe001, 0x0040], 0, None, 2, 0, None).unwrap();
    let loaded = pio.load(&program, Some(5)).unwrap();
    assert_eq!(
        loaded.placement(),
        Placement {
            block: 0,
            origin: 5,
            len: 3,
            wrap_source: 7,
            wrap_target: 5,
            side_set_width: 0,
            side_set_pin_base: None,
        }
    );
    assert_eq!(pio.memory().word(4), Some(0));
    assert_eq!(pio.memory().word(5), Some(0x0007));
    assert_eq!(pio.memory().word(6), Some(0xe001));
    assert_eq!(pio.memory().word(7), Some(0x0045));
    assert_eq!(pio.memory().word(8), Some(0));
    assert_eq!(pio.memory().free_ranges(), vec![span(0, 5), span(8, 24)]);
    assert_eq!(pio.memory().reference_count(&loaded), 0);
    for slot in 0u8..32 {
        assert_eq!(pio.memory().is_free(slot), !(5..8).contains(&slot));
    }
}

#[test]
fn a_program_of_thirty_three_words_exceeds_capacity() {
    let mut pio = PioBlock::new(0, Addressing::Wrapping);
    let program = words(33);
    assert_eq!(pio.load(&program, None).unwrap_err(), Error::CapacityExceeded);
    assert_eq!(pio.load(&program, Some(0)).unwrap_err(), Error::CapacityExceeded);
    assert_eq!(pio.memory().free_ranges(), vec![span(0, 32)]);
    let mut memory = InstructionMemory::new(1, Addressing::Strict);
    assert_eq!(memory.load(&program, None).unwrap_err(), Error::CapacityExceeded);
}

#[test]
fn a_program_of_thirty_two_words_fills_the_memory() {
    let mut memory = InstructionMemory::new(0, Addressing::Wrapping);
    let all = memory.load(&words(32), None).unwrap();
    assert_eq!(all.placement().origin, 0);
    assert_eq!(all.placement().len, 32);
    assert_eq!(memory.free_ranges(), vec![]);
    assert_eq!(memory.load(&words(1), None).unwrap_err(), Error::CapacityExceeded);
    assert_eq!(memory.load(&words(1), Some(31)).unwrap_err(), Error::AddressInUse);
    assert!(memory.unload(all).is_ok());
    assert_eq!(memory.free_ranges(), vec![span(0, 32)]);
}

#[test]
fn loading_without_an_origin_takes_the_first_fit() {
    let mut memory = InstructionMemory::new(0, Addressing::Wrapping);
    let a = memory.load(&words(4), None).unwrap();
    let b = memory.load(&words(4), None).unwrap();
    assert_eq!((a.placement().origin, b.placement().origin), (0, 4));
    assert!(memory.unload(a).is_ok());
    assert_eq!(memory.free_ranges(), vec![span(0, 4), span(8, 24)]);
    // five words do not fit the hole of four: they go above
    let c = memory.load(&words(5), None).unwrap();
    assert_eq!(c.placement().origin, 8);
    // two words fit the hole
    let d = memory.load(&words(2), None).unwrap();
    assert_eq!(d.placement().origin, 0);
    // three words do not fit what is left of it
    let e = memory.load(&words(3), None).unwrap();
    assert_eq!(e.placement().origin, 13);
    assert_eq!(memory.free_ranges(), vec![span(2, 2), span(16, 16)]);
    // exactly two do
    let f = memory.load(&words(2), None).unwrap();
    assert_eq!(f.placement().origin, 2);
    assert_eq!(memory.free_ranges(), vec![span(16, 16)]);
    assert_eq!(b.placement().origin, 4);
}

#[test]
fn loading_fails_when_no_free_range_is_long_enough() {
    let mut memory = InstructionMemory::new(0, Addressing::Wrapping);
    let _a = memory.load(&words(10), Some(0)).unwrap();
    let _b = memory.load(&words(10), Some(16)).unwrap();
    assert_eq!(memory.free_ranges(), vec![span(10, 6), span(26, 6)]);
    // twelve slots are free, but no seven in a row
    assert_eq!(memory.load(&words(7), None).unwrap_err(), Error::CapacityExceeded);
    assert_eq!(memory.free_ranges(), vec![span(10, 6), span(26, 6)]);
    assert_eq!(memory.load(&words(6), None).unwrap().placement().origin, 10);
}

#[test]
fn installed_words_are_the_program_relocated_to_the_chosen_base() {
    let mut memory = InstructionMemory::new(0, Addressing::Wrapping);
    let _below = memory.load(&words(5), None).unwrap();
    let program =
        Program::new(vec![0x0003, 0xe001, 0x0041, 0x1f5e, 0xa042], 1, Some(3), 4, 1, None).unwrap();
    let loaded = memory.load(&program, None).unwrap();
    let placement = loaded.placement();
    assert_eq!(placement.origin, 5);
    let relocated = relocate(&program, placement.origin, Addressing::Wrapping).unwrap();
    assert_eq!(relocated.code, vec![0x0008, 0xe001, 0x0046, 0x1f43, 0xa042]);
    for (j, word) in relocated.code.iter().enumerate() {
        assert_eq!(memory.word(placement.origin + j as u8), Some(*word));
    }
    assert_eq!(placement.wrap_source, relocated.wrap_source);
    assert_eq!(placement.wrap_target, relocated.wrap_target);
    assert_eq!((placement.wrap_source, placement.wrap_target), (9, 6));
    assert_eq!(placement.side_set_width, 1);
    assert_eq!(placement.side_set_pin_base, Some(3));
    assert_eq!(placement.len, 5);
}

#[test]
fn a_fixed_origin_needs_the_exact_range_free() {
    let mut memory = InstructionMemory::new(0, Addressing::Wrapping);
    let _a = memory.load(&words(3), Some(5)).unwrap();
    assert_eq!(memory.load(&words(3), Some(5)).unwrap_err(), Error::AddressInUse);
    assert_eq!(memory.load(&words(3), Some(3)).unwrap_err(), Error::AddressInUse);
    assert_eq!(memory.load(&words(3), Some(7)).unwrap_err(), Error::AddressInUse);
    assert_eq!(memory.load(&words(1), Some(6)).unwrap_err(), Error::AddressInUse);
    assert_eq!(memory.load(&words(9), Some(0)).unwrap_err(), Error::AddressInUse);
    assert_eq!(memory.free_ranges(), vec![span(0, 5), span(8, 24)]);
    assert_eq!(memory.load(&words(3), Some(2)).unwrap().placement().origin, 2);
    assert_eq!(memory.load(&words(3), Some(8)).unwrap().placement().origin, 8);
    assert_eq!(memory.free_ranges(), vec![span(0, 2), span(11, 21)]);
}

#[test]
fn a_fixed_origin_in_the_middle_splits_the_free_range() {
    let mut memory = InstructionMemory::new(0, Addressing::Wrapping);
    let a = memory.load(&words(4), Some(10)).unwrap();
    assert_eq!(memory.free_ranges(), vec![span(0, 10), span(14, 18)]);
    let b = memory.load(&words(4), Some(28)).unwrap();
    assert_eq!(memory.free_ranges(), vec![span(0, 10), span(14, 14)]);
    assert!(memory.unload(a).is_ok());
    assert_eq!(memory.free_ranges(), vec![span(0, 28)]);
    assert!(memory.unload(b).is_ok());
    assert_eq!(memory.free_ranges(), vec![span(0, 32)]);
}

#[test]
fn a_fixed_origin_past_the_last_slot_exceeds_capacity() {
    let mut memory = InstructionMemory::new(0, Addressing::Wrapping);
    assert_eq!(memory.load(&words(3), Some(30)).unwrap_err(), Error::CapacityExceeded);
    assert_eq!(memory.load(&words(1), Some(32)).unwrap_err(), Error::CapacityExceeded);
    assert_eq!(memory.load(&words(1), Some(255)).unwrap_err(), Error::CapacityExceeded);
    assert_eq!(memory.load(&words(3), Some(29)).unwrap().placement().origin, 29);
}

#[test]
fn the_origin_a_program_asks_for_is_kept() {
    let mut memory = InstructionMemory::new(0, Addressing::Wrapping);
    let fixed = Program::new(vec![0x0001, 0x0000], 0, None, 1, 0, Some(10)).unwrap();
    let loaded = memory.load(&fixed, None).unwrap();
    assert_eq!(loaded.placement().origin, 10);
    assert_eq!(memory.word(10), Some(0x000b));
    assert_eq!(memory.word(11), Some(0x000a));
    assert_eq!(memory.load(&fixed, None).unwrap_err(), Error::AddressInUse);
    // an origin passed with the call comes first
    let moved = memory.load(&fixed, Some(3)).unwrap();
    assert_eq!(moved.placement().origin, 3);
    assert_eq!(memory.word(3), Some(0x0004));
}

#[test]
fn unloading_merges_with_both_neighbours() {
    let mut memory = InstructionMemory::new(0, Addressing::Wrapping);
    let a = memory.load(&words(4), None).unwrap();
    let b = memory.load(&words(4), None).unwrap();
    let c = memory.load(&words(4), None).unwrap();
    let d = memory.load(&words(4), None).unwrap();
    assert_eq!(memory.free_ranges(), vec![span(16, 16)]);
    assert!(memory.unload(a).is_ok());
    assert_eq!(memory.free_ranges(), vec![span(0, 4), span(16, 16)]);
    assert!(memory.unload(c).is_ok());
    assert_eq!(memory.free_ranges(), vec![span(0, 4), span(8, 4), span(16, 16)]);
    // below and above are free: three ranges become one
    assert!(memory.unload(b).is_ok());
    assert_eq!(memory.free_ranges(), vec![span(0, 12), span(16, 16)]);
    assert!(memory.unload(d).is_ok());
    assert_eq!(memory.free_ranges(), vec![span(0, 32)]);
}

#[test]
fn unloading_merges_with_one_neighbour_or_none() {
    let mut memory = InstructionMemory::new(0, Addressing::Wrapping);
    let a = memory.load(&words(2), Some(0)).unwrap();
    let b = memory.load(&words(2), Some(2)).unwrap();
    let c = memory.load(&words(2), Some(4)).unwrap();
    let d = memory.load(&words(26), Some(6)).unwrap();
    assert_eq!(memory.free_ranges(), vec![]);
    // no free neighbour
    assert!(memory.unload(b).is_ok());
    assert_eq!(memory.free_ranges(), vec![span(2, 2)]);
    // the free range above
    assert!(memory.unload(a).is_ok());
    assert_eq!(memory.free_ranges(), vec![span(0, 4)]);
    // the free range below
    assert!(memory.unload(c).is_ok());
    assert_eq!(memory.free_ranges(), vec![span(0, 6)]);
    assert!(memory.unload(d).is_ok());
    assert_eq!(memory.free_ranges(), vec![span(0, 32)]);
}

#[test]
fn unloading_leaves_the_words_of_other_programs() {
    let mut memory = InstructionMemory::new(0, Addressing::Wrapping);
    let a = memory.load(&words(3), None).unwrap();
    let _b = memory.load(&words(3), None).unwrap();
    assert!(memory.unload(a).is_ok());
    assert_eq!(memory.word(3), Some(0xe000));
    assert_eq!(memory.word(4), Some(0xe001));
    assert_eq!(memory.word(5), Some(0xe002));
    assert!(memory.is_free(0) && memory.is_free(2) && !memory.is_free(3));
}

#[test]
fn no_two_loaded_programs_share_a_slot() {
    let mut memory = InstructionMemory::new(0, Addressing::Wrapping);
    let mut live: Vec<embassy_rp::allocator::LoadedProgram> = Vec::new();
    let lengths = [3usize, 7, 1, 5, 2, 9, 4, 6, 1, 8, 2, 3];
    for (step, len) in lengths.iter().enumerate() {
        if let Ok(loaded) = memory.load(&words(*len), None) {
            live.push(loaded);
        }
        if step % 3 == 2 {
            let gone = live.remove(step % live.len());
            assert!(memory.unload(gone).is_ok());
        }
        let mut owner = [0u8; 32];
        for loaded in live.iter() {
            let p = loaded.placement();
            assert!(p.len >= 1 && p.origin as usize + p.len as usize <= 32);
            for slot in p.origin..p.origin + p.len {
                owner[slot as usize] += 1;
            }
        }
        let free = memory.free_ranges();
        for pair in free.windows(2) {
            assert!(pair[0].start + pair[0].len < pair[1].start);
        }
        for slot in 0u8..32 {
            let in_free = free.iter().any(|s| s.start <= slot && slot < s.start + s.len);
            assert!(owner[slot as usize] <= 1);
            assert_eq!(in_free, owner[slot as usize] == 0);
            assert_eq!(memory.is_free(slot), in_free);
        }
    }
}

#[test]
fn a_failed_strict_relocation_loads_nothing() {
    let mut memory = InstructionMemory::new(0, Addressing::Strict);
    let _below = memory.load(&words(5), None).unwrap();
    let far = Program::new(vec![0x001e, 0xe001], 0, None, 1, 0, None).unwrap();
    assert_eq!(memory.load(&far, None).unwrap_err(), Error::RelocationOutOfRange);
    assert_eq!(memory.free_ranges(), vec![span(5, 27)]);
    assert_eq!(memory.word(5), Some(0));
    // under wrapping addressing the same program loads
    let mut wrapping = InstructionMemory::new(0, Addressing::Wrapping);
    let _below = wrapping.load(&words(5), None).unwrap();
    assert_eq!(wrapping.load(&far, None).unwrap().placement().origin, 5);
    assert_eq!(wrapping.word(5), Some(0x0003));
}

#[test]
fn unload_of_a_bound_program_is_busy_and_changes_nothing() {
    let mut pio = PioBlock::new(0, Addressing::Wrapping);
    let _first = pio.load(&words(4), None).unwrap();
    let loaded = pio.load(&words(4), None).unwrap();
    let sm = pio.claim(1).unwrap();
    pio.bind(&sm, &loaded);
    assert_eq!(pio.memory().reference_count(&loaded), 1);
    let before = pio.memory().free_ranges();
    let (error, loaded) = pio.unload(loaded).unwrap_err();
    assert_eq!(error, Error::Busy);
    assert_eq!(pio.memory().free_ranges(), before);
    assert_eq!(pio.memory().free_ranges(), vec![span(8, 24)]);
    assert_eq!(pio.memory().reference_count(&loaded), 1);
    assert_eq!(pio.memory().word(4), Some(0xe000));
    pio.unbind(&sm);
    assert_eq!(pio.memory().reference_count(&loaded), 0);
    assert!(pio.unload(loaded).is_ok());
    assert_eq!(pio.memory().free_ranges(), vec![span(4, 28)]);
}

#[test]
fn the_blocks_have_memories_of_their_own() {
    let mut pio0 = PioBlock::new(0, Addressing::Wrapping);
    let mut pio1 = PioBlock::new(1, Addressing::Wrapping);
    let a = pio0.load(&words(8), None).unwrap();
    let b = pio1.load(&words(2), None).unwrap();
    assert_eq!((a.placement().block, a.placement().origin), (0, 0));
    assert_eq!((b.placement().block, b.placement().origin), (1, 0));
    assert_eq!(pio0.memory().free_ranges(), vec![span(8, 24)]);
    assert_eq!(pio1.memory().free_ranges(), vec![span(2, 30)]);
}
