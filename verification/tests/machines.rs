use embassy_rp::block::PioBlock;
use embassy_rp::error::Error;
use embassy_rp::machine::{
    ClockDivider, FifoJoin, Lifecycle, Machine, PinGroup, ShiftConfig, ShiftDirection,
    StateMachineConfig,
};
use embassy_rp::program::Program;
use embassy_rp::reg::{Alias, RegWrite};
use embassy_rp::relocate::Addressing;

fn blink() -> Program {
    Program::new(vec![0xe081, 0xe101, 0xe000, 0x0001], 0, None, 3, 1, None).unwrap()
}

#[test]
fn claiming_twice_fails_until_released() {
    let mut pio = PioBlock::new(0, Addressing::Wrapping);
    let sm = pio.claim(0).unwrap();
    assert_eq!((sm.block(), sm.machine()), (0, 0));
    assert_eq!(pio.claim(0).unwrap_err(), Error::AlreadyClaimed);
    pio.release(sm);
    let again = pio.claim(0).unwrap();
    assert_eq!(again.machine(), 0);
}

#[test]
fn configure_needs_a_halted_machine() {
    let mut pio = PioBlock::new(0, Addressing::Wrapping);
    let sm = pio.claim(2).unwrap();
    let config = StateMachineConfig::reset();
    pio.start(&sm);
    assert!(pio.is_running(&sm));
    assert_eq!(pio.configure(&sm, config), Err(Error::NotHalted));
    assert_eq!(pio.machine(&sm).config, None);
    pio.stop(&sm);
    assert!(!pio.is_running(&sm));
    assert_eq!(pio.configure(&sm, config), Ok(()));
    assert_eq!(pio.machine(&sm).config, Some(config));
}

#[test]
fn a_divisor_below_one_is_too_small() {
    let mut pio = PioBlock::new(0, Addressing::Wrapping);
    let sm = pio.claim(0).unwrap();
    let mut config = StateMachineConfig::reset();
    config.clock_divider = ClockDivider { int: 0, frac: 255 };
    assert_eq!(pio.configure(&sm, config), Err(Error::ClockDividerTooSmall));
    assert_eq!(pio.machine(&sm).config, None);
    config.clock_divider = ClockDivider { int: 1, frac: 0 };
    assert_eq!(pio.configure(&sm, config), Ok(()));
    config.clock_divider = ClockDivider { int: 65535, frac: 255 };
    assert_eq!(pio.configure(&sm, config), Ok(()));
    assert_eq!(pio.machine(&sm).config, Some(config));
}

#[test]
fn a_running_machine_is_told_before_the_divisor() {
    let mut pio = PioBlock::new(0, Addressing::Wrapping);
    let sm = pio.claim(0).unwrap();
    let mut config = StateMachineConfig::reset();
    config.clock_divider = ClockDivider { int: 0, frac: 0 };
    pio.start(&sm);
    assert_eq!(pio.configure(&sm, config), Err(Error::NotHalted));
}

#[test]
fn a_configuration_is_stored_as_given() {
    let mut pio = PioBlock::new(1, Addressing::Wrapping);
    let sm = pio.claim(3).unwrap();
    let config = StateMachineConfig {
        clock_divider: ClockDivider { int: 125, frac: 64 },
        set_pins: PinGroup { base: 2, count: 3 },
        out_pins: PinGroup { base: 5, count: 8 },
        in_pins: PinGroup { base: 13, count: 1 },
        side_set_pins: PinGroup { base: 14, count: 2 },
        fifo_join: FifoJoin::TxOnly,
        shift_in: ShiftConfig::new(8, ShiftDirection::Left, true).unwrap(),
        shift_out: ShiftConfig::new(24, ShiftDirection::Right, false).unwrap(),
    };
    assert_eq!(pio.configure(&sm, config), Ok(()));
    let stored = pio.machine(&sm).config.unwrap();
    assert_eq!(stored, config);
    assert_eq!(stored.shift_in.threshold(), 8);
    assert_eq!(stored.shift_in.direction(), ShiftDirection::Left);
    assert!(stored.shift_in.auto_fill());
    assert_eq!(stored.shift_out.threshold(), 24);
    assert_eq!(stored.clock_divider.to_bits(), 125 * 256 + 64);
}

#[test]
fn thresholds_run_from_one_to_thirty_two() {
    assert!(ShiftConfig::new(0, ShiftDirection::Left, false).is_none());
    assert!(ShiftConfig::new(33, ShiftDirection::Left, false).is_none());
    assert!(ShiftConfig::new(255, ShiftDirection::Right, true).is_none());
    assert_eq!(ShiftConfig::new(1, ShiftDirection::Left, false).unwrap().threshold(), 1);
    assert_eq!(ShiftConfig::new(32, ShiftDirection::Left, false).unwrap().threshold(), 32);
    assert_eq!(ShiftConfig::full_width().threshold(), 32);
    assert_eq!(ShiftConfig::full_width().direction(), ShiftDirection::Right);
    assert!(!ShiftConfig::full_width().auto_fill());
}

#[test]
fn the_reset_configuration_divides_by_one() {
    let config = StateMachineConfig::reset();
    assert_eq!(config.clock_divider, ClockDivider { int: 1, frac: 0 });
    assert!(config.clock_divider.at_least_one());
    assert_eq!(config.clock_divider.to_bits(), 256);
    assert_eq!(config.fifo_join, FifoJoin::Duplex);
    assert_eq!(config.set_pins, PinGroup { base: 0, count: 0 });
    assert!(!ClockDivider { int: 0, frac: 255 }.at_least_one());
    assert_eq!(ClockDivider { int: 2, frac: 128 }.to_bits(), 640);
    assert_eq!(ClockDivider { int: 65535, frac: 255 }.to_bits(), 0x00ff_ffff);
}

#[test]
fn the_reset_configuration_has_no_pins_and_full_width_shifts() {
    let config = StateMachineConfig::reset();
    let none = PinGroup { base: 0, count: 0 };
    assert_eq!(
        config,
        StateMachineConfig {
            clock_divider: ClockDivider { int: 1, frac: 0 },
            set_pins: none,
            out_pins: none,
            in_pins: none,
            side_set_pins: none,
            fifo_join: FifoJoin::Duplex,
            shift_in: ShiftConfig::new(32, ShiftDirection::Right, false).unwrap(),
            shift_out: ShiftConfig::full_width(),
        }
    );
}

#[test]
fn a_machine_goes_through_its_life_cycle() {
    let mut pio = PioBlock::new(0, Addressing::Wrapping);
    let loaded = pio.load(&blink(), None).unwrap();
    assert_eq!(pio.lifecycle(2), Lifecycle::Unclaimed);
    let sm = pio.claim(2).unwrap();
    assert_eq!(pio.lifecycle(2), Lifecycle::Claimed);
    assert_eq!(pio.configure(&sm, StateMachineConfig::reset()), Ok(()));
    assert_eq!(pio.lifecycle(2), Lifecycle::Configured);
    pio.bind(&sm, &loaded);
    assert_eq!(pio.lifecycle(2), Lifecycle::Bound);
    pio.start(&sm);
    assert_eq!(pio.lifecycle(2), Lifecycle::Running);
    pio.stop(&sm);
    assert_eq!(pio.lifecycle(2), Lifecycle::Bound);
    pio.unbind(&sm);
    assert_eq!(pio.lifecycle(2), Lifecycle::Configured);
    pio.start(&sm);
    assert_eq!(pio.lifecycle(2), Lifecycle::Running);
    pio.release(sm);
    assert_eq!(pio.lifecycle(2), Lifecycle::Unclaimed);
    assert_eq!(pio.lifecycle(0), Lifecycle::Unclaimed);
}

#[test]
fn a_block_knows_its_own_handles() {
    let mut pio0 = PioBlock::new(0, Addressing::Wrapping);
    let mut pio1 = PioBlock::new(1, Addressing::Wrapping);
    let sm = pio0.claim(2).unwrap();
    let other = pio1.claim(3).unwrap();
    assert!(pio0.owns(&sm) && !pio0.owns(&other));
    assert!(pio1.owns(&other) && !pio1.owns(&sm));
    let loaded = pio0.load(&blink(), None).unwrap();
    let longer = pio1
        .load(&Program::new(vec![0xe001; 5], 0, None, 4, 0, None).unwrap(), None)
        .unwrap();
    assert!(pio0.holds(&loaded) && !pio1.holds(&loaded));
    assert!(pio1.holds(&longer) && !pio0.holds(&longer));
    assert!(pio0.memory().holds(&loaded));
    assert!(pio0.unload(loaded).is_ok());
    pio0.release(sm);
    assert!(pio1.owns(&other));
}

#[test]
fn joining_doubles_one_fifo_and_takes_the_other() {
    assert_eq!((FifoJoin::Duplex.rx_depth(), FifoJoin::Duplex.tx_depth()), (4, 4));
    assert_eq!((FifoJoin::RxOnly.rx_depth(), FifoJoin::RxOnly.tx_depth()), (8, 0));
    assert_eq!((FifoJoin::TxOnly.rx_depth(), FifoJoin::TxOnly.tx_depth()), (0, 8));
}

#[test]
fn start_and_stop_write_the_run_bit_of_one_machine() {
    let mut pio = PioBlock::new(0, Addressing::Wrapping);
    let sm0 = pio.claim(0).unwrap();
    let sm2 = pio.claim(2).unwrap();
    assert_eq!(pio.ctrl(), 0);
    assert_eq!(pio.start(&sm2), RegWrite { alias: Alias::BitSet, bits: 0b0100 });
    assert_eq!(pio.ctrl(), 0b0100);
    assert!(pio.is_running(&sm2) && !pio.is_running(&sm0));
    assert_eq!(pio.start(&sm0), RegWrite { alias: Alias::BitSet, bits: 0b0001 });
    assert_eq!(pio.ctrl(), 0b0101);
    assert_eq!(pio.start(&sm0), RegWrite { alias: Alias::BitSet, bits: 0b0001 });
    assert_eq!(pio.ctrl(), 0b0101);
    assert_eq!(pio.stop(&sm2), RegWrite { alias: Alias::BitClear, bits: 0b0100 });
    assert_eq!(pio.ctrl(), 0b0001);
    assert!(pio.is_running(&sm0) && !pio.is_running(&sm2));
    assert_eq!(pio.stop(&sm2), RegWrite { alias: Alias::BitClear, bits: 0b0100 });
    assert_eq!(pio.ctrl(), 0b0001);
}

#[test]
fn binding_counts_the_references_of_a_program() {
    let mut pio = PioBlock::new(0, Addressing::Wrapping);
    let first = pio.load(&blink(), None).unwrap();
    let second = pio.load(&blink(), None).unwrap();
    let sm0 = pio.claim(0).unwrap();
    let sm1 = pio.claim(1).unwrap();
    pio.bind(&sm0, &first);
    pio.bind(&sm1, &first);
    assert_eq!(pio.memory().reference_count(&first), 2);
    assert_eq!(pio.machine(&sm0).bound, Some(first.placement()));
    assert_eq!(pio.machine(&sm0).pc, 0);
    // binding again to the same program counts once
    pio.bind(&sm0, &first);
    assert_eq!(pio.memory().reference_count(&first), 2);
    // binding to another program moves the reference
    pio.bind(&sm0, &second);
    assert_eq!(pio.memory().reference_count(&first), 1);
    assert_eq!(pio.memory().reference_count(&second), 1);
    assert_eq!(pio.machine(&sm0).pc, 4);
    assert_eq!(pio.machine(&sm0).bound, Some(second.placement()));
    pio.unbind(&sm1);
    assert_eq!(pio.memory().reference_count(&first), 0);
    assert_eq!(pio.machine(&sm1).bound, None);
    pio.unbind(&sm1);
    assert_eq!(pio.memory().reference_count(&first), 0);
    assert!(pio.unload(first).is_ok());
    let (error, second) = pio.unload(second).unwrap_err();
    assert_eq!(error, Error::Busy);
    pio.release(sm0);
    assert_eq!(pio.memory().reference_count(&second), 0);
    assert!(pio.unload(second).is_ok());
}

#[test]
fn all_four_machines_may_share_a_program() {
    let mut pio = PioBlock::new(0, Addressing::Wrapping);
    let loaded = pio.load(&blink(), Some(28)).unwrap();
    let mut handles = Vec::new();
    for machine in 0u8..4 {
        let sm = pio.claim(machine).unwrap();
        pio.bind(&sm, &loaded);
        assert_eq!(pio.machine(&sm).pc, 28);
        handles.push(sm);
    }
    assert_eq!(pio.memory().reference_count(&loaded), 4);
    for sm in handles {
        pio.release(sm);
    }
    assert_eq!(pio.memory().reference_count(&loaded), 0);
}

#[test]
fn release_stops_unbinds_and_frees_the_machine() {
    let mut pio = PioBlock::new(0, Addressing::Wrapping);
    let loaded = pio.load(&blink(), None).unwrap();
    let sm = pio.claim(3).unwrap();
    assert_eq!(pio.configure(&sm, StateMachineConfig::reset()), Ok(()));
    pio.bind(&sm, &loaded);
    pio.start(&sm);
    assert_eq!(pio.ctrl(), 0b1000);
    assert!(pio.is_claimed(3));
    assert_eq!(pio.release(sm), RegWrite { alias: Alias::BitClear, bits: 0b1000 });
    assert_eq!(pio.ctrl(), 0);
    assert!(!pio.is_claimed(3));
    assert_eq!(pio.memory().reference_count(&loaded), 0);
    assert!(pio.unload(loaded).is_ok());
}

#[test]
fn a_released_machine_is_claimed_as_new() {
    let mut used = PioBlock::new(0, Addressing::Wrapping);
    let loaded = used.load(&blink(), None).unwrap();
    let sm = used.claim(1).unwrap();
    assert_eq!(used.configure(&sm, StateMachineConfig::reset()), Ok(()));
    used.bind(&sm, &loaded);
    used.start(&sm);
    used.release(sm);
    let again = used.claim(1).unwrap();

    let mut new = PioBlock::new(0, Addressing::Wrapping);
    let first = new.claim(1).unwrap();

    assert_eq!(used.machine(&again), new.machine(&first));
    assert_eq!(
        used.machine(&again),
        Machine { claimed: true, config: None, bound: None, pc: 0 }
    );
    assert_eq!(used.is_running(&again), new.is_running(&first));
    assert!(!used.is_running(&again));
    assert_eq!(used.ctrl(), new.ctrl());
    assert_eq!((again.block(), again.machine()), (first.block(), first.machine()));
}

#[test]
fn a_claim_holds_whatever_happens_in_between() {
    let mut pio = PioBlock::new(0, Addressing::Wrapping);
    let sm1 = pio.claim(1).unwrap();
    let loaded = pio.load(&blink(), None).unwrap();
    let sm0 = pio.claim(0).unwrap();
    pio.bind(&sm1, &loaded);
    pio.start(&sm1);
    pio.start(&sm0);
    pio.release(sm0);
    pio.stop(&sm1);
    assert_eq!(pio.configure(&sm1, StateMachineConfig::reset()), Ok(()));
    pio.unbind(&sm1);
    assert!(pio.unload(loaded).is_ok());
    let ctrl = pio.ctrl();
    let record = pio.machine(&sm1);
    let free = pio.memory().free_ranges();
    assert_eq!(pio.claim(1).unwrap_err(), Error::AlreadyClaimed);
    // the failed claim changed nothing
    assert_eq!(pio.ctrl(), ctrl);
    assert_eq!(pio.machine(&sm1), record);
    assert_eq!(pio.memory().free_ranges(), free);
    assert!(pio.is_claimed(1));
    assert!(!pio.is_claimed(0));
    assert!(pio.claim(0).is_ok());
}

#[test]
fn the_machines_of_a_block_are_claimed_one_by_one() {
    let mut pio = PioBlock::new(1, Addressing::Strict);
    for machine in 0u8..4 {
        assert!(!pio.is_claimed(machine));
        let sm = pio.claim(machine).unwrap();
        assert_eq!((sm.block(), sm.machine()), (1, machine));
        assert!(pio.is_claimed(machine));
        assert_eq!(pio.claim(machine).unwrap_err(), Error::AlreadyClaimed);
    }
    assert!(!pio.is_claimed(4));
}

#[test]
fn a_halted_machine_executes_any_instruction() {
    let mut pio = PioBlock::new(0, Addressing::Wrapping);
    let sm = pio.claim(0).unwrap();
    for word in [0x0005u16, 0x2020, 0x4001, 0x6001, 0x8000, 0xa042, 0xc000, 0xe081] {
        assert_eq!(pio.exec(&sm, word), Ok(word));
    }
}

#[test]
fn a_running_machine_executes_only_immediate_writes() {
    let mut pio = PioBlock::new(0, Addressing::Wrapping);
    let sm = pio.claim(0).unwrap();
    let other = pio.claim(1).unwrap();
    pio.start(&sm);
    assert_eq!(pio.exec(&sm, 0xe081), Ok(0xe081));
    assert_eq!(pio.exec(&sm, 0xff9f), Ok(0xff9f));
    for word in [0x0005u16, 0x2020, 0x4001, 0x6001, 0x8000, 0xa042, 0xc000] {
        assert_eq!(pio.exec(&sm, word), Err(Error::NotHalted));
        assert_eq!(pio.exec(&other, word), Ok(word));
    }
    pio.stop(&sm);
    assert_eq!(pio.exec(&sm, 0x0005), Ok(0x0005));
}
