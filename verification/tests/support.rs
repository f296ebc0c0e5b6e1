use embassy_rp::config::{ClockConfig, Config};
use embassy_rp::error::Error;
use embassy_rp::interrupt::{Event, HandlerSet, InterruptRegistry, Vector};
use embassy_rp::mpu::{install_stack_guard, StackGuard};
use embassy_rp::reg::{alias_address, bit, Alias, Reg, RegWrite};

#[test]
fn config_new_keeps_the_clocks() {
    let config = Config::new(ClockConfig::crystal(16_000_000));
    assert_eq!(config.clocks.crystal_hz, 16_000_000);
    assert_eq!(config.clocks, ClockConfig { crystal_hz: 16_000_000 });
}

#[test]
fn the_default_config_is_a_twelve_megahertz_crystal() {
    assert_eq!(Config::default().clocks, ClockConfig::crystal(12_000_000));
}

#[test]
fn the_aliases_lie_at_fixed_offsets() {
    assert_eq!(Alias::Xor.offset(), 0x1000);
    assert_eq!(Alias::BitSet.offset(), 0x2000);
    assert_eq!(Alias::BitClear.offset(), 0x3000);
    assert_eq!(alias_address(0x5020_0000, Alias::Xor), Some(0x5020_1000));
    assert_eq!(alias_address(0x5020_0000, Alias::BitSet), Some(0x5020_2000));
    assert_eq!(alias_address(0x5030_0004, Alias::BitClear), Some(0x5030_3004));
    assert_eq!(alias_address(0xffff_efff, Alias::Xor), Some(0xffff_ffff));
    assert_eq!(alias_address(0xffff_f000, Alias::Xor), None);
    assert_eq!(alias_address(0xffff_ffff, Alias::BitClear), None);
}

#[test]
fn alias_writes_change_the_bits_written_as_one() {
    let mut reg = Reg::new(0b1100);
    assert_eq!(reg.write_xor(0b1010), RegWrite { alias: Alias::Xor, bits: 0b1010 });
    assert_eq!(reg.value(), 0b0110);
    assert_eq!(reg.write_set(0b0011), RegWrite { alias: Alias::BitSet, bits: 0b0011 });
    assert_eq!(reg.value(), 0b0111);
    assert_eq!(reg.write_clear(0b0101), RegWrite { alias: Alias::BitClear, bits: 0b0101 });
    assert_eq!(reg.value(), 0b0010);
    assert_eq!(reg.write_clear(0), RegWrite { alias: Alias::BitClear, bits: 0 });
    assert_eq!(reg.value(), 0b0010);
}

#[test]
fn a_plain_write_replaces_the_word() {
    let mut reg = Reg::new(0xffff_ffff);
    reg.write(0x0000_0005);
    assert_eq!(reg.value(), 5);
    assert_eq!(reg, Reg::new(5));
}

#[test]
fn applying_a_write_repeats_it_on_another_image() {
    let mut image = Reg::new(0xf0f0_f0f0);
    let mut mirror = Reg::new(0xf0f0_f0f0);
    for write in [image.write_set(0x0000_000f), image.write_xor(0xffff_0000), image.write_clear(0x00f0_00f0)]
    {
        mirror.apply(write);
    }
    assert_eq!(image.value(), 0x0f0f_f00f);
    assert_eq!(mirror, image);
}

#[test]
fn bit_reads_one_bit() {
    assert!(bit(0b0100, 2));
    assert!(!bit(0b0100, 1));
    assert!(bit(0x8000_0000, 31));
    assert!(!bit(0xffff_ffff, 32));
    assert!(!bit(0xffff_ffff, 255));
}

#[test]
fn the_stack_guard_covers_the_granule_at_the_stack_end() {
    assert_eq!(
        install_stack_guard(0, 0x2004_0000),
        Ok(StackGuard { ctrl: 5, rbar: 0x2004_0010, rasr: 0x1000_fe0f })
    );
}

#[test]
fn the_stack_guard_rounds_up_to_thirty_two_bytes() {
    assert_eq!(
        install_stack_guard(0, 0x2004_0021),
        Ok(StackGuard { ctrl: 5, rbar: 0x2004_0010, rasr: 0x1000_fb0f })
    );
    assert_eq!(
        install_stack_guard(0, 0x2004_00e1),
        Ok(StackGuard { ctrl: 5, rbar: 0x2004_0110, rasr: 0x1000_fe0f })
    );
    assert_eq!(
        install_stack_guard(0, 0x2004_00e0),
        Ok(StackGuard { ctrl: 5, rbar: 0x2004_0010, rasr: 0x1000_7f0f })
    );
    assert_eq!(
        install_stack_guard(0, 0xffff_ffe0),
        Ok(StackGuard { ctrl: 5, rbar: 0xffff_ff10, rasr: 0x1000_7f0f })
    );
}

#[test]
fn a_configured_protection_unit_is_left_alone() {
    assert_eq!(install_stack_guard(5, 0x2004_0000), Err(()));
    assert_eq!(install_stack_guard(1, 0x2004_0000), Err(()));
    assert_eq!(install_stack_guard(0x8000_0000, 0), Err(()));
}

#[test]
fn a_vector_is_bound_once() {
    let mut registry = InterruptRegistry::new();
    let first = HandlerSet { fifo_ready: 0b0001, fifo_empty: 0, irq_flags: 0 };
    let second = HandlerSet { fifo_ready: 0, fifo_empty: 0b1111, irq_flags: 0b1111 };
    assert!(!registry.is_bound(Vector::Pio0Irq0));
    assert_eq!(registry.bind(Vector::Pio0Irq0, first), Ok(()));
    assert!(registry.is_bound(Vector::Pio0Irq0));
    assert_eq!(registry.bind(Vector::Pio0Irq0, second), Err(Error::VectorAlreadyBound));
    // the first binding is still in place
    assert!(registry.routes(Vector::Pio0Irq0, Event::FifoReady { machine: 0 }));
    assert!(!registry.routes(Vector::Pio0Irq0, Event::FifoEmpty { machine: 0 }));
    assert_eq!(registry.bind(Vector::Pio0Irq0, first), Err(Error::VectorAlreadyBound));
}

#[test]
fn the_vectors_are_bound_apart() {
    let mut registry = InterruptRegistry::new();
    let handlers = HandlerSet { fifo_ready: 0b0100, fifo_empty: 0b0010, irq_flags: 0b1000 };
    for vector in [Vector::Pio1Irq1, Vector::Pio0Irq1, Vector::Pio1Irq0, Vector::Pio0Irq0] {
        assert!(!registry.is_bound(vector));
        assert_eq!(registry.bind(vector, handlers), Ok(()));
        assert!(registry.is_bound(vector));
    }
    assert_eq!(registry.bind(Vector::Pio1Irq0, handlers), Err(Error::VectorAlreadyBound));
}

#[test]
fn an_event_goes_to_the_handlers_that_serve_it() {
    let mut registry = InterruptRegistry::new();
    let handlers = HandlerSet { fifo_ready: 0b0100, fifo_empty: 0b0010, irq_flags: 0b1000 };
    assert!(!registry.routes(Vector::Pio1Irq0, Event::FifoReady { machine: 2 }));
    assert_eq!(registry.bind(Vector::Pio1Irq0, handlers), Ok(()));
    assert!(registry.routes(Vector::Pio1Irq0, Event::FifoReady { machine: 2 }));
    assert!(!registry.routes(Vector::Pio1Irq0, Event::FifoReady { machine: 1 }));
    assert!(registry.routes(Vector::Pio1Irq0, Event::FifoEmpty { machine: 1 }));
    assert!(!registry.routes(Vector::Pio1Irq0, Event::FifoEmpty { machine: 2 }));
    assert!(registry.routes(Vector::Pio1Irq0, Event::IrqFlag { flag: 3 }));
    assert!(!registry.routes(Vector::Pio1Irq0, Event::IrqFlag { flag: 0 }));
    assert!(!registry.routes(Vector::Pio1Irq0, Event::IrqFlag { flag: 4 }));
    assert!(!registry.routes(Vector::Pio1Irq1, Event::FifoReady { machine: 2 }));
}

#[test]
fn the_vectors_belong_to_their_blocks() {
    assert_eq!((Vector::Pio0Irq0.index(), Vector::Pio0Irq0.block()), (0, 0));
    assert_eq!((Vector::Pio0Irq1.index(), Vector::Pio0Irq1.block()), (1, 0));
    assert_eq!((Vector::Pio1Irq0.index(), Vector::Pio1Irq0.block()), (2, 1));
    assert_eq!((Vector::Pio1Irq1.index(), Vector::Pio1Irq1.block()), (3, 1));
}
