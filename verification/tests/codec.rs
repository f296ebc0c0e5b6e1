use embassy_rp::error::Error;
use embassy_rp::instr::{
    delay, delay_sideset, encode_delay_sideset, is_jump, jump_target, opcode_class,
    patch_jump_target, side_set, OpcodeClass,
};

#[test]
fn opcode_class_follows_the_top_three_bits() {
    assert_eq!(opcode_class(0x0000), OpcodeClass::Jmp);
    assert_eq!(opcode_class(0x2000), OpcodeClass::Wait);
    assert_eq!(opcode_class(0x4000), OpcodeClass::In);
    assert_eq!(opcode_class(0x6000), OpcodeClass::Out);
    assert_eq!(opcode_class(0x8000), OpcodeClass::PushPull);
    assert_eq!(opcode_class(0xa000), OpcodeClass::Mov);
    assert_eq!(opcode_class(0xc000), OpcodeClass::Irq);
    assert_eq!(opcode_class(0xe000), OpcodeClass::SetImm);
    assert_eq!(opcode_class(0x1fff), OpcodeClass::Jmp);
    assert_eq!(opcode_class(0xffff), OpcodeClass::SetImm);
}

#[test]
fn only_class_zero_is_a_jump() {
    assert!(is_jump(0x0000));
    assert!(is_jump(0x1fff));
    assert!(!is_jump(0x2000));
    assert!(!is_jump(0xe01f));
}

#[test]
fn jump_target_is_the_low_five_bits() {
    assert_eq!(jump_target(0x0000), 0);
    assert_eq!(jump_target(0x001f), 31);
    assert_eq!(jump_target(0x00e5), 5);
    assert_eq!(jump_target(0x1f47), 7);
}

#[test]
fn patch_rewrites_the_target_and_nothing_else() {
    // jmp with condition 2, delay field 0x1f, target 7
    assert_eq!(patch_jump_target(0x1f47, 12), 0x1f4c);
    assert_eq!(patch_jump_target(0x0000, 31), 0x001f);
    assert_eq!(patch_jump_target(0x00ff, 0), 0x00e0);
    assert_eq!(jump_target(patch_jump_target(0x1f47, 12)), 12);
}

#[test]
fn patch_to_the_same_target_changes_nothing() {
    for raw in [0x0000u16, 0x0045, 0x1fff, 0x0a13] {
        assert_eq!(patch_jump_target(raw, jump_target(raw)), raw);
    }
}

#[test]
fn delay_sideset_field_is_bits_eight_to_twelve() {
    assert_eq!(delay_sideset(0x1f00), 31);
    assert_eq!(delay_sideset(0xe0ff), 0);
    assert_eq!(delay_sideset(0xfd81), 29);
}

#[test]
fn encode_places_side_set_above_delay() {
    // width 2: the side-set takes bits 12..11, the delay bits 10..8
    assert_eq!(encode_delay_sideset(0xe081, 2, 5, 3), Ok(0xfd81));
    assert_eq!(delay(0xfd81, 2), 5);
    assert_eq!(side_set(0xfd81, 2), 3);
    assert_eq!(opcode_class(0xfd81), OpcodeClass::SetImm);
}

#[test]
fn encode_replaces_an_earlier_field() {
    assert_eq!(encode_delay_sideset(0xffff, 1, 0, 0), Ok(0xe0ff));
    assert_eq!(encode_delay_sideset(0xffff, 1, 15, 1), Ok(0xffff));
    assert_eq!(encode_delay_sideset(0x0045, 3, 2, 5), Ok(0x1645));
}

#[test]
fn encode_without_side_set_gives_the_delay_all_five_bits() {
    assert_eq!(encode_delay_sideset(0x0000, 0, 31, 0), Ok(0x1f00));
    assert_eq!(delay(0x1f00, 0), 31);
    assert_eq!(side_set(0x1f00, 0), 0);
    assert_eq!(encode_delay_sideset(0x0000, 0, 0, 1), Err(Error::InvalidOperand));
}

#[test]
fn encode_with_full_side_set_leaves_no_delay() {
    assert_eq!(encode_delay_sideset(0x0000, 5, 0, 31), Ok(0x1f00));
    assert_eq!(delay(0x1f00, 5), 0);
    assert_eq!(side_set(0x1f00, 5), 31);
    assert_eq!(encode_delay_sideset(0x0000, 5, 1, 0), Err(Error::InvalidOperand));
}

#[test]
fn encode_refuses_a_side_set_value_wider_than_declared() {
    assert_eq!(encode_delay_sideset(0xe081, 2, 0, 4), Err(Error::InvalidOperand));
    assert_eq!(encode_delay_sideset(0xe081, 2, 0, 3), Ok(0xf881));
}

#[test]
fn encode_refuses_a_delay_wider_than_the_bits_left() {
    assert_eq!(encode_delay_sideset(0xe081, 2, 8, 0), Err(Error::InvalidOperand));
    assert_eq!(encode_delay_sideset(0xe081, 2, 7, 0), Ok(0xe781));
}

#[test]
fn encode_refuses_a_side_set_wider_than_the_field() {
    assert_eq!(encode_delay_sideset(0xe081, 6, 0, 0), Err(Error::InvalidOperand));
    assert_eq!(encode_delay_sideset(0xe081, 255, 0, 0), Err(Error::InvalidOperand));
}

#[test]
fn decoding_gives_back_what_was_encoded() {
    for width in 0u8..=5 {
        for value in 0u8..(1 << width) {
            for count in 0u8..(1 << (5 - width)) {
                let word = encode_delay_sideset(0xa042, width, count, value).unwrap();
                assert_eq!(delay(word, width), count);
                assert_eq!(side_set(word, width), value);
                assert_eq!(word & 0xe0ff, 0xa042);
            }
        }
    }
}
