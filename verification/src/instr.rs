//! The codec of 16-bit PIO instruction words.
//!
//! A word has three parts. Bits 15..13 are the opcode class. Bits 12..8 are
//! shared by the side-set value, in the upper bits, and the delay count, in
//! the lower ones; how many of the five bits the side-set takes is a matter
//! of the program. Bits 7..0 are the operands; in a jump, bits 7..5 are the
//! condition and bits 4..0 the target slot.

use crate::error::Error;
use vstd::prelude::*;

verus! {

/// Number of bits that the delay count and the side-set value share.
pub const DELAY_SIDESET_BITS: u8 = 5;

/// The eight opcode classes, in the order of their encoding.
#[derive(Clone, Copy, Debug, PartialEq, Eq, Structural)]
pub enum OpcodeClass {
    /// Jump to a slot.
    Jmp,
    /// Stall until a condition holds.
    Wait,
    /// Shift bits into the input shift register.
    In,
    /// Shift bits out of the output shift register.
    Out,
    /// Move a shift register to or from a FIFO.
    PushPull,
    /// Copy between registers.
    Mov,
    /// Raise, clear or wait for an interrupt flag.
    Irq,
    /// Write an immediate to pins, pin directions or a scratch register.
    SetImm,
}

/// The opcode class of a word.
pub open spec fn spec_opcode_class(raw: u16) -> OpcodeClass {
    let top = raw >> 13;
    if top == 0 {
        OpcodeClass::Jmp
    } else if top == 1 {
        OpcodeClass::Wait
    } else if top == 2 {
        OpcodeClass::In
    } else if top == 3 {
        OpcodeClass::Out
    } else if top == 4 {
        OpcodeClass::PushPull
    } else if top == 5 {
        OpcodeClass::Mov
    } else if top == 6 {
        OpcodeClass::Irq
    } else {
        OpcodeClass::SetImm
    }
}

/// The opcode class of a word.
#[verifier::when_used_as_spec(spec_opcode_class)]
pub fn opcode_class(raw: u16) -> (class: OpcodeClass)
    ensures
        class == spec_opcode_class(raw),
{
    let top: u16 = raw >> 13;
    if top == 0 {
        OpcodeClass::Jmp
    } else if top == 1 {
        OpcodeClass::Wait
    } else if top == 2 {
        OpcodeClass::In
    } else if top == 3 {
        OpcodeClass::Out
    } else if top == 4 {
        OpcodeClass::PushPull
    } else if top == 5 {
        OpcodeClass::Mov
    } else if top == 6 {
        OpcodeClass::Irq
    } else {
        OpcodeClass::SetImm
    }
}

/// Whether a word is a jump: the one class whose operands hold an address.
pub open spec fn spec_is_jump(raw: u16) -> bool {
    raw >> 13 == 0
}

/// Whether a word is a jump: the one class whose operands hold an address.
#[verifier::when_used_as_spec(spec_is_jump)]
pub fn is_jump(raw: u16) -> (jump: bool)
    ensures
        jump == spec_is_jump(raw),
{
    raw >> 13 == 0
}

/// The target field of a word: its five lowest bits.
pub open spec fn spec_jump_target(raw: u16) -> u8 {
    (raw & 0x1f) as u8
}

/// The target slot of a jump. On a word of another class the five bits mean
/// something else.
#[verifier::when_used_as_spec(spec_jump_target)]
pub fn jump_target(raw: u16) -> (target: u8)
    ensures
        target == spec_jump_target(raw),
        target < 32,
{
    let field: u16 = raw & 0x1f;
    assert(field < 32) by (bit_vector)
        requires
            field == raw & 0x1f,
    ;
    field as u8
}

/// A word with its target field replaced.
pub open spec fn spec_patch_jump_target(raw: u16, target: u8) -> u16 {
    (raw & 0xffe0) | (target as u16)
}

/// What patching keeps and what it changes: the result is a jump to `target`
/// that agrees with `raw` in every bit above the target field.
pub proof fn lemma_patch_jump_target(raw: u16, target: u8)
    requires
        target < 32,
    ensures
        spec_jump_target(spec_patch_jump_target(raw, target)) == target,
        spec_patch_jump_target(raw, target) & 0xffe0 == raw & 0xffe0,
        spec_patch_jump_target(raw, target) >> 13 == raw >> 13,
        spec_is_jump(spec_patch_jump_target(raw, target)) == spec_is_jump(raw),
        spec_opcode_class(spec_patch_jump_target(raw, target)) == spec_opcode_class(raw),
        spec_delay_sideset(spec_patch_jump_target(raw, target)) == spec_delay_sideset(raw),
{
    let t = target as u16;
    let p = spec_patch_jump_target(raw, target);
    assert(((raw & 0xffe0) | t) & 0x1f == t && ((raw & 0xffe0) | t) & 0xffe0 == raw & 0xffe0 && ((
    raw & 0xffe0) | t) >> 13 == raw >> 13 && (((raw & 0xffe0) | t) >> 8) & 0x1f == (raw >> 8)
        & 0x1f) by (bit_vector)
        requires
            t < 32,
    ;
}

/// Rewrites the target field of a jump and nothing else: the opcode, the
/// condition, the delay and the side-set keep their bits.
///
/// The word must be a jump; on any other class the field is not an address.
pub fn patch_jump_target(raw: u16, new_target: u8) -> (patched: u16)
    requires
        spec_is_jump(raw),
        new_target < 32,
    ensures
        patched == spec_patch_jump_target(raw, new_target),
        spec_is_jump(patched),
        spec_jump_target(patched) == new_target,
        patched & 0xffe0 == raw & 0xffe0,
{
    proof {
        lemma_patch_jump_target(raw, new_target);
    }
    (raw & 0xffe0) | (new_target as u16)
}

/// The five bits that the delay and the side-set share.
pub open spec fn spec_delay_sideset(raw: u16) -> u8 {
    ((raw >> 8) & 0x1f) as u8
}

/// The five bits that the delay and the side-set share.
#[verifier::when_used_as_spec(spec_delay_sideset)]
pub fn delay_sideset(raw: u16) -> (field: u8)
    ensures
        field == spec_delay_sideset(raw),
        field < 32,
{
    let field: u16 = (raw >> 8) & 0x1f;
    assert(field < 32) by (bit_vector)
        requires
            field == (raw >> 8) & 0x1f,
    ;
    field as u8
}

/// Number of bits left for the delay count when the side-set takes
/// `side_set_width` of the five.
pub open spec fn delay_bits(side_set_width: u8) -> u8 {
    (DELAY_SIDESET_BITS - side_set_width) as u8
}

/// The delay count of a word of a program with the given side-set width.
pub open spec fn spec_delay(raw: u16, side_set_width: u8) -> u8 {
    spec_delay_sideset(raw) & (((1u8 << delay_bits(side_set_width)) - 1) as u8)
}

/// The delay count of a word of a program with the given side-set width.
#[verifier::when_used_as_spec(spec_delay)]
pub fn delay(raw: u16, side_set_width: u8) -> (count: u8)
    requires
        side_set_width <= DELAY_SIDESET_BITS,
    ensures
        count == spec_delay(raw, side_set_width),
{
    let field: u8 = delay_sideset(raw);
    let bits: u8 = DELAY_SIDESET_BITS - side_set_width;
    let limit: u8 = 1u8 << bits;
    assert(1 <= limit) by (bit_vector)
        requires
            bits <= 5,
            limit == 1u8 << bits,
    ;
    field & (limit - 1)
}

/// The side-set value of a word of a program with the given side-set width.
pub open spec fn spec_side_set(raw: u16, side_set_width: u8) -> u8 {
    spec_delay_sideset(raw) >> delay_bits(side_set_width)
}

/// The side-set value of a word of a program with the given side-set width.
#[verifier::when_used_as_spec(spec_side_set)]
pub fn side_set(raw: u16, side_set_width: u8) -> (value: u8)
    requires
        side_set_width <= DELAY_SIDESET_BITS,
    ensures
        value == spec_side_set(raw, side_set_width),
{
    let field: u8 = delay_sideset(raw);
    let bits: u8 = DELAY_SIDESET_BITS - side_set_width;
    field >> bits
}

/// Whether a delay count and a side-set value fit their parts of the field:
/// the side-set in `side_set_width` bits, the delay in the rest of the five.
pub open spec fn encodable(side_set_width: u8, delay: u8, sideset_bits: u8) -> bool {
    &&& side_set_width <= DELAY_SIDESET_BITS
    &&& sideset_bits < (1u8 << side_set_width)
    &&& delay < (1u8 << delay_bits(side_set_width))
}

/// The shared field that holds the given side-set value and delay count.
pub open spec fn delay_sideset_field(side_set_width: u8, delay: u8, sideset_bits: u8) -> u8 {
    (sideset_bits << delay_bits(side_set_width)) | delay
}

/// A word with its delay / side-set field replaced.
pub open spec fn spec_with_delay_sideset(raw: u16, field: u8) -> u16 {
    (raw & 0xe0ff) | ((field as u16) << 8)
}

/// Decoding what was encoded gives the operands back, and the opcode class
/// and the operand byte of the word are untouched.
pub proof fn lemma_encode_delay_sideset(raw: u16, side_set_width: u8, delay: u8, sideset_bits: u8)
    requires
        encodable(side_set_width, delay, sideset_bits),
    ensures
        ({
            let word = spec_with_delay_sideset(
                raw,
                delay_sideset_field(side_set_width, delay, sideset_bits),
            );
            &&& delay_sideset_field(side_set_width, delay, sideset_bits) < 32
            &&& spec_delay_sideset(word) == delay_sideset_field(
                side_set_width,
                delay,
                sideset_bits,
            )
            &&& spec_delay(word, side_set_width) == delay
            &&& spec_side_set(word, side_set_width) == sideset_bits
            &&& spec_opcode_class(word) == spec_opcode_class(raw)
            &&& word & 0xe0ff == raw & 0xe0ff
            &&& spec_jump_target(word) == spec_jump_target(raw)
        }),
{
    let w = side_set_width;
    let b: u8 = delay_bits(w);
    let f: u8 = delay_sideset_field(w, delay, sideset_bits);
    let word: u16 = spec_with_delay_sideset(raw, f);
    assert(f == (sideset_bits << b) | delay);
    assert(f < 32 && f & (((1u8 << b) - 1) as u8) == delay && f >> b == sideset_bits)
        by (bit_vector)
        requires
            w <= 5,
            b == (5 - w) as u8,
            sideset_bits < (1u8 << w),
            delay < (1u8 << b),
            f == (sideset_bits << b) | delay,
    ;
    let x: u16 = f as u16;
    assert((((raw & 0xe0ff) | (x << 8)) >> 8) & 0x1f == x && ((raw & 0xe0ff) | (x << 8)) >> 13
        == raw >> 13 && ((raw & 0xe0ff) | (x << 8)) & 0xe0ff == raw & 0xe0ff && ((raw & 0xe0ff) | (x
        << 8)) & 0x1f == raw & 0x1f) by (bit_vector)
        requires
            x < 32,
    ;
}

/// Writes a delay count and a side-set value into a word.
///
/// Fails with `InvalidOperand` where the side-set value does not fit the
/// declared side-set width, or the delay does not fit the bits that the
/// side-set leaves of the five.
pub fn encode_delay_sideset(raw: u16, side_set_width: u8, delay: u8, sideset_bits: u8) -> (word:
    Result<u16, Error>)
    ensures
        word == if encodable(side_set_width, delay, sideset_bits) {
            Ok::<u16, Error>(
                spec_with_delay_sideset(
                    raw,
                    delay_sideset_field(side_set_width, delay, sideset_bits),
                ),
            )
        } else {
            Err::<u16, Error>(Error::InvalidOperand)
        },
        word matches Ok(w) ==> {
            &&& spec_delay(w, side_set_width) == delay
            &&& spec_side_set(w, side_set_width) == sideset_bits
            &&& spec_opcode_class(w) == spec_opcode_class(raw)
            &&& w & 0xe0ff == raw & 0xe0ff
        },
{
    if side_set_width > DELAY_SIDESET_BITS {
        return Err(Error::InvalidOperand);
    }
    let bits: u8 = DELAY_SIDESET_BITS - side_set_width;
    if sideset_bits >= (1u8 << side_set_width) || delay >= (1u8 << bits) {
        return Err(Error::InvalidOperand);
    }
    proof {
        lemma_encode_delay_sideset(raw, side_set_width, delay, sideset_bits);
    }
    let field: u8 = (sideset_bits << bits) | delay;
    Ok((raw & 0xe0ff) | ((field as u16) << 8))
}

} // verus!
