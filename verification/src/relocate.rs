//! Relocation: rewriting the addresses of a program for the slot it is
//! loaded at.
//!
//! A program is assembled as if its first word stood in slot 0. Loaded at
//! `base`, every address in it moves up by `base`: the target of each jump
//! and both ends of the wrap. Nothing else in a word changes.

use crate::error::Error;
use crate::instr::{
    is_jump, jump_target, patch_jump_target, spec_is_jump, spec_jump_target,
    spec_patch_jump_target,
};
use crate::program::{Program, ProgramView};
use vstd::prelude::*;

verus! {

/// Number of slots of an instruction memory.
pub const SLOTS: u8 = 32;

/// What becomes of an address that relocation moves past the last slot.
#[derive(Clone, Copy, Debug, PartialEq, Eq, Structural)]
pub enum Addressing {
    /// The program counter wraps: addresses are taken modulo the number of
    /// slots.
    Wrapping,
    /// The hardware defines no wraparound: such a relocation is refused.
    Strict,
}

/// A program with its addresses rewritten for one base.
#[derive(Debug, PartialEq, Eq)]
pub struct Relocated {
    /// The rewritten instruction words.
    pub code: Vec<u16>,
    /// The slot of the first word.
    pub origin: u8,
    /// Slot of the last instruction of the wrapped loop.
    pub wrap_source: u8,
    /// Slot of the instruction that follows the wrap source.
    pub wrap_target: u8,
}

/// The mathematical value of a [`Relocated`].
pub struct RelocatedView {
    /// The rewritten instruction words.
    pub code: Seq<u16>,
    /// The slot of the first word.
    pub origin: u8,
    /// Slot of the last instruction of the wrapped loop.
    pub wrap_source: u8,
    /// Slot of the instruction that follows the wrap source.
    pub wrap_target: u8,
}

impl View for Relocated {
    type V = RelocatedView;

    open spec fn view(&self) -> RelocatedView {
        RelocatedView {
            code: self.code@,
            origin: self.origin,
            wrap_source: self.wrap_source,
            wrap_target: self.wrap_target,
        }
    }
}

/// Whether `address`, moved up by `base`, is still a slot.
pub open spec fn address_in_range(address: u8, base: u8) -> bool {
    address + base < SLOTS
}

/// `address` moved up by `base`, modulo the number of slots.
pub open spec fn relocated_address(address: u8, base: u8) -> u8 {
    ((address + base) % (SLOTS as int)) as u8
}

/// Whether relocating `raw` by `base` keeps its address, if it has one, in
/// the instruction memory.
pub open spec fn word_in_range(raw: u16, base: u8) -> bool {
    spec_is_jump(raw) ==> address_in_range(spec_jump_target(raw), base)
}

/// `raw` relocated by `base`: a jump gets its target moved, any other word
/// stays as it is.
pub open spec fn relocated_word(raw: u16, base: u8) -> u16 {
    if spec_is_jump(raw) {
        spec_patch_jump_target(raw, relocated_address(spec_jump_target(raw), base))
    } else {
        raw
    }
}

/// Whether every word of `code` stays in range when relocated by `base`.
pub open spec fn code_in_range(code: Seq<u16>, base: u8) -> bool {
    forall|i: int| 0 <= i < code.len() ==> word_in_range(#[trigger] code[i], base)
}

/// `code` relocated by `base`, word by word.
pub open spec fn relocated_code(code: Seq<u16>, base: u8) -> Seq<u16> {
    Seq::new(code.len(), |i: int| relocated_word(code[i], base))
}

/// Whether strict addressing accepts the relocation of `program` by `base`.
pub open spec fn in_range(program: ProgramView, base: u8) -> bool {
    &&& code_in_range(program.code, base)
    &&& address_in_range(program.wrap_source, base)
    &&& address_in_range(program.wrap_target, base)
}

/// The relocation of `program` to `base`.
///
/// It fails with `CapacityExceeded` where the program would run past the
/// last slot, and, under strict addressing only, with `RelocationOutOfRange`
/// where a jump target or an end of the wrap would.
pub open spec fn relocate_spec(program: ProgramView, base: u8, addressing: Addressing) -> Result<
    RelocatedView,
    Error,
> {
    if base + program.code.len() > SLOTS {
        Err(Error::CapacityExceeded)
    } else if addressing == Addressing::Strict && !in_range(program, base) {
        Err(Error::RelocationOutOfRange)
    } else {
        Ok(
            RelocatedView {
                code: relocated_code(program.code, base),
                origin: base,
                wrap_source: relocated_address(program.wrap_source, base),
                wrap_target: relocated_address(program.wrap_target, base),
            },
        )
    }
}

/// Moves `address` up by `base`.
pub fn relocate_address(address: u8, base: u8, addressing: Addressing) -> (moved: Result<u8, Error>)
    ensures
        moved == if addressing == Addressing::Strict && !address_in_range(address, base) {
            Err::<u8, Error>(Error::RelocationOutOfRange)
        } else {
            Ok::<u8, Error>(relocated_address(address, base))
        },
        moved matches Ok(slot) ==> slot < SLOTS,
{
    let sum: u16 = address as u16 + base as u16;
    if addressing == Addressing::Strict && sum >= SLOTS as u16 {
        Err(Error::RelocationOutOfRange)
    } else {
        Ok((sum % (SLOTS as u16)) as u8)
    }
}

/// Relocates one instruction word by `base`.
pub fn relocate_word(raw: u16, base: u8, addressing: Addressing) -> (moved: Result<u16, Error>)
    ensures
        moved == if addressing == Addressing::Strict && !word_in_range(raw, base) {
            Err::<u16, Error>(Error::RelocationOutOfRange)
        } else {
            Ok::<u16, Error>(relocated_word(raw, base))
        },
{
    if is_jump(raw) {
        match relocate_address(jump_target(raw), base, addressing) {
            Ok(target) => Ok(patch_jump_target(raw, target)),
            Err(e) => Err(e),
        }
    } else {
        Ok(raw)
    }
}

/// Relocates `program` to `base`: every jump target and both ends of the
/// wrap move up by `base`.
///
/// The result depends on the arguments alone.
pub fn relocate(program: &Program, base: u8, addressing: Addressing) -> (relocated: Result<
    Relocated,
    Error,
>)
    ensures
        match relocated {
            Ok(r) => relocate_spec(program@, base, addressing) == Ok::<RelocatedView, Error>(r@),
            Err(e) => relocate_spec(program@, base, addressing) == Err::<RelocatedView, Error>(e),
        },
{
    let code = program.code();
    let len = code.len();
    if len > SLOTS as usize || base as usize + len > SLOTS as usize {
        return Err(Error::CapacityExceeded);
    }
    let wrap_source = match relocate_address(program.wrap_source(), base, addressing) {
        Ok(slot) => slot,
        Err(e) => {
            return Err(e);
        },
    };
    let wrap_target = match relocate_address(program.wrap_target(), base, addressing) {
        Ok(slot) => slot,
        Err(e) => {
            return Err(e);
        },
    };
    let mut moved: Vec<u16> = Vec::new();
    let mut i: usize = 0;
    while i < len
        invariant
            i <= len,
            len == code@.len(),
            code@ == program@.code,
            base + len <= SLOTS,
            wrap_source == relocated_address(program@.wrap_source, base),
            wrap_target == relocated_address(program@.wrap_target, base),
            addressing == Addressing::Strict ==> address_in_range(program@.wrap_source, base)
                && address_in_range(program@.wrap_target, base),
            moved@.len() == i,
            forall|j: int| 0 <= j < i ==> moved@[j] == relocated_word(#[trigger] code@[j], base),
            addressing == Addressing::Strict ==> forall|j: int|
                0 <= j < i ==> word_in_range(#[trigger] code@[j], base),
        decreases len - i,
    {
        match relocate_word(code[i], base, addressing) {
            Ok(word) => {
                moved.push(word);
            },
            Err(e) => {
                assert(!word_in_range(code@[i as int], base));
                return Err(e);
            },
        }
        i = i + 1;
    }
    assert(moved@ =~= relocated_code(program@.code, base));
    Ok(Relocated { code: moved, origin: base, wrap_source, wrap_target })
}

} // verus!
