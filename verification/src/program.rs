//! Programs as the assembler hands them over.

use crate::instr::DELAY_SIDESET_BITS;
use vstd::prelude::*;

verus! {

/// An assembled program: its instruction words and what the loader has to
/// know about them. The addresses in it, the jump targets and both ends of
/// the wrap, count from the first word of the program.
///
/// A program is never empty and its side-set takes at most five bits. It may
/// be longer than the instruction memory; loading it then fails.
pub struct Program {
    code: Vec<u16>,
    side_set_width: u8,
    side_set_pin_base: Option<u8>,
    wrap_source: u8,
    wrap_target: u8,
    origin: Option<u8>,
}

/// The mathematical value of a [`Program`].
pub struct ProgramView {
    /// The instruction words in order.
    pub code: Seq<u16>,
    /// Number of the five delay / side-set bits that hold the side-set.
    pub side_set_width: u8,
    /// First pin that the side-set drives, where the program fixes it.
    pub side_set_pin_base: Option<u8>,
    /// Offset of the last instruction of the wrapped loop.
    pub wrap_source: u8,
    /// Offset of the instruction that follows the wrap source.
    pub wrap_target: u8,
    /// The slot the program must be loaded at, where it asks for one.
    pub origin: Option<u8>,
}

impl ProgramView {
    /// What every program satisfies.
    pub open spec fn wf(self) -> bool {
        &&& self.code.len() >= 1
        &&& self.side_set_width <= DELAY_SIDESET_BITS
    }
}

impl View for Program {
    type V = ProgramView;

    closed spec fn view(&self) -> ProgramView {
        ProgramView {
            code: self.code@,
            side_set_width: self.side_set_width,
            side_set_pin_base: self.side_set_pin_base,
            wrap_source: self.wrap_source,
            wrap_target: self.wrap_target,
            origin: self.origin,
        }
    }
}

impl Program {
    /// What holds of every program.
    #[verifier::type_invariant]
    pub open spec fn inv(self) -> bool {
        self@.wf()
    }

    /// A program of the given words, or `None` where there is no word or the
    /// side-set is wider than the field it shares with the delay.
    pub fn new(
        code: Vec<u16>,
        side_set_width: u8,
        side_set_pin_base: Option<u8>,
        wrap_source: u8,
        wrap_target: u8,
        origin: Option<u8>,
    ) -> (program: Option<Self>)
        ensures
            program is Some <==> code@.len() >= 1 && side_set_width <= DELAY_SIDESET_BITS,
            program matches Some(p) ==> p@ == (ProgramView {
                code: code@,
                side_set_width,
                side_set_pin_base,
                wrap_source,
                wrap_target,
                origin,
            }),
    {
        if code.len() == 0 || side_set_width > DELAY_SIDESET_BITS {
            None
        } else {
            Some(
                Program {
                    code,
                    side_set_width,
                    side_set_pin_base,
                    wrap_source,
                    wrap_target,
                    origin,
                },
            )
        }
    }

    /// Number of instruction words.
    pub fn len(&self) -> (len: usize)
        ensures
            len == self@.code.len(),
            len >= 1,
    {
        proof {
            use_type_invariant(self);
        }
        self.code.len()
    }

    /// The instruction word at offset `index`.
    pub fn word(&self, index: usize) -> (word: Option<u16>)
        ensures
            word == if index < self@.code.len() {
                Some(self@.code[index as int])
            } else {
                None::<u16>
            },
    {
        if index < self.code.len() {
            Some(self.code[index])
        } else {
            None
        }
    }

    /// The instruction words in order.
    pub fn code(&self) -> (code: &Vec<u16>)
        ensures
            code@ == self@.code,
    {
        &self.code
    }

    /// Number of the five delay / side-set bits that hold the side-set.
    pub fn side_set_width(&self) -> (width: u8)
        ensures
            width == self@.side_set_width,
            width <= DELAY_SIDESET_BITS,
    {
        proof {
            use_type_invariant(self);
        }
        self.side_set_width
    }

    /// First pin that the side-set drives, where the program fixes it.
    pub fn side_set_pin_base(&self) -> (pin: Option<u8>)
        ensures
            pin == self@.side_set_pin_base,
    {
        self.side_set_pin_base
    }

    /// Offset of the last instruction of the wrapped loop.
    pub fn wrap_source(&self) -> (offset: u8)
        ensures
            offset == self@.wrap_source,
    {
        self.wrap_source
    }

    /// Offset of the instruction that follows the wrap source.
    pub fn wrap_target(&self) -> (offset: u8)
        ensures
            offset == self@.wrap_target,
    {
        self.wrap_target
    }

    /// The slot the program must be loaded at, where it asks for one.
    pub fn origin(&self) -> (origin: Option<u8>)
        ensures
            origin == self@.origin,
    {
        self.origin
    }
}

} // verus!
