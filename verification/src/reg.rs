//! Atomic register aliases.
//!
//! Every writable peripheral register is mapped four times: at its own
//! address, where a write replaces the whole word, and at three fixed offsets
//! above it, where a write flips, sets or clears exactly the bits that are one
//! in the written word. A single bus write to an alias therefore updates one
//! field without a read-modify-write, and two such writes to different bits
//! commute. [`Reg`] is the image of one register; its three alias operations
//! are the only partial updates the driver uses.

use vstd::prelude::*;

verus! {

/// One of the three atomic aliases of a register.
#[derive(Clone, Copy, Debug, PartialEq, Eq, Structural)]
pub enum Alias {
    /// Bits written as one are flipped.
    Xor,
    /// Bits written as one are set.
    BitSet,
    /// Bits written as one are cleared.
    BitClear,
}

/// Distance in bytes from a register to its XOR alias.
pub const XOR_ALIAS_OFFSET: u32 = 0x1000;

/// Distance in bytes from a register to its bit-set alias.
pub const SET_ALIAS_OFFSET: u32 = 0x2000;

/// Distance in bytes from a register to its bit-clear alias.
pub const CLEAR_ALIAS_OFFSET: u32 = 0x3000;

impl Alias {
    /// Distance in bytes from a register to this alias of it.
    pub open spec fn spec_offset(self) -> u32 {
        match self {
            Alias::Xor => XOR_ALIAS_OFFSET,
            Alias::BitSet => SET_ALIAS_OFFSET,
            Alias::BitClear => CLEAR_ALIAS_OFFSET,
        }
    }

    /// Distance in bytes from a register to this alias of it.
    #[verifier::when_used_as_spec(spec_offset)]
    pub fn offset(self) -> (offset: u32)
        ensures
            offset == self.spec_offset(),
    {
        match self {
            Alias::Xor => XOR_ALIAS_OFFSET,
            Alias::BitSet => SET_ALIAS_OFFSET,
            Alias::BitClear => CLEAR_ALIAS_OFFSET,
        }
    }

    /// The word a register holds after `bits` was written to this alias of
    /// it while it held `value`.
    pub open spec fn apply(self, value: u32, bits: u32) -> u32 {
        match self {
            Alias::Xor => value ^ bits,
            Alias::BitSet => value | bits,
            Alias::BitClear => value & !bits,
        }
    }
}

/// Address of the `alias` of the register at `register`, or `None` where it
/// would lie beyond the 32-bit address space.
pub fn alias_address(register: u32, alias: Alias) -> (address: Option<u32>)
    ensures
        address == if register + alias.spec_offset() <= u32::MAX {
            Some((register + alias.spec_offset()) as u32)
        } else {
            None::<u32>
        },
{
    register.checked_add(alias.offset())
}

/// One bus write to an atomic alias: the action that the caller performs on
/// the hardware register to bring it in line with its image.
#[derive(Clone, Copy, Debug, PartialEq, Eq, Structural)]
pub struct RegWrite {
    /// The alias written to.
    pub alias: Alias,
    /// The word written.
    pub bits: u32,
}

impl RegWrite {
    /// The word a register holds after this write, if it held `value`.
    pub open spec fn result(self, value: u32) -> u32 {
        self.alias.apply(value, self.bits)
    }
}

/// The image of a 32-bit register. Its word is replaced as a whole or
/// changed through one of the three aliases; there is no other way to it.
#[derive(Clone, Copy, Debug, PartialEq, Eq, Structural)]
pub struct Reg {
    value: u32,
}

impl View for Reg {
    type V = u32;

    closed spec fn view(&self) -> u32 {
        self.value
    }
}

impl Reg {
    /// A register that holds `value`.
    pub fn new(value: u32) -> (reg: Self)
        ensures
            reg@ == value,
    {
        Reg { value }
    }

    /// The word the register holds.
    pub fn value(&self) -> (value: u32)
        ensures
            value == self@,
    {
        self.value
    }

    /// Replaces the whole word.
    pub fn write(&mut self, value: u32)
        ensures
            final(self)@ == value,
    {
        self.value = value;
    }

    /// Flips the bits that are one in `bits`; the others keep their value.
    pub fn write_xor(&mut self, bits: u32) -> (write: RegWrite)
        ensures
            final(self)@ == old(self)@ ^ bits,
            write == (RegWrite { alias: Alias::Xor, bits }),
            final(self)@ == write.result(old(self)@),
    {
        self.value = self.value ^ bits;
        RegWrite { alias: Alias::Xor, bits }
    }

    /// Sets the bits that are one in `bits`; the others keep their value.
    pub fn write_set(&mut self, bits: u32) -> (write: RegWrite)
        ensures
            final(self)@ == old(self)@ | bits,
            write == (RegWrite { alias: Alias::BitSet, bits }),
            final(self)@ == write.result(old(self)@),
    {
        self.value = self.value | bits;
        RegWrite { alias: Alias::BitSet, bits }
    }

    /// Clears the bits that are one in `bits`; the others keep their value.
    pub fn write_clear(&mut self, bits: u32) -> (write: RegWrite)
        ensures
            final(self)@ == old(self)@ & !bits,
            write == (RegWrite { alias: Alias::BitClear, bits }),
            final(self)@ == write.result(old(self)@),
    {
        self.value = self.value & !bits;
        RegWrite { alias: Alias::BitClear, bits }
    }

    /// Performs `write` on the image.
    pub fn apply(&mut self, write: RegWrite)
        ensures
            final(self)@ == write.result(old(self)@),
    {
        match write.alias {
            Alias::Xor => {
                self.write_xor(write.bits);
            },
            Alias::BitSet => {
                self.write_set(write.bits);
            },
            Alias::BitClear => {
                self.write_clear(write.bits);
            },
        }
    }
}

/// Whether bit `index` of `value` is one.
pub open spec fn spec_bit(value: u32, index: u32) -> bool {
    value & (1u32 << index) != 0
}

/// Whether bit `index` of `value` is one. Bits beyond the word are zero.
#[verifier::when_used_as_spec(spec_bit)]
pub fn bit(value: u32, index: u32) -> (set: bool)
    ensures
        set == spec_bit(value, index),
{
    if index < 32 {
        value & (1u32 << index) != 0
    } else {
        assert(value & (1u32 << index) == 0) by (bit_vector)
            requires
                index >= 32,
        ;
        false
    }
}

/// A bit-set write changes the bits it names and no other.
pub proof fn lemma_set_bit(value: u32, index: u32, other: u32)
    requires
        index < 32,
        other < 32,
    ensures
        spec_bit(value | (1u32 << index), other) == (other == index || spec_bit(value, other)),
{
    assert((value | (1u32 << index)) & (1u32 << other) != 0 <==> (other == index || value & (1u32
        << other) != 0)) by (bit_vector)
        requires
            index < 32,
            other < 32,
    ;
}

/// A bit-clear write changes the bits it names and no other.
pub proof fn lemma_clear_bit(value: u32, index: u32, other: u32)
    requires
        index < 32,
        other < 32,
    ensures
        spec_bit(value & !(1u32 << index), other) == (other != index && spec_bit(value, other)),
{
    assert((value & !(1u32 << index)) & (1u32 << other) != 0 <==> (other != index && value & (1u32
        << other) != 0)) by (bit_vector)
        requires
            index < 32,
            other < 32,
    ;
}

/// An XOR write changes the bits it names and no other.
pub proof fn lemma_xor_bit(value: u32, index: u32, other: u32)
    requires
        index < 32,
        other < 32,
    ensures
        spec_bit(value ^ (1u32 << index), other) == (spec_bit(value, other) != (other == index)),
{
    assert((value ^ (1u32 << index)) & (1u32 << other) != 0 <==> ((value & (1u32 << other) != 0)
        != (other == index))) by (bit_vector)
        requires
            index < 32,
            other < 32,
    ;
}

} // verus!
