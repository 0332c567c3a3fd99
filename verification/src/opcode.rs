//! The opcode wire format: a 16-bit word, most significant nibble first.
//!
//! ```text
//!   15..12   11..8   7..4   3..0
//!   class      x       y      d
//!            \------- nnn -------/
//! ```
use vstd::prelude::*;

verus! {

/// The operand fields of one opcode.
#[derive(Debug, Clone, Copy, PartialEq, Eq, Structural)]
pub struct Fields {
    /// Instruction class, bits 15 to 12.
    pub class: u8,
    /// First register index, bits 11 to 8.
    pub x: u8,
    /// Second register index, bits 7 to 4.
    pub y: u8,
    /// Sub-opcode, bits 3 to 0.
    pub d: u8,
    /// Address, bits 11 to 0.
    pub nnn: u16,
}

/// An instruction of the supported set.
#[derive(Debug, Clone, Copy, PartialEq, Eq, Structural)]
pub enum Instruction {
    /// `0x0000`: stop the execution loop.
    Halt,
    /// `0x00EE`: return from a subroutine.
    Return,
    /// `0x2NNN`: call the subroutine at `address`.
    Call { address: u16 },
    /// `0x8XY4`: add register `y` into register `x`, carry into register `0xF`.
    AddRegisters { x: u8, y: u8 },
}

/// The fields of `opcode`, read off its hexadecimal digits.
pub open spec fn fields_of(opcode: u16) -> Fields {
    Fields {
        class: (opcode / 0x1000) as u8,
        x: (opcode / 0x100 % 0x10) as u8,
        y: (opcode / 0x10 % 0x10) as u8,
        d: (opcode % 0x10) as u8,
        nnn: opcode % 0x1000,
    }
}

/// The instruction that a field tuple selects, if it selects one.
pub open spec fn instruction_of(fields: Fields) -> Option<Instruction> {
    if fields.class == 0 && fields.x == 0 && fields.y == 0 && fields.d == 0 {
        Some(Instruction::Halt)
    } else if fields.class == 0 && fields.x == 0 && fields.y == 0xE && fields.d == 0xE {
        Some(Instruction::Return)
    } else if fields.class == 2 {
        Some(Instruction::Call { address: fields.nnn })
    } else if fields.class == 8 && fields.d == 4 {
        Some(Instruction::AddRegisters { x: fields.x, y: fields.y })
    } else {
        None
    }
}

/// The instruction that `opcode` encodes, if it is in the supported set.
pub open spec fn decoded(opcode: u16) -> Option<Instruction> {
    instruction_of(fields_of(opcode))
}

/// Splits an opcode into its fields. Total: every 16-bit word decodes.
pub fn decode_opcode(opcode: u16) -> (fields: Fields)
    ensures
        fields == fields_of(opcode),
{
    assert((opcode & 0xF000) >> 12 == opcode / 0x1000 && (opcode & 0x0F00) >> 8 == opcode / 0x100
        % 0x10 && (opcode & 0x00F0) >> 4 == opcode / 0x10 % 0x10 && opcode & 0x000F == opcode
        % 0x10 && opcode & 0x0FFF == opcode % 0x1000) by (bit_vector);
    Fields {
        class: ((opcode & 0xF000) >> 12) as u8,
        x: ((opcode & 0x0F00) >> 8) as u8,
        y: ((opcode & 0x00F0) >> 4) as u8,
        d: (opcode & 0x000F) as u8,
        nnn: opcode & 0x0FFF,
    }
}

impl Fields {
    /// Matches the field tuple against the supported instruction set.
    pub fn instruction(&self) -> (instruction: Option<Instruction>)
        ensures
            instruction == instruction_of(*self),
    {
        if self.class == 0 && self.x == 0 && self.y == 0 && self.d == 0 {
            Some(Instruction::Halt)
        } else if self.class == 0 && self.x == 0 && self.y == 0xE && self.d == 0xE {
            Some(Instruction::Return)
        } else if self.class == 2 {
            Some(Instruction::Call { address: self.nnn })
        } else if self.class == 8 && self.d == 4 {
            Some(Instruction::AddRegisters { x: self.x, y: self.y })
        } else {
            None
        }
    }
}

/// Every field is a nibble, the address is made of the three low nibbles, and
/// the four nibbles together give the opcode back: decoding loses nothing.
pub proof fn lemma_fields_recompose(opcode: u16)
    ensures
        fields_of(opcode).class < 16,
        fields_of(opcode).x < 16,
        fields_of(opcode).y < 16,
        fields_of(opcode).d < 16,
        fields_of(opcode).nnn < 0x1000,
        fields_of(opcode).nnn == fields_of(opcode).x * 0x100 + fields_of(opcode).y * 0x10
            + fields_of(opcode).d,
        opcode == fields_of(opcode).class * 0x1000 + fields_of(opcode).nnn,
{
    assert(opcode / 0x1000 < 16 && opcode % 0x1000 == (opcode / 0x100 % 0x10) * 0x100 + (opcode
        / 0x10 % 0x10) * 0x10 + opcode % 0x10 && opcode == (opcode / 0x1000) * 0x1000 + opcode
        % 0x1000) by (bit_vector);
}

/// Two opcodes with the same fields are the same opcode.
pub proof fn lemma_fields_injective(a: u16, b: u16)
    requires
        fields_of(a) == fields_of(b),
    ensures
        a == b,
{
    lemma_fields_recompose(a);
    lemma_fields_recompose(b);
}

} // verus!
