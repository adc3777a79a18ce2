//! Instruction words and their decoding.
use vstd::prelude::*;

verus! {

/// One decoded instruction of the machine's instruction set.
#[derive(Clone, Copy, Debug, PartialEq, Eq, Structural)]
pub enum Instruction {
    /// `0x0000`: stop the run.
    Halt,
    /// `0x00EE`: return from the current subroutine.
    Return,
    /// `0x2nnn`: call the subroutine at address `nnn`.
    Call(u16),
    /// `0x8xy4`: add register `y` into register `x`, carry into register 15.
    AddXY(u8, u8),
    /// Any other word, kept whole.
    Unknown(u16),
}

/// The instruction group: bits 12 to 15 of the word.
pub open spec fn group_of(word: u16) -> int {
    word as int / 4096
}

/// The first register operand: bits 8 to 11 of the word.
pub open spec fn x_of(word: u16) -> int {
    (word as int / 256) % 16
}

/// The second register operand: bits 4 to 7 of the word.
pub open spec fn y_of(word: u16) -> int {
    (word as int / 16) % 16
}

/// The sub-opcode: bits 0 to 3 of the word.
pub open spec fn sub_of(word: u16) -> int {
    word as int % 16
}

/// The address field: bits 0 to 11 of the word.
pub open spec fn address_of(word: u16) -> int {
    word as int % 4096
}

/// What a word means, by its group, operands and sub-opcode.
pub open spec fn instruction_of(word: u16) -> Instruction {
    let (c, x, y, d) = (group_of(word), x_of(word), y_of(word), sub_of(word));
    if c == 0 && x == 0 && y == 0 && d == 0 {
        Instruction::Halt
    } else if c == 0 && x == 0 && y == 0xE && d == 0xE {
        Instruction::Return
    } else if c == 0x2 {
        Instruction::Call(address_of(word) as u16)
    } else if c == 0x8 && d == 0x4 {
        Instruction::AddXY(x as u8, y as u8)
    } else {
        Instruction::Unknown(word)
    }
}

/// The instruction word made of two bytes, the first one high.
pub open spec fn word_of(hi: u8, lo: u8) -> u16 {
    (hi as int * 256 + lo as int) as u16
}

/// Assembles the instruction word from its two bytes, the first one high.
pub fn combine(hi: u8, lo: u8) -> (r: u16)
    ensures
        r == word_of(hi, lo),
        r as int == hi as int * 256 + lo as int,
{
    let r = (hi as u16) << 8 | (lo as u16);
    assert(r == (hi as u16) * 256 + (lo as u16)) by (bit_vector)
        requires
            r == (hi as u16) << 8 | (lo as u16),
    ;
    r
}

/// Splits a word into group, first register, second register and sub-opcode,
/// most significant nibble first.
pub fn nibbles(word: u16) -> (r: (u8, u8, u8, u8))
    ensures
        r.0 as int == group_of(word),
        r.1 as int == x_of(word),
        r.2 as int == y_of(word),
        r.3 as int == sub_of(word),
{
    let c = ((word & 0xF000) >> 12) as u8;
    let x = ((word & 0x0F00) >> 8) as u8;
    let y = ((word & 0x00F0) >> 4) as u8;
    let d = (word & 0x000F) as u8;
    assert((word & 0xF000) >> 12 == word / 4096) by (bit_vector);
    assert((word & 0x0F00) >> 8 == (word / 256) % 16) by (bit_vector);
    assert((word & 0x00F0) >> 4 == (word / 16) % 16) by (bit_vector);
    assert(word & 0x000F == word % 16) by (bit_vector);
    (c, x, y, d)
}

/// Decodes an instruction word. The four recognized patterns are tried in
/// order; every other word is `Unknown` and keeps the word.
pub fn decode(word: u16) -> (r: Instruction)
    ensures
        r == instruction_of(word),
{
    let (c, x, y, d) = nibbles(word);
    let nnn = word & 0x0FFF;
    assert(word & 0x0FFF == word % 4096) by (bit_vector);
    match (c, x, y, d) {
        (0, 0, 0, 0) => Instruction::Halt,
        (0, 0, 0xE, 0xE) => Instruction::Return,
        (0x2, _, _, _) => Instruction::Call(nnn),
        (0x8, _, _, 0x4) => Instruction::AddXY(x, y),
        _ => Instruction::Unknown(word),
    }
}

} // verus!
