//! The instruction alphabet and source positions.
use vstd::prelude::*;

verus! {

/// Every instruction Brainfuck can execute.
#[derive(Debug, PartialEq, Eq, Structural, Copy, Clone)]
pub enum RawInstruction {
    IncrementDataPointer,
    DecrementDataPointer,
    IncrementByte,
    DecrementByte,
    PutByte,
    GetByte,
    OpenLoop,
    CloseLoop,
}

/// The instruction that a source byte stands for, if any.
pub open spec fn instruction_of(byte: u8) -> Option<RawInstruction> {
    if byte == 62 {  // '>'
        Some(RawInstruction::IncrementDataPointer)
    } else if byte == 60 {  // '<'
        Some(RawInstruction::DecrementDataPointer)
    } else if byte == 43 {  // '+'
        Some(RawInstruction::IncrementByte)
    } else if byte == 45 {  // '-'
        Some(RawInstruction::DecrementByte)
    } else if byte == 46 {  // '.'
        Some(RawInstruction::PutByte)
    } else if byte == 44 {  // ','
        Some(RawInstruction::GetByte)
    } else if byte == 91 {  // '['
        Some(RawInstruction::OpenLoop)
    } else if byte == 93 {  // ']'
        Some(RawInstruction::CloseLoop)
    } else {
        None
    }
}

impl RawInstruction {
    /// The instruction for `byte`, or `None` for a byte outside the alphabet
    /// `> < + - . , [ ]` (such bytes are comments).
    pub fn from_byte(byte: u8) -> (r: Option<RawInstruction>)
        ensures
            r == instruction_of(byte),
    {
        match byte {
            62 => Some(RawInstruction::IncrementDataPointer),  // '>'
            60 => Some(RawInstruction::DecrementDataPointer),  // '<'
            43 => Some(RawInstruction::IncrementByte),  // '+'
            45 => Some(RawInstruction::DecrementByte),  // '-'
            46 => Some(RawInstruction::PutByte),  // '.'
            44 => Some(RawInstruction::GetByte),  // ','
            91 => Some(RawInstruction::OpenLoop),  // '['
            93 => Some(RawInstruction::CloseLoop),  // ']'
            _ => None,
        }
    }

    /// Whether this instruction opens or closes a loop.
    pub open spec fn is_bracket(self) -> bool {
        self == RawInstruction::OpenLoop || self == RawInstruction::CloseLoop
    }
}

/// An instruction together with its 1-based line and column in the source.
#[derive(Debug, PartialEq, Eq, Structural, Copy, Clone)]
pub struct PositionedInstruction {
    pub instruction: RawInstruction,
    pub line: usize,
    pub character: usize,
}

impl PositionedInstruction {
    pub fn instruction(&self) -> (r: &RawInstruction)
        ensures
            *r == self.instruction,
    {
        &self.instruction
    }

    pub fn line(&self) -> (r: usize)
        ensures
            r == self.line,
    {
        self.line
    }

    pub fn character(&self) -> (r: usize)
        ensures
            r == self.character,
    {
        self.character
    }
}

} // verus!
