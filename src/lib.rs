//! A Brainfuck front-end and virtual machine.
//!
//! Source bytes are tokenized into positioned instructions ([`Program`]),
//! brackets are matched once into a [`DecoratedProgram`] whose loop
//! instructions carry the index of their partner, and a [`Machine`] executes
//! the decorated program one instruction at a time over a tape of cells.
//! The caller performs the input and output that [`Machine::request`] asks
//! for and hands the outcome to [`Machine::interpret_current_instruction`].
use vstd::prelude::*;

pub mod cell;
pub mod decorated;
pub mod instruction;
pub mod machine;
pub mod program;

pub use cell::CellKind;
pub use decorated::{DecoratedInstruction, DecoratedProgram, ParseError};
pub use instruction::{PositionedInstruction, RawInstruction};
pub use machine::{IoOutcome, Machine, Request, VMError};
pub use program::Program;

verus! {

} // verus!
