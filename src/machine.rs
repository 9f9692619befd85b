//! The virtual machine: a tape of cells, a data pointer and an instruction
//! pointer over a decorated program.
use vstd::prelude::*;

use crate::cell::{wrapping_decrement, wrapping_increment, CellKind};
use crate::decorated::{well_formed, DecoratedInstruction, DecoratedProgram};
use crate::instruction::{PositionedInstruction, RawInstruction};

verus! {

/// Relies on `std::io::Error` only as a value that is carried along.
#[verifier::external_type_specification]
#[verifier::external_body]
pub struct ExIoError(std::io::Error);

/// The tape size used when none is asked for.
pub const DEFAULT_TAPE_SIZE: usize = 30000;

/// Run-time faults; each names the instruction responsible.
#[derive(Debug)]
pub enum VMError {
    /// A move left from the first cell.
    SeekTooLow(PositionedInstruction),
    /// A move right from the last cell of a tape that may not grow.
    SeekTooHigh(PositionedInstruction),
    /// Reading or writing a byte failed.
    IOError { instruction: PositionedInstruction, source: std::io::Error },
}

/// What the instruction at the instruction pointer needs from outside.
#[derive(Debug, PartialEq, Eq, Structural, Clone, Copy)]
pub enum Request {
    /// Nothing: the program has ended.
    Halted,
    /// Nothing: the instruction only computes.
    Compute,
    /// One byte of input.
    ReadByte,
    /// This byte written to the output, and the output flushed.
    WriteByte(u8),
}

/// What came of the outside work that a [`Request`] asked for.
#[derive(Debug)]
pub enum IoOutcome {
    /// No outside work was needed.
    Nothing,
    /// The byte read, or why reading failed.
    Read(Result<u8, std::io::Error>),
    /// Whether writing and flushing succeeded.
    Written(Result<(), std::io::Error>),
}

impl IoOutcome {
    /// Whether this is the kind of outcome that `request` asks for.
    pub open spec fn answers(self, request: Request) -> bool {
        match request {
            Request::Compute => self is Nothing,
            Request::ReadByte => self is Read,
            Request::WriteByte(_) => self is Written,
            Request::Halted => false,
        }
    }
}

/// The machine as a mathematical value.
pub struct MachineView {
    /// The value of each cell.
    pub cells: Seq<nat>,
    /// The data pointer.
    pub head: int,
    /// The index of the next instruction to execute.
    pub instruction_pointer: int,
    pub may_grow: bool,
    pub program: Seq<DecoratedInstruction>,
}

impl MachineView {
    /// What holds of every machine: the data pointer is on the tape, the
    /// instruction pointer at most one past the program's end, and the
    /// program's loops refer to each other.
    pub open spec fn valid(self) -> bool {
        &&& 0 <= self.head < self.cells.len()
        &&& 0 <= self.instruction_pointer <= self.program.len() <= usize::MAX
        &&& well_formed(self.program)
    }

    /// Not halted: an instruction stands at the instruction pointer.
    pub open spec fn running(self) -> bool {
        0 <= self.instruction_pointer < self.program.len()
    }

    /// The instruction at the instruction pointer.
    pub open spec fn current(self) -> DecoratedInstruction {
        self.program[self.instruction_pointer]
    }

    /// The kind of the instruction at the instruction pointer.
    pub open spec fn current_kind(self) -> RawInstruction {
        self.current().positioned().instruction
    }

    /// The value of the cell at the data pointer.
    pub open spec fn current_value(self) -> nat {
        self.cells[self.head]
    }

    /// The same machine with another data pointer and instruction pointer.
    pub open spec fn moved(self, head: int, instruction_pointer: int) -> MachineView {
        MachineView { head, instruction_pointer, ..self }
    }

    /// The same machine with other cells and instruction pointer.
    pub open spec fn with_cells(self, cells: Seq<nat>, instruction_pointer: int) -> MachineView {
        MachineView { cells, instruction_pointer, ..self }
    }

    /// The machine after a move left, or its fault.
    pub open spec fn seek_left_result(self) -> Result<MachineView, VMError> {
        if self.head == 0 {
            Err(VMError::SeekTooLow(self.current().positioned()))
        } else {
            Ok(self.moved(self.head - 1, self.instruction_pointer + 1))
        }
    }

    /// The machine after a move right, or its fault. At the last cell, a
    /// tape that may grow gets one more zero cell.
    pub open spec fn seek_right_result(self) -> Result<MachineView, VMError> {
        if self.head + 1 < self.cells.len() {
            Ok(self.moved(self.head + 1, self.instruction_pointer + 1))
        } else if self.may_grow {
            Ok(
                self.with_cells(self.cells.push(0), self.instruction_pointer + 1).moved(
                    self.head + 1,
                    self.instruction_pointer + 1,
                ),
            )
        } else {
            Err(VMError::SeekTooHigh(self.current().positioned()))
        }
    }

    /// The machine after setting the current cell to `value`.
    pub open spec fn store_result(self, value: nat) -> MachineView {
        self.with_cells(self.cells.update(self.head, value), self.instruction_pointer + 1)
    }

    /// The machine after reading a byte into the current cell, or the
    /// fault if reading failed.
    pub open spec fn read_result(self, input: Result<u8, std::io::Error>) -> Result<
        MachineView,
        VMError,
    > {
        match input {
            Ok(byte) => Ok(self.store_result(byte as nat)),
            Err(source) => Err(
                VMError::IOError { instruction: self.current().positioned(), source },
            ),
        }
    }

    /// The machine after writing the current cell's byte, or the fault if
    /// writing failed.
    pub open spec fn write_result(self, written: Result<(), std::io::Error>) -> Result<
        MachineView,
        VMError,
    > {
        match written {
            Ok(()) => Ok(self.moved(self.head, self.instruction_pointer + 1)),
            Err(source) => Err(
                VMError::IOError { instruction: self.current().positioned(), source },
            ),
        }
    }

    /// What the instruction at the instruction pointer needs from outside.
    pub open spec fn request(self) -> Request {
        if !self.running() {
            Request::Halted
        } else if self.current_kind() == RawInstruction::GetByte {
            Request::ReadByte
        } else if self.current_kind() == RawInstruction::PutByte {
            Request::WriteByte((self.current_value() % 256) as u8)
        } else {
            Request::Compute
        }
    }

    /// One step: the machine after executing the instruction at the
    /// instruction pointer, with `outcome` the result of the outside work
    /// it needed and `modulus` that of the cells; or the fault.
    pub open spec fn step_result(self, outcome: IoOutcome, modulus: nat) -> Result<
        MachineView,
        VMError,
    > {
        match self.current_kind() {
            RawInstruction::IncrementDataPointer => self.seek_right_result(),
            RawInstruction::DecrementDataPointer => self.seek_left_result(),
            RawInstruction::IncrementByte => Ok(
                self.store_result(wrapping_increment(self.current_value(), modulus)),
            ),
            RawInstruction::DecrementByte => Ok(
                self.store_result(wrapping_decrement(self.current_value(), modulus)),
            ),
            RawInstruction::PutByte => self.write_result(outcome->Written_0),
            RawInstruction::GetByte => self.read_result(outcome->Read_0),
            RawInstruction::OpenLoop => Ok(self.open_loop_result()),
            RawInstruction::CloseLoop => Ok(self.close_loop_result()),
        }
    }

    /// The machine after a loop-open: past its loop-close if the current
    /// cell is 0, else on to the next instruction.
    pub open spec fn open_loop_result(self) -> MachineView {
        if self.current_value() == 0 {
            self.moved(self.head, self.current()->closer_index + 1)
        } else {
            self.moved(self.head, self.instruction_pointer + 1)
        }
    }

    /// The machine after a loop-close: back at its loop-open.
    pub open spec fn close_loop_result(self) -> MachineView {
        self.moved(self.head, self.current()->opener_index as int)
    }
}

proof fn lemma_values_update<T: CellKind>(cells: Seq<T>, i: int, x: T)
    requires
        0 <= i < cells.len(),
    ensures
        cells.update(i, x).map_values(|c: T| c.value()) == cells.map_values(|c: T| c.value()).update(
            i,
            x.value(),
        ),
{
    assert(cells.update(i, x).map_values(|c: T| c.value()) =~= cells.map_values(
        |c: T| c.value(),
    ).update(i, x.value()));
}

/// A step keeps the machine valid and never shrinks the tape; cells other
/// than the current one keep their values.
pub proof fn lemma_step_keeps_tape(m: MachineView, outcome: IoOutcome, modulus: nat)
    requires
        m.valid(),
        m.running(),
    ensures
        m.step_result(outcome, modulus) matches Ok(next) ==> {
            &&& next.valid()
            &&& next.cells.len() >= m.cells.len()
            &&& forall|i: int|
                0 <= i < m.cells.len() && i != m.head ==> #[trigger] next.cells[i] == m.cells[i]
        },
{
    assert(well_formed(m.program));
    let c = m.current();
    assert(m.program[m.instruction_pointer] == c);
}

/// An operation that turns `before` into `result` returned `r` and left
/// `after`: on success the next instruction pointer, with the new state but
/// the instruction pointer not moved yet; on a fault the fault, with the
/// state unchanged.
pub open spec fn operation_done(
    before: MachineView,
    result: Result<MachineView, VMError>,
    r: Result<usize, VMError>,
    after: MachineView,
) -> bool {
    match result {
        Ok(next) => r == Ok::<usize, VMError>(next.instruction_pointer as usize) && after
            == next.moved(next.head, before.instruction_pointer),
        Err(e) => r == Err::<usize, VMError>(e) && after == before,
    }
}

/// A Brainfuck virtual machine over cells of type `T`, running a borrowed
/// decorated program.
pub struct Machine<'a, T: CellKind> {
    cells: Vec<T>,
    head: usize,
    instruction_pointer: usize,
    may_grow: bool,
    prog: &'a DecoratedProgram,
}

impl<'a, T: CellKind> View for Machine<'a, T> {
    type V = MachineView;

    closed spec fn view(&self) -> MachineView {
        MachineView {
            cells: self.cells@.map_values(|c: T| c.value()),
            head: self.head as int,
            instruction_pointer: self.instruction_pointer as int,
            may_grow: self.may_grow,
            program: self.prog@,
        }
    }
}

impl<'a, T: CellKind> Machine<'a, T> {
    /// A machine at the start of `prog`, over `size` zero cells (30000 when
    /// `size` is absent or 0), whose tape grows on demand if `may_grow`.
    pub fn new(size: Option<usize>, may_grow: bool, prog: &'a DecoratedProgram) -> (r: Machine<
        'a,
        T,
    >)
        ensures
            r@.cells == Seq::new(
                match size {
                    Some(n) if n > 0 => n as nat,
                    _ => DEFAULT_TAPE_SIZE as nat,
                },
                |i: int| 0nat,
            ),
            r@.head == 0,
            r@.instruction_pointer == 0,
            r@.may_grow == may_grow,
            r@.program == prog@,
            r@.valid(),
    {
        let size = match size {
            Some(n) if n > 0 => n,
            _ => DEFAULT_TAPE_SIZE,
        };
        let mut cells: Vec<T> = Vec::new();
        while cells.len() < size
            invariant
                cells@.len() <= size,
                forall|i: int| 0 <= i < cells@.len() ==> (#[trigger] cells@[i]).value() == 0,
            decreases size - cells@.len(),
        {
            cells.push(T::zero());
        }
        let _ = prog.decorated_instructions();
        let r = Machine { cells, head: 0, instruction_pointer: 0, may_grow, prog };
        assert(r@.cells =~= Seq::new(size as nat, |i: int| 0nat));
        r
    }

    /// The cells.
    pub fn cells(&self) -> (r: &[T])
        ensures
            r@.map_values(|c: T| c.value()) == self@.cells,
    {
        self.cells.as_slice()
    }

    /// The data pointer.
    pub fn head(&self) -> (r: usize)
        ensures
            r == self@.head,
    {
        self.head
    }

    /// Whether the tape may grow.
    pub fn may_grow(&self) -> (r: bool)
        ensures
            r == self@.may_grow,
    {
        self.may_grow
    }

    /// The program being run.
    pub fn prog(&self) -> (r: &'a DecoratedProgram)
        ensures
            r@ == self@.program,
    {
        self.prog
    }

    /// The instruction at the instruction pointer.
    pub fn current_instruction(&self) -> (r: DecoratedInstruction)
        requires
            self@.valid(),
            self@.running(),
        ensures
            r == self@.current(),
    {
        self.prog.decorated_instructions()[self.instruction_pointer]
    }

    fn next_instruction(&self) -> (r: usize)
        requires
            self@.valid(),
            self@.running(),
        ensures
            r == self@.instruction_pointer + 1,
    {
        self.instruction_pointer + 1
    }

    /// Moves the data pointer one cell left; from the first cell this
    /// faults with [`VMError::SeekTooLow`], whatever the tape size.
    pub fn seek_left(&mut self) -> (r: Result<usize, VMError>)
        requires
            old(self)@.valid(),
            old(self)@.running(),
        ensures
            final(self)@.valid(),
            operation_done(old(self)@, old(self)@.seek_left_result(), r, final(self)@),
            (old(self)@.head == 0) == (r matches Err(VMError::SeekTooLow(_))),
    {
        if self.head == 0 {
            Err(VMError::SeekTooLow(self.current_instruction().instruction()))
        } else {
            self.head = self.head - 1;
            Ok(self.next_instruction())
        }
    }

    /// Moves the data pointer one cell right. From the last cell, a tape
    /// that may grow gets a new zero cell; one that may not faults with
    /// [`VMError::SeekTooHigh`].
    pub fn seek_right(&mut self) -> (r: Result<usize, VMError>)
        requires
            old(self)@.valid(),
            old(self)@.running(),
        ensures
            final(self)@.valid(),
            operation_done(old(self)@, old(self)@.seek_right_result(), r, final(self)@),
    {
        let len = self.cells.len();
        if self.head + 1 == len {
            if !self.may_grow {
                return Err(VMError::SeekTooHigh(self.current_instruction().instruction()));
            } else {
                let ghost before = self.cells@;
                self.cells.push(T::zero());
                assert(self.cells@.map_values(|c: T| c.value()) =~= before.map_values(
                    |c: T| c.value(),
                ).push(0));
            }
        }
        self.head = self.head + 1;
        Ok(self.next_instruction())
    }

    /// The cell at the data pointer, to change in place.
    pub fn current_cell(&mut self) -> (r: &mut T)
        requires
            old(self)@.valid(),
        ensures
            r.value() == old(self)@.current_value(),
            final(self)@ == old(self)@.with_cells(
                old(self)@.cells.update(old(self)@.head, final(r).value()),
                old(self)@.instruction_pointer,
            ),
    {
        let ghost before = self.cells@;
        let r = &mut self.cells[self.head];
        proof {
            lemma_values_update(before, self.head as int, *final(r));
        }
        r
    }

    /// Increases the cell at the data pointer by 1, wrapping.
    pub fn increment_cell(&mut self) -> (r: Result<usize, VMError>)
        requires
            old(self)@.valid(),
            old(self)@.running(),
        ensures
            final(self)@.valid(),
            operation_done(
                old(self)@,
                Ok(
                    old(self)@.store_result(
                        wrapping_increment(old(self)@.current_value(), T::modulus()),
                    ),
                ),
                r,
                final(self)@,
            ),
    {
        self.current_cell().increment();
        Ok(self.next_instruction())
    }

    /// Decreases the cell at the data pointer by 1, wrapping.
    pub fn decrement_cell(&mut self) -> (r: Result<usize, VMError>)
        requires
            old(self)@.valid(),
            old(self)@.running(),
        ensures
            final(self)@.valid(),
            operation_done(
                old(self)@,
                Ok(
                    old(self)@.store_result(
                        wrapping_decrement(old(self)@.current_value(), T::modulus()),
                    ),
                ),
                r,
                final(self)@,
            ),
    {
        self.current_cell().decrement();
        Ok(self.next_instruction())
    }

    /// Stores the byte that reading gave in the cell at the data pointer;
    /// a failed read (a short one included) is a [`VMError::IOError`].
    pub fn read_value(&mut self, input: Result<u8, std::io::Error>) -> (r: Result<usize, VMError>)
        requires
            old(self)@.valid(),
            old(self)@.running(),
        ensures
            final(self)@.valid(),
            operation_done(old(self)@, old(self)@.read_result(input), r, final(self)@),
    {
        match input {
            Ok(byte) => {
                self.current_cell().set_value(byte);
                Ok(self.next_instruction())
            },
            Err(source) => Err(
                VMError::IOError { instruction: self.current_instruction().instruction(), source },
            ),
        }
    }

    /// Completes the output of the cell at the data pointer (its byte is
    /// given by [`Machine::request`]); a failed write or flush is a
    /// [`VMError::IOError`].
    pub fn write_value(&mut self, written: Result<(), std::io::Error>) -> (r: Result<
        usize,
        VMError,
    >)
        requires
            old(self)@.valid(),
            old(self)@.running(),
        ensures
            final(self)@.valid(),
            operation_done(old(self)@, old(self)@.write_result(written), r, final(self)@),
    {
        match written {
            Ok(()) => Ok(self.next_instruction()),
            Err(source) => Err(
                VMError::IOError { instruction: self.current_instruction().instruction(), source },
            ),
        }
    }

    /// Executes a loop-open: if the current cell is 0, the next instruction
    /// is the one after the matching loop-close, else the one after this.
    pub fn open_loop(&mut self) -> (r: Result<usize, VMError>)
        requires
            old(self)@.valid(),
            old(self)@.running(),
            old(self)@.current_value() == 0 ==> old(self)@.current() is OpenLoop,
        ensures
            final(self)@.valid(),
            operation_done(old(self)@, Ok(old(self)@.open_loop_result()), r, final(self)@),
    {
        if self.cells[self.head].is_zero() {
            match self.current_instruction() {
                DecoratedInstruction::OpenLoop { closer_index, .. } => Ok(closer_index + 1),
                _ => Ok(self.next_instruction()),
            }
        } else {
            Ok(self.next_instruction())
        }
    }

    /// Executes a loop-close: the next instruction is the matching loop-open,
    /// which decides again whether to loop.
    pub fn close_loop(&mut self) -> (r: Result<usize, VMError>)
        requires
            old(self)@.valid(),
            old(self)@.running(),
            old(self)@.current() is CloseLoop,
        ensures
            final(self)@.valid(),
            operation_done(old(self)@, Ok(old(self)@.close_loop_result()), r, final(self)@),
    {
        match self.current_instruction() {
            DecoratedInstruction::CloseLoop { opener_index, .. } => Ok(opener_index),
            _ => Ok(self.next_instruction()),
        }
    }

    /// What the instruction at the instruction pointer needs from outside
    /// before it can be executed.
    pub fn request(&self) -> (r: Request)
        requires
            self@.valid(),
        ensures
            r == self@.request(),
    {
        if self.instruction_pointer >= self.prog.decorated_instructions().len() {
            return Request::Halted;
        }
        match self.current_instruction().instruction().instruction {
            RawInstruction::GetByte => Request::ReadByte,
            RawInstruction::PutByte => Request::WriteByte(self.cells[self.head].get_value()),
            _ => Request::Compute,
        }
    }

    /// Executes the instruction at the instruction pointer, given the
    /// outcome of the outside work that [`Machine::request`] asked for, and
    /// moves the instruction pointer on. A fault leaves the machine as it
    /// was.
    pub fn interpret_current_instruction(&mut self, outcome: IoOutcome) -> (r: Result<(), VMError>)
        requires
            old(self)@.valid(),
            old(self)@.running(),
            outcome.answers(old(self)@.request()),
        ensures
            final(self)@.valid(),
            match old(self)@.step_result(outcome, T::modulus()) {
                Ok(next) => r == Ok::<(), VMError>(()) && final(self)@ == next,
                Err(e) => r == Err::<(), VMError>(e) && final(self)@ == old(self)@,
            },
    {
        let next = match self.current_instruction().instruction().instruction {
            RawInstruction::IncrementDataPointer => self.seek_right(),
            RawInstruction::DecrementDataPointer => self.seek_left(),
            RawInstruction::IncrementByte => self.increment_cell(),
            RawInstruction::DecrementByte => self.decrement_cell(),
            RawInstruction::PutByte => match outcome {
                IoOutcome::Written(written) => self.write_value(written),
                _ => Ok(self.next_instruction()),
            },
            RawInstruction::GetByte => match outcome {
                IoOutcome::Read(input) => self.read_value(input),
                _ => Ok(self.next_instruction()),
            },
            RawInstruction::OpenLoop => self.open_loop(),
            RawInstruction::CloseLoop => self.close_loop(),
        };
        match next {
            Ok(instruction_pointer) => {
                self.instruction_pointer = instruction_pointer;
                Ok(())
            },
            Err(e) => Err(e),
        }
    }
}

} // verus!
