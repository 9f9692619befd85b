use std::io::{Cursor, Read, Write};

use bft::{
    CellKind, DecoratedProgram, IoOutcome, Machine, Program, RawInstruction, Request, VMError,
};

/// Runs the machine to its end, doing the input and output it asks for.
fn run<T: CellKind>(
    machine: &mut Machine<T>,
    input: &mut impl Read,
    output: &mut impl Write,
) -> Result<(), VMError> {
    loop {
        let outcome = match machine.request() {
            Request::Halted => return Ok(()),
            Request::Compute => IoOutcome::Nothing,
            Request::ReadByte => {
                let mut buffer = [0u8; 1];
                IoOutcome::Read(input.read_exact(&mut buffer).map(|_| buffer[0]))
            }
            Request::WriteByte(byte) => {
                IoOutcome::Written(output.write_all(&[byte]).and_then(|_| output.flush()))
            }
        };
        machine.interpret_current_instruction(outcome)?;
    }
}

fn decorate(text: &str) -> DecoratedProgram {
    DecoratedProgram::from_program(&Program::new("<test>", text.as_bytes())).unwrap()
}

#[test]
fn test_hello_world() {
    let hello_world_text =
        ">++++++++[<+++++++++>-]<.>++++[<+++++++>-]<+.+++++++..+++.>>++++++[<+++++++>-]<+
        +.------------.>++++++[<+++++++++>-]<+.<.+++.------.--------.>>>++++[<++++++++>-
        ]<+.";
    let mut input = Cursor::new(Vec::new());
    let mut output = Cursor::new(Vec::new());
    let prog = Program::new("<no program>", hello_world_text.as_bytes());
    let decorated = DecoratedProgram::from_program(&prog).unwrap();
    let mut machine: Machine<u8> = Machine::new(None, false, &decorated);
    let result = run(&mut machine, &mut input, &mut output);
    assert!(result.is_ok());
    assert_eq!(output.into_inner(), "Hello, World!".as_bytes());
    assert_eq!(machine.request(), Request::Halted);
}

#[test]
fn default_tape_has_thirty_thousand_zero_cells() {
    let decorated = decorate("[,.]");
    let machine: Machine<u8> = Machine::new(None, false, &decorated);
    assert_eq!(machine.cells().len(), 30000);
    assert!(machine.cells().iter().all(|c| *c == 0));
    assert_eq!(machine.head(), 0);
    assert!(!machine.may_grow());
    let zero_size: Machine<u8> = Machine::new(Some(0), true, &decorated);
    assert_eq!(zero_size.cells().len(), 30000);
    assert!(zero_size.may_grow());
    let sized: Machine<u8> = Machine::new(Some(7), false, &decorated);
    assert_eq!(sized.cells().len(), 7);
    assert_eq!(sized.prog().decorated_instructions().len(), 4);
}

#[test]
fn cell_arithmetic_wraps() {
    let decorated = decorate("[,.]");
    let mut machine: Machine<u8> = Machine::new(None, false, &decorated);
    assert_eq!(machine.cells()[0], 0);
    assert_eq!(machine.decrement_cell().unwrap(), 1);
    assert_eq!(machine.cells()[0], 255);
    assert_eq!(machine.increment_cell().unwrap(), 1);
    assert_eq!(machine.cells()[0], 0);
    assert_eq!(machine.increment_cell().unwrap(), 1);
    assert_eq!(machine.cells()[0], 1);
}

#[test]
fn wider_cells_wrap_at_their_own_width() {
    let decorated = decorate("-.");
    let mut machine: Machine<u16> = Machine::new(Some(1), false, &decorated);
    machine.interpret_current_instruction(IoOutcome::Nothing).unwrap();
    assert_eq!(machine.cells()[0], u16::MAX);
    assert_eq!(machine.request(), Request::WriteByte(255));
    let mut cell: u32 = 0;
    cell.decrement();
    assert_eq!(cell, u32::MAX);
    cell.increment();
    assert!(cell.is_zero());
    cell.set_value(300u16 as u8);
    assert_eq!(cell.get_value(), 44);
}

#[test]
fn seek_right_without_growth_faults_at_the_end() {
    let decorated = decorate("[,.]");
    let mut machine: Machine<u8> = Machine::new(Some(1), false, &decorated);
    match machine.seek_right() {
        Err(VMError::SeekTooHigh(instruction)) => {
            assert_eq!(*instruction.instruction(), RawInstruction::OpenLoop);
            assert_eq!((instruction.line(), instruction.character()), (1, 1));
        }
        other => panic!("unexpected result {:?}", other),
    }
    assert_eq!(machine.cells().len(), 1);
    assert_eq!(machine.head(), 0);
}

#[test]
fn seek_right_with_growth_extends_the_tape() {
    let decorated = decorate("[,.]");
    let mut machine: Machine<u8> = Machine::new(Some(1), true, &decorated);
    assert_eq!(machine.seek_right().unwrap(), 1);
    assert_eq!(machine.cells().len(), 2);
    assert_eq!(machine.cells()[1], 0);
    assert_eq!(machine.head(), 1);
}

#[test]
fn seek_left_from_the_first_cell_faults() {
    let decorated = decorate("[,.]");
    for size in [None, Some(1), Some(2), Some(100)] {
        let mut machine: Machine<u8> = Machine::new(size, true, &decorated);
        assert!(matches!(machine.seek_left(), Err(VMError::SeekTooLow(_))));
        assert_eq!(machine.head(), 0);
    }
    let mut machine: Machine<u8> = Machine::new(None, false, &decorated);
    machine.seek_right().unwrap();
    assert!(machine.seek_left().is_ok());
    assert_eq!(machine.head(), 0);
}

#[test]
fn seek_too_low_names_the_instruction() {
    let decorated = decorate("+\n <");
    let mut machine: Machine<u8> = Machine::new(None, false, &decorated);
    let mut input = Cursor::new(Vec::new());
    let mut output = Cursor::new(Vec::new());
    match run(&mut machine, &mut input, &mut output) {
        Err(VMError::SeekTooLow(instruction)) => {
            assert_eq!((instruction.line(), instruction.character()), (2, 2));
        }
        other => panic!("unexpected result {:?}", other),
    }
    assert_eq!(machine.cells()[0], 1);
}

#[test]
fn read_value_stores_the_byte() {
    let decorated = decorate("[,.]");
    let mut machine: Machine<u8> = Machine::new(None, false, &decorated);
    assert_eq!(machine.read_value(Ok(7)).unwrap(), 1);
    assert_eq!(machine.cells()[0], 7);
}

#[test]
fn read_from_an_empty_input_is_an_io_error() {
    let decorated = decorate("+,");
    let mut machine: Machine<u8> = Machine::new(None, false, &decorated);
    let mut input = Cursor::new(Vec::new());
    let mut output = Cursor::new(Vec::new());
    match run(&mut machine, &mut input, &mut output) {
        Err(VMError::IOError { instruction, .. }) => {
            assert_eq!(*instruction.instruction(), RawInstruction::GetByte);
            assert_eq!(instruction.character(), 2);
        }
        other => panic!("unexpected result {:?}", other),
    }
    assert_eq!(machine.cells()[0], 1);
}

#[test]
fn echo_copies_input_to_output() {
    let decorated = decorate(",.,.");
    let mut machine: Machine<u8> = Machine::new(None, false, &decorated);
    let mut input = Cursor::new(vec![b'h', b'i']);
    let mut output = Cursor::new(Vec::new());
    run(&mut machine, &mut input, &mut output).unwrap();
    assert_eq!(output.into_inner(), b"hi".to_vec());
}

#[test]
fn failed_write_is_an_io_error() {
    let decorated = decorate("+.");
    let mut machine: Machine<u8> = Machine::new(None, false, &decorated);
    machine.interpret_current_instruction(IoOutcome::Nothing).unwrap();
    assert_eq!(machine.request(), Request::WriteByte(1));
    let failure = std::io::Error::new(std::io::ErrorKind::WriteZero, "no room");
    match machine.interpret_current_instruction(IoOutcome::Written(Err(failure))) {
        Err(VMError::IOError { instruction, source }) => {
            assert_eq!(*instruction.instruction(), RawInstruction::PutByte);
            assert_eq!(source.kind(), std::io::ErrorKind::WriteZero);
        }
        other => panic!("unexpected result {:?}", other),
    }
    assert_eq!(machine.request(), Request::WriteByte(1));
    assert!(machine.write_value(Ok(())).is_ok());
}

#[test]
fn loop_runs_until_its_counter_is_zero() {
    let decorated = decorate("++++[>+++<-]>+");
    let mut machine: Machine<u8> = Machine::new(Some(3), false, &decorated);
    let mut input = Cursor::new(Vec::new());
    let mut output = Cursor::new(Vec::new());
    run(&mut machine, &mut input, &mut output).unwrap();
    assert_eq!(machine.cells(), &[0, 13, 0]);
    assert_eq!(machine.head(), 1);
}

#[test]
fn nested_loops_multiply() {
    let decorated = decorate("+++[>++[>+++<-]<-]");
    let mut machine: Machine<u8> = Machine::new(Some(3), false, &decorated);
    let mut input = Cursor::new(Vec::new());
    let mut output = Cursor::new(Vec::new());
    run(&mut machine, &mut input, &mut output).unwrap();
    assert_eq!(machine.cells(), &[0, 0, 18]);
    assert_eq!(machine.head(), 0);
}

#[test]
fn loop_on_zero_cell_is_skipped() {
    let decorated = decorate("[+++]+");
    let mut machine: Machine<u8> = Machine::new(Some(1), false, &decorated);
    assert_eq!(machine.open_loop().unwrap(), 5);
    let mut input = Cursor::new(Vec::new());
    let mut output = Cursor::new(Vec::new());
    run(&mut machine, &mut input, &mut output).unwrap();
    assert_eq!(machine.cells(), &[1]);
}

#[test]
fn loop_close_jumps_back_to_its_open() {
    let decorated = decorate("+[-]");
    let mut machine: Machine<u8> = Machine::new(Some(1), false, &decorated);
    machine.interpret_current_instruction(IoOutcome::Nothing).unwrap();
    assert_eq!(machine.open_loop().unwrap(), 2);
    machine.interpret_current_instruction(IoOutcome::Nothing).unwrap();
    machine.interpret_current_instruction(IoOutcome::Nothing).unwrap();
    assert_eq!(machine.current_instruction().character(), 4);
    assert_eq!(machine.close_loop().unwrap(), 1);
}

#[test]
fn current_cell_changes_in_place() {
    let decorated = decorate("+");
    let mut machine: Machine<u8> = Machine::new(Some(2), true, &decorated);
    *machine.current_cell() = 9;
    assert_eq!(machine.cells(), &[9, 0]);
}
