use bft::{DecoratedInstruction, DecoratedProgram, ParseError, Program, RawInstruction};

#[test]
fn instructions_from_byte() {
    let test_data = [
        (b'<', Some(RawInstruction::DecrementDataPointer)),
        (b'>', Some(RawInstruction::IncrementDataPointer)),
        (b'+', Some(RawInstruction::IncrementByte)),
        (b'-', Some(RawInstruction::DecrementByte)),
        (b',', Some(RawInstruction::GetByte)),
        (b'.', Some(RawInstruction::PutByte)),
        (b'[', Some(RawInstruction::OpenLoop)),
        (b']', Some(RawInstruction::CloseLoop)),
        (b'*', None),
    ];
    for (input, output) in test_data {
        assert_eq!(output, RawInstruction::from_byte(input));
    }
}

#[test]
fn correct_position() {
    let text = ["[asdf", " . +-", "]"].join("\n");
    let results = [(1, 1), (2, 2), (2, 4), (2, 5), (3, 1)];
    let prog = Program::new("irrelevant_path", text.as_bytes());
    assert_eq!(prog.instructions().len(), results.len());
    for (index, instruction) in prog.instructions().iter().enumerate() {
        assert_eq!(instruction.line(), results[index].0);
        assert_eq!(instruction.character(), results[index].1);
    }
}

fn kinds(prog: &Program) -> Vec<RawInstruction> {
    prog.instructions().iter().map(|i| *i.instruction()).collect()
}

#[test]
fn comment_bytes_are_dropped() {
    let with_comments = Program::new("a", b"a>b");
    let bare = Program::new("a", b">");
    assert_eq!(kinds(&with_comments), kinds(&bare));
    assert_eq!(kinds(&with_comments), vec![RawInstruction::IncrementDataPointer]);
    assert_eq!(with_comments.instructions()[0].character(), 2);
    assert_eq!(bare.instructions()[0].character(), 1);
}

#[test]
fn non_utf8_bytes_are_comments() {
    let prog = Program::new("bytes", &[0xff, b'+', 0xc3, b'\n', 0x80, b'-']);
    assert_eq!(kinds(&prog), vec![RawInstruction::IncrementByte, RawInstruction::DecrementByte]);
    assert_eq!(prog.instructions()[0].line(), 1);
    assert_eq!(prog.instructions()[0].character(), 2);
    assert_eq!(prog.instructions()[1].line(), 2);
    assert_eq!(prog.instructions()[1].character(), 2);
}

#[test]
fn empty_source_gives_empty_program() {
    let prog = Program::new("empty", b"");
    assert!(prog.instructions().is_empty());
    assert_eq!(prog.file(), "empty");
    let decorated = DecoratedProgram::from_program(&prog).unwrap();
    assert!(decorated.decorated_instructions().is_empty());
    assert_eq!(decorated.file(), "empty");
}

#[test]
fn unclosed_bracket_is_reported() {
    let prog = Program::new("f.bf", b"[");
    match DecoratedProgram::from_program(&prog) {
        Err(ParseError::UnclosedBracket { opener, source_file }) => {
            assert_eq!(*opener.instruction(), RawInstruction::OpenLoop);
            assert_eq!((opener.line(), opener.character()), (1, 1));
            assert_eq!(source_file, "f.bf");
        }
        other => panic!("unexpected result {:?}", other.map(|_| ())),
    }
}

#[test]
fn unopened_bracket_is_reported() {
    let prog = Program::new("f.bf", b"]");
    match DecoratedProgram::from_program(&prog) {
        Err(ParseError::UnopenedBracket { closer, source_file }) => {
            assert_eq!((closer.line(), closer.character()), (1, 1));
            assert_eq!(source_file, "f.bf");
        }
        other => panic!("unexpected result {:?}", other.map(|_| ())),
    }
}

#[test]
fn first_unopened_bracket_is_reported() {
    let prog = Program::new("f.bf", b"[]]");
    match DecoratedProgram::from_program(&prog) {
        Err(ParseError::UnopenedBracket { closer, .. }) => {
            assert_eq!((closer.line(), closer.character()), (1, 3));
        }
        other => panic!("unexpected result {:?}", other.map(|_| ())),
    }
    let prog = Program::new("f.bf", b"+]\n]");
    match DecoratedProgram::from_program(&prog) {
        Err(ParseError::UnopenedBracket { closer, .. }) => {
            assert_eq!((closer.line(), closer.character()), (1, 2));
        }
        other => panic!("unexpected result {:?}", other.map(|_| ())),
    }
}

#[test]
fn innermost_unclosed_bracket_is_reported() {
    let prog = Program::new("f.bf", b"[[]\n [");
    match DecoratedProgram::from_program(&prog) {
        Err(ParseError::UnclosedBracket { opener, .. }) => {
            assert_eq!((opener.line(), opener.character()), (2, 2));
        }
        other => panic!("unexpected result {:?}", other.map(|_| ())),
    }
}

#[test]
fn loops_refer_to_each_other() {
    let prog = Program::new("f.bf", b"+[>[-]<]");
    let decorated = DecoratedProgram::from_program(&prog).unwrap();
    let instructions = decorated.decorated_instructions();
    assert_eq!(instructions.len(), 8);
    match instructions[1] {
        DecoratedInstruction::OpenLoop { closer, closer_index, .. } => {
            assert_eq!(closer_index, 7);
            assert_eq!(closer.character(), 8);
        }
        _ => panic!("expected a loop-open"),
    }
    match instructions[3] {
        DecoratedInstruction::OpenLoop { closer_index, .. } => assert_eq!(closer_index, 5),
        _ => panic!("expected a loop-open"),
    }
    match instructions[5] {
        DecoratedInstruction::CloseLoop { opener, opener_index, .. } => {
            assert_eq!(opener_index, 3);
            assert_eq!(opener.character(), 4);
        }
        _ => panic!("expected a loop-close"),
    }
    match instructions[7] {
        DecoratedInstruction::CloseLoop { opener_index, .. } => assert_eq!(opener_index, 1),
        _ => panic!("expected a loop-close"),
    }
    assert!(matches!(instructions[0], DecoratedInstruction::Instruction(_)));
    assert_eq!(instructions[2].line(), 1);
    assert_eq!(instructions[2].character(), 3);
}

#[test]
fn position_lookup_finds_the_index() {
    let prog = Program::new("f.bf", b"+[\n>.\n ]<");
    let decorated = DecoratedProgram::from_program(&prog).unwrap();
    assert_eq!(decorated.position_to_index(1, 1), 0);
    assert_eq!(decorated.position_to_index(1, 2), 1);
    assert_eq!(decorated.position_to_index(2, 1), 2);
    assert_eq!(decorated.position_to_index(2, 2), 3);
    assert_eq!(decorated.position_to_index(3, 2), 4);
    assert_eq!(decorated.position_to_index(3, 3), 5);
}
