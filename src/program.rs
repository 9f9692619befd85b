//! Source text as a sequence of positioned instructions.
use vstd::prelude::*;

use crate::instruction::{instruction_of, PositionedInstruction, RawInstruction};

verus! {

/// The byte that ends a line.
pub const LINE_FEED: u8 = 10;

/// 0-based line of the position that follows the bytes `b`.
pub open spec fn line_index(b: Seq<u8>) -> nat
    decreases b.len(),
{
    if b.len() == 0 {
        0
    } else if b.last() == LINE_FEED {
        line_index(b.drop_last()) + 1
    } else {
        line_index(b.drop_last())
    }
}

/// 0-based column (in bytes) of the position that follows the bytes `b`.
pub open spec fn column_index(b: Seq<u8>) -> nat
    decreases b.len(),
{
    if b.len() == 0 {
        0
    } else if b.last() == LINE_FEED {
        0
    } else {
        column_index(b.drop_last()) + 1
    }
}

/// The positioned instructions of the source bytes `b`: one for each byte of
/// the instruction alphabet, in source order, at its 1-based line and column.
pub open spec fn tokens(b: Seq<u8>) -> Seq<PositionedInstruction>
    decreases b.len(),
{
    if b.len() == 0 {
        Seq::empty()
    } else {
        let before = b.drop_last();
        match instruction_of(b.last()) {
            Some(instruction) => tokens(before).push(
                PositionedInstruction {
                    instruction,
                    line: (line_index(before) + 1) as usize,
                    character: (column_index(before) + 1) as usize,
                },
            ),
            None => tokens(before),
        }
    }
}

/// The instruction kinds of a sequence of positioned instructions.
pub open spec fn kinds(s: Seq<PositionedInstruction>) -> Seq<RawInstruction> {
    s.map_values(|p: PositionedInstruction| p.instruction)
}

/// Whether `a` stands strictly before `b` in the source.
pub open spec fn precedes(a: PositionedInstruction, b: PositionedInstruction) -> bool {
    a.line < b.line || (a.line == b.line && a.character < b.character)
}

/// Whether the positions of `s` strictly increase.
pub open spec fn increasing(s: Seq<PositionedInstruction>) -> bool {
    forall|i: int, j: int| 0 <= i < j < s.len() ==> precedes(#[trigger] s[i], #[trigger] s[j])
}

/// Whether the byte is one of the instruction alphabet.
pub open spec fn is_instruction_byte(byte: u8) -> bool {
    instruction_of(byte) is Some
}

proof fn lemma_kinds_of_tokens(text: Seq<u8>)
    ensures
        kinds(tokens(text)) == text.filter_map(|b: u8| instruction_of(b)),
    decreases text.len(),
{
    if text.len() == 0 {
        assert(kinds(tokens(text)) =~= Seq::<RawInstruction>::empty());
    } else {
        let before = text.drop_last();
        lemma_kinds_of_tokens(before);
        match instruction_of(text.last()) {
            Some(instruction) => {
                assert(kinds(tokens(text)) =~= kinds(tokens(before)).push(instruction));
                assert(kinds(tokens(before)).push(instruction) =~= kinds(tokens(before)) + seq![
                    instruction,
                ]);
            },
            None => {},
        }
    }
}

proof fn lemma_filter_then_filter_map(text: Seq<u8>)
    ensures
        text.filter(|b: u8| is_instruction_byte(b)).filter_map(|b: u8| instruction_of(b))
            == text.filter_map(|b: u8| instruction_of(b)),
    decreases text.len(),
{
    reveal(Seq::filter);
    let keep = |b: u8| is_instruction_byte(b);
    let kind = |b: u8| instruction_of(b);
    if text.len() > 0 {
        let before = text.drop_last();
        lemma_filter_then_filter_map(before);
        let kept = text.filter(keep);
        assert(kept == if keep(text.last()) {
            before.filter(keep).push(text.last())
        } else {
            before.filter(keep)
        });
        if keep(text.last()) {
            assert(kept.drop_last() =~= before.filter(keep));
            assert(kept.filter_map(kind) == before.filter(keep).filter_map(kind) + seq![
                instruction_of(text.last()).unwrap(),
            ]);
        }
    }
}

/// Bytes outside the instruction alphabet are dropped: the instruction kinds
/// of a text are those of its alphabet bytes, in order, so removing every
/// other byte leaves them unchanged.
pub proof fn lemma_comments_dropped(text: Seq<u8>)
    ensures
        kinds(tokens(text)) == text.filter_map(|b: u8| instruction_of(b)),
        kinds(tokens(text)) == kinds(tokens(text.filter(|b: u8| is_instruction_byte(b)))),
{
    lemma_kinds_of_tokens(text);
    lemma_kinds_of_tokens(text.filter(|b: u8| is_instruction_byte(b)));
    lemma_filter_then_filter_map(text);
}

/// A Brainfuck program as read from one source file, before its brackets
/// have been checked.
#[derive(Debug)]
pub struct Program {
    file: String,
    instructions: Vec<PositionedInstruction>,
}

impl View for Program {
    type V = Seq<PositionedInstruction>;

    closed spec fn view(&self) -> Seq<PositionedInstruction> {
        self.instructions@
    }
}

impl Program {
    /// The name of the source file.
    pub closed spec fn file_name(&self) -> Seq<char> {
        self.file@
    }

    #[verifier::type_invariant]
    spec fn in_source_order(&self) -> bool {
        increasing(self.instructions@)
    }

    /// Tokenizes `text`, read from the file `filename`. Bytes outside the
    /// instruction alphabet are dropped; lines are split on line feeds, and
    /// columns count bytes.
    pub fn new(filename: &str, text: &[u8]) -> (r: Program)
        ensures
            r@ == tokens(text@),
            r.file_name() == filename@,
    {
        let mut instructions: Vec<PositionedInstruction> = Vec::new();
        let mut line: usize = 0;
        let mut column: usize = 0;
        let mut i: usize = 0;
        while i < text.len()
            invariant
                i <= text.len(),
                line == line_index(text@.take(i as int)),
                column == column_index(text@.take(i as int)),
                line <= i,
                column <= i,
                instructions@ == tokens(text@.take(i as int)),
                increasing(instructions@),
                forall|k: int|
                    0 <= k < instructions@.len() ==> {
                        let p = #[trigger] instructions@[k];
                        p.line < line + 1 || (p.line == line + 1 && p.character < column + 1)
                    },
            decreases text.len() - i,
        {
            let byte = text[i];
            assert(text@.take(i + 1).drop_last() == text@.take(i as int));
            if let Some(instruction) = RawInstruction::from_byte(byte) {
                instructions.push(
                    PositionedInstruction { instruction, line: line + 1, character: column + 1 },
                );
            }
            if byte == LINE_FEED {
                line = line + 1;
                column = 0;
            } else {
                column = column + 1;
            }
            i = i + 1;
        }
        assert(text@.take(text@.len() as int) == text@);
        Program { file: filename.to_owned(), instructions }
    }

    /// The name of the source file.
    pub fn file(&self) -> (r: &str)
        ensures
            r@ == self.file_name(),
    {
        self.file.as_str()
    }

    /// The instructions, in source order.
    pub fn instructions(&self) -> (r: &[PositionedInstruction])
        ensures
            r@ == self@,
            increasing(self@),
    {
        proof {
            use_type_invariant(self);
        }
        self.instructions.as_slice()
    }
}

} // verus!
