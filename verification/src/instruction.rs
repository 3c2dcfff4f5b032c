//! The instruction set and the compiler from program text.

use vstd::prelude::*;

verus! {

/// One of the eight operations of the machine.
#[derive(Clone, Copy, Debug, PartialEq, Eq, Structural)]
pub enum Instruction {
    /// `>`: move the data pointer one cell to the right.
    IncrementDataPtr,
    /// `<`: move the data pointer one cell to the left.
    DecrementDataPtr,
    /// `+`: add one to the current cell, wrapping at 255.
    Increment,
    /// `-`: subtract one from the current cell, wrapping at 0.
    Decrement,
    /// `.`: emit the current cell.
    Output,
    /// `,`: read one byte into the current cell.
    Input,
    /// `[`: skip past the matching `]` if the current cell is zero.
    JmpForwardIfZero,
    /// `]`: go back to just after the matching `[` if the current cell is not zero.
    JmpBackwardIfNonZero,
}

impl Instruction {
    /// The instruction that a character of program text stands for, if any.
    pub open spec fn decode(c: char) -> Option<Instruction> {
        if c == '>' {
            Some(Instruction::IncrementDataPtr)
        } else if c == '<' {
            Some(Instruction::DecrementDataPtr)
        } else if c == '+' {
            Some(Instruction::Increment)
        } else if c == '-' {
            Some(Instruction::Decrement)
        } else if c == '.' {
            Some(Instruction::Output)
        } else if c == ',' {
            Some(Instruction::Input)
        } else if c == '[' {
            Some(Instruction::JmpForwardIfZero)
        } else if c == ']' {
            Some(Instruction::JmpBackwardIfNonZero)
        } else {
            None
        }
    }

    /// Decodes one character; every character but the eight symbols is refused.
    pub fn try_from(c: char) -> (r: Result<Instruction, ()>)
        ensures
            r == match Instruction::decode(c) {
                Some(i) => Ok::<Instruction, ()>(i),
                None => Err::<Instruction, ()>(()),
            },
    {
        match c {
            '>' => Ok(Instruction::IncrementDataPtr),
            '<' => Ok(Instruction::DecrementDataPtr),
            '+' => Ok(Instruction::Increment),
            '-' => Ok(Instruction::Decrement),
            '.' => Ok(Instruction::Output),
            ',' => Ok(Instruction::Input),
            '[' => Ok(Instruction::JmpForwardIfZero),
            ']' => Ok(Instruction::JmpBackwardIfNonZero),
            _ => Err(()),
        }
    }
}

/// The instruction sequence that a program text compiles to: the decoded
/// symbols in textual order, everything else dropped.
pub open spec fn compiled(text: Seq<char>) -> Seq<Instruction> {
    text.filter_map(|c: char| Instruction::decode(c))
}

/// Compiles program text. Never fails: what is not a symbol is a comment.
pub fn compile(text: &str) -> (program: Vec<Instruction>)
    ensures
        program@ == compiled(text@),
{
    let mut program: Vec<Instruction> = Vec::new();
    for c in it: text.chars()
        invariant
            it.seq() == text@,
            program@ == compiled(text@.take(it.index() as int)),
    {
        proof {
            lemma_compiled_push(text@.take(it.index() as int), c);
            assert(text@.take(it.index() + 1) =~= text@.take(it.index() as int).push(c));
        }
        match Instruction::try_from(c) {
            Ok(instruction) => {
                program.push(instruction);
            },
            Err(_) => {},
        }
    }
    assert(text@.take(text@.len() as int) =~= text@);
    program
}

/// Compiling one more character appends its instruction, if it has one.
pub proof fn lemma_compiled_push(text: Seq<char>, c: char)
    ensures
        compiled(text.push(c)) == match Instruction::decode(c) {
            Some(instruction) => compiled(text).push(instruction),
            None => compiled(text),
        },
{
    assert(text.push(c).drop_last() =~= text);
    match Instruction::decode(c) {
        Some(instruction) => {
            assert(compiled(text) + seq![instruction] =~= compiled(text).push(instruction));
        },
        None => {},
    }
}

/// Compilation goes through a text piece by piece.
pub proof fn lemma_compiled_concat(a: Seq<char>, b: Seq<char>)
    ensures
        compiled(a + b) == compiled(a) + compiled(b),
    decreases b.len(),
{
    if b.len() == 0 {
        assert(a + b =~= a);
        assert(compiled(a) + compiled(b) =~= compiled(a));
    } else {
        lemma_compiled_concat(a, b.drop_last());
        lemma_compiled_push(a + b.drop_last(), b.last());
        lemma_compiled_push(b.drop_last(), b.last());
        assert((a + b.drop_last()).push(b.last()) =~= a + b);
        assert(b.drop_last().push(b.last()) =~= b);
        match Instruction::decode(b.last()) {
            Some(instruction) => {
                assert((compiled(a) + compiled(b.drop_last())).push(instruction) =~= compiled(a)
                    + compiled(b.drop_last()).push(instruction));
            },
            None => {},
        }
    }
}

/// A text without any of the eight symbols compiles to the empty program.
pub proof fn lemma_compiled_comment_is_empty(text: Seq<char>)
    requires
        forall|i: int| 0 <= i < text.len() ==> Instruction::decode(#[trigger] text[i]) is None,
    ensures
        compiled(text) == Seq::<Instruction>::empty(),
    decreases text.len(),
{
    if text.len() > 0 {
        lemma_compiled_comment_is_empty(text.drop_last());
        assert(Instruction::decode(text[text.len() - 1]) is None);
    }
}

} // verus!
