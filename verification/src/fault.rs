//! The faults that end an execution, and how they are described.

use vstd::prelude::*;

verus! {

/// The way a bracket scan walks.
#[derive(Clone, Copy, Debug, PartialEq, Eq, Structural)]
pub enum Direction {
    /// From a `[` towards the end of the program.
    Forward,
    /// From a `]` towards the beginning of the program.
    Backward,
}

/// Why an execution was aborted. A fault is final: nothing is retried, and
/// the machine stays as it was before the faulting instruction.
#[derive(Debug, PartialEq, Eq)]
pub enum Fault {
    /// A bracket scan ran off the program. `position` is that of the bracket
    /// the scan started from.
    UnmatchedBracket { direction: Direction, position: usize },
    /// The input source could not deliver a byte, for another reason than
    /// being exhausted. `description` is what the source said.
    InputDecodeFailure { description: String },
    /// A move would have taken the data pointer off the tape. `position` is
    /// that of the move.
    DataPointerOutOfRange { position: usize },
}

/// The character of a decimal digit.
pub open spec fn digit(d: nat) -> char {
    if d == 0 {
        '0'
    } else if d == 1 {
        '1'
    } else if d == 2 {
        '2'
    } else if d == 3 {
        '3'
    } else if d == 4 {
        '4'
    } else if d == 5 {
        '5'
    } else if d == 6 {
        '6'
    } else if d == 7 {
        '7'
    } else if d == 8 {
        '8'
    } else {
        '9'
    }
}

/// A number in decimal, without sign or leading zeros.
pub open spec fn decimal(n: nat) -> Seq<char>
    decreases n,
{
    if n < 10 {
        seq![digit(n)]
    } else {
        decimal(n / 10).push(digit(n % 10))
    }
}

/// `String::push` of the standard library appends one character to the end
/// of the string and leaves the rest as it was.
pub assume_specification[ String::push ](text: &mut String, c: char)
    ensures
        final(text)@ == old(text)@.push(c),
;

fn digit_char(d: usize) -> (c: char)
    requires
        d < 10,
    ensures
        c == digit(d as nat),
{
    match d {
        0 => '0',
        1 => '1',
        2 => '2',
        3 => '3',
        4 => '4',
        5 => '5',
        6 => '6',
        7 => '7',
        8 => '8',
        _ => '9',
    }
}

/// Appends `n` in decimal to `text`.
pub fn push_decimal(text: &mut String, n: usize)
    ensures
        final(text)@ == old(text)@ + decimal(n as nat),
    decreases n,
{
    if n >= 10 {
        push_decimal(text, n / 10);
    }
    text.push(digit_char(n % 10));
    assert(old(text)@ + decimal(n as nat / 10).push(digit(n as nat % 10)) =~= (old(text)@
        + decimal(n as nat / 10)).push(digit(n as nat % 10)));
    assert(old(text)@ + seq![digit(n as nat)] =~= old(text)@.push(digit(n as nat)));
}

impl Fault {
    /// What the host shows to the user for this fault.
    pub open spec fn text(self) -> Seq<char> {
        match self {
            Fault::UnmatchedBracket { direction: Direction::Forward, position } => {
                "Unmatched `[` instruction at position "@ + decimal(position as nat)
            },
            Fault::UnmatchedBracket { direction: Direction::Backward, position } => {
                "Unmatched `]` instruction at position "@ + decimal(position as nat)
            },
            Fault::InputDecodeFailure { description } => description@,
            Fault::DataPointerOutOfRange { position } => {
                "Data pointer moved off the tape at position "@ + decimal(position as nat)
            },
        }
    }

    /// A human-readable description of the fault.
    pub fn description(&self) -> (text: String)
        ensures
            text@ == self.text(),
    {
        match self {
            Fault::UnmatchedBracket { direction, position } => {
                let mut text = match direction {
                    Direction::Forward => "Unmatched `[` instruction at position ".to_owned(),
                    Direction::Backward => "Unmatched `]` instruction at position ".to_owned(),
                };
                push_decimal(&mut text, *position);
                text
            },
            Fault::InputDecodeFailure { description } => description.clone(),
            Fault::DataPointerOutOfRange { position } => {
                let mut text = "Data pointer moved off the tape at position ".to_owned();
                push_decimal(&mut text, *position);
                text
            },
        }
    }
}

} // verus!
