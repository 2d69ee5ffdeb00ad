//! The instruction set and the error taxonomy.

use vstd::prelude::*;

verus! {

/// One instruction of the language. Produced by the parser; never mutated.
#[derive(Copy, Clone, Debug, PartialEq, Eq, Structural)]
pub enum Operation {
    /// `>`: move the data pointer one cell to the right.
    Right,
    /// `<`: move the data pointer one cell to the left.
    Left,
    /// `+`: add one to the current cell.
    Add,
    /// `-`: subtract one from the current cell.
    Sub,
    /// `.`: emit the current cell's value as one output byte.
    Output,
    /// `,`: store the next input byte in the current cell.
    Input,
    /// `[`: if the current cell is zero, jump past the matching `]`.
    LeftBracket,
    /// `]`: if the current cell is non-zero, jump back to the matching `[`.
    RightBracket,
}

/// How a run of the pipeline can fail.
#[derive(Copy, Clone, Debug, PartialEq, Eq, Structural)]
pub enum BrainFuckError {
    /// An unmatched bracket was found while resolving loops.
    SyntaxError,
    /// The data pointer left the tape, or the tape has no cells at all.
    PointerOutOfBound,
    /// A cell was pushed above 255 or below 0.
    IncorrectValue,
    /// An `Input` instruction ran after the input sequence was used up.
    InputExhausted,
}

/// The instruction a source character stands for, or `None` for the
/// characters the parser discards as comments.
pub open spec fn char_to_op(c: char) -> Option<Operation> {
    match c {
        '>' => Some(Operation::Right),
        '<' => Some(Operation::Left),
        '+' => Some(Operation::Add),
        '-' => Some(Operation::Sub),
        '.' => Some(Operation::Output),
        ',' => Some(Operation::Input),
        '[' => Some(Operation::LeftBracket),
        ']' => Some(Operation::RightBracket),
        _ => None,
    }
}

impl Operation {
    /// Decode one source character; `None` means the character is a comment.
    pub fn from_char(c: char) -> (r: Option<Operation>)
        ensures
            r == char_to_op(c),
    {
        match c {
            '>' => Some(Operation::Right),
            '<' => Some(Operation::Left),
            '+' => Some(Operation::Add),
            '-' => Some(Operation::Sub),
            '.' => Some(Operation::Output),
            ',' => Some(Operation::Input),
            '[' => Some(Operation::LeftBracket),
            ']' => Some(Operation::RightBracket),
            _ => None,
        }
    }
}

impl BrainFuckError {
    /// The one-line message that a failed run reports on its output stream.
    pub fn message(&self) -> (r: &'static str)
        ensures
            *self == BrainFuckError::SyntaxError ==> r@ == "SYNTAX ERROR"@,
            *self == BrainFuckError::IncorrectValue ==> r@ == "INCORRECT VALUE"@,
            *self == BrainFuckError::PointerOutOfBound ==> r@ == "POINTER OUT OF BOUNDS"@,
            *self == BrainFuckError::InputExhausted ==> r@ == "INPUT EXHAUSTED"@,
    {
        match self {
            BrainFuckError::SyntaxError => "SYNTAX ERROR",
            BrainFuckError::IncorrectValue => "INCORRECT VALUE",
            BrainFuckError::PointerOutOfBound => "POINTER OUT OF BOUNDS",
            BrainFuckError::InputExhausted => "INPUT EXHAUSTED",
        }
    }
}

} // verus!
