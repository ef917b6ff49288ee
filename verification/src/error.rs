//! The errors of lexing and parsing. Each carries the position of what went
//! wrong and nothing else.

use vstd::prelude::*;
use crate::token::Pos;

verus! {

/// Why a parse failed.
#[derive(Debug, Clone, Copy, PartialEq, Eq, Structural, Hash)]
pub enum ParseError {
    /// An expression was expected where the input ends.
    MissingExpression(Pos),
    /// A closing delimiter was expected where the input ends.
    MissingDelimiter(Pos),
    /// A delimiter was required and another token stands in its place.
    UnexpectedDelimiter(Pos),
    /// A token, or a byte that begins no token, stands where no rule admits
    /// it.
    UnexpectedToken(Pos),
}

impl ParseError {
    /// The position that the error carries.
    pub fn position(&self) -> (pos: Pos)
        ensures
            pos == self.spec_position(),
    {
        match self {
            ParseError::MissingExpression(pos) => *pos,
            ParseError::MissingDelimiter(pos) => *pos,
            ParseError::UnexpectedDelimiter(pos) => *pos,
            ParseError::UnexpectedToken(pos) => *pos,
        }
    }

    /// The position that the error carries.
    pub open spec fn spec_position(&self) -> Pos {
        match self {
            ParseError::MissingExpression(pos) => *pos,
            ParseError::MissingDelimiter(pos) => *pos,
            ParseError::UnexpectedDelimiter(pos) => *pos,
            ParseError::UnexpectedToken(pos) => *pos,
        }
    }
}

} // verus!
