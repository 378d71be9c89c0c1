//! Errors of the cursor and of the tokenizer.
use vstd::prelude::*;
use crate::TokenType;

verus! {

/// A position in the text: 1-based line and 1-based column, the column
/// counted in characters.
#[derive(Clone, Copy, PartialEq, Eq, Debug)]
pub struct TextPos {
    pub row: usize,
    pub col: usize,
}

impl TextPos {
    /// A position from a line and a column.
    pub fn new(row: usize, col: usize) -> (r: TextPos)
        ensures
            r.row == row,
            r.col == col,
    {
        TextPos { row, col }
    }
}

/// A failure of one cursor operation.
#[derive(Clone, PartialEq, Eq, Debug)]
pub enum StreamError {
    /// The input ended where more was required.
    UnexpectedEndOfStream,
    /// No XML name starts here.
    InvalidName,
    /// A byte other than the expected ones: the byte found, then those expected.
    InvalidChar(Vec<u8>, TextPos),
    /// Whitespace was required; holds the byte found.
    InvalidSpace(u8, TextPos),
    /// A literal other than the expected ones: the text found first where it
    /// is known, then the literals that were allowed.
    InvalidString(Vec<Vec<u8>>, TextPos),
    /// `SYSTEM` or `PUBLIC` was required.
    InvalidExternalID,
    /// An attribute value holds a `<`.
    InvalidAttributeValue,
}

/// A failure of the tokenizer. It ends the token sequence.
#[derive(Clone, PartialEq, Eq, Debug)]
pub enum Error {
    /// The production of the given token type failed at the token's start,
    /// with the cursor's reason where there is one.
    InvalidToken(TokenType, TextPos, Option<StreamError>),
    /// A token that is not allowed in the current context.
    UnexpectedToken(TokenType, TextPos),
    /// The input matches no token at all.
    UnknownToken(TextPos),
}

} // verus!
