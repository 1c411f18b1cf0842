use crate::token::TerminalToken;
use vstd::prelude::*;

verus! {

/// What a parser needs where it finds something else.
#[derive(Debug, Clone, Copy, PartialEq, Eq, Structural)]
pub enum ParseErrorType {
    /// A given terminal.
    ExpectedTerminal(TerminalToken),

    /// A name.
    ExpectedIdentifier,

    /// An expression.
    ExpectedExpression,

    /// A type.
    ExpectedType,

    /// A definition behind `global`.
    ExpectedDefinition,

    /// The end of a statement: a semicolon, a line break or a closing brace.
    ExpectedEndOfStatement,
}

/// An error in a list of tokens, and where it is.
#[derive(Debug, Clone, Copy, PartialEq, Eq, Structural)]
pub struct ParseError {
    /// What is wrong.
    pub ty: ParseErrorType,

    /// The index of the token that is wrong, or the number of tokens if one is missing at the end.
    pub token_index: usize,
}

impl ParseError {
    /// Creates an error about a token.
    pub fn new(ty: ParseErrorType, token_index: usize) -> (error: Self)
        ensures
            error == (ParseError { ty, token_index }),
    {
        ParseError { ty, token_index }
    }
}

} // verus!
