use crate::lexer::TokenItem;
use crate::parser::error::{ParseError, ParseErrorType};
use crate::token::{TerminalToken, TokenType};
use vstd::prelude::*;

verus! {

/// What a rule of the grammar makes of the tokens from a place on: what it reads, and the place
/// behind it.
pub type Parsed<T> = Result<(int, T), ParseError>;

/// The number of tokens from a place on.
pub open spec fn left(items: Seq<TokenItem<'_>>, at: int) -> nat {
    if at < items.len() {
        (items.len() - at) as nat
    } else {
        0
    }
}

/// What a rule reads that takes at least one token, and none behind the last one. This is what
/// ends the recursion of the rules. It leaves what a rule reads as it is: the function that reads
/// a rule proves that it ends in those bounds.
pub open spec fn took<T>(items: Seq<TokenItem<'_>>, at: int, found: Parsed<T>) -> Parsed<T> {
    match found {
        Ok((next, value)) => Ok(
            (
                if at < next <= items.len() {
                    next
                } else {
                    at + 1
                },
                value,
            ),
        ),
        Err(error) => Err(error),
    }
}

/// What a rule reads that can take no token at all.
pub open spec fn kept<T>(items: Seq<TokenItem<'_>>, at: int, found: Parsed<T>) -> Parsed<T> {
    match found {
        Ok((next, value)) => Ok(
            (
                if at <= next <= items.len() {
                    next
                } else {
                    at
                },
                value,
            ),
        ),
        Err(error) => Err(error),
    }
}

/// An error about the token at a place.
pub open spec fn wrong<T>(ty: ParseErrorType, at: int) -> Parsed<T> {
    Err(ParseError { ty, token_index: at as usize })
}

/// An error about a terminal that does not stand at a place.
pub open spec fn missing<T>(terminal: TerminalToken, at: int) -> Parsed<T> {
    wrong(ParseErrorType::ExpectedTerminal(terminal), at)
}

/// Whether a terminal stands at a place.
pub open spec fn has_terminal(
    items: Seq<TokenItem<'_>>,
    at: int,
    terminal: TerminalToken,
) -> bool {
    0 <= at < items.len() && items[at].token.ty == TokenType::Terminal(terminal)
}

/// Whether a name stands at a place.
pub open spec fn has_name(items: Seq<TokenItem<'_>>, at: int) -> bool {
    0 <= at < items.len() && items[at].token.ty is Identifier
}

/// Whether the line does not end before a place.
pub open spec fn on_same_line(items: Seq<TokenItem<'_>>, at: int) -> bool {
    0 < at <= items.len() && items[at - 1].token.new_line is None
}

/// Whether what a parser returns is what a rule of the grammar makes of the tokens.
pub open spec fn agrees<T>(found: Result<(usize, T), ParseError>, model: Parsed<T>) -> bool {
    match found {
        Ok((next, value)) => model == Ok::<(int, T), ParseError>((next as int, value)),
        Err(error) => model == Err::<(int, T), ParseError>(error),
    }
}

/// Whether a terminal stands at a place.
pub(crate) fn at_terminal(
    items: &[TokenItem<'_>],
    at: usize,
    terminal: TerminalToken,
) -> (found: bool)
    ensures
        found == has_terminal(items@, at as int, terminal),
{
    if at < items.len() {
        match items[at].token.ty {
            TokenType::Terminal(other) => other == terminal,
            _ => false,
        }
    } else {
        false
    }
}

/// Whether a name stands at a place.
pub(crate) fn at_name(items: &[TokenItem<'_>], at: usize) -> (found: bool)
    ensures
        found == has_name(items@, at as int),
{
    if at < items.len() {
        match items[at].token.ty {
            TokenType::Identifier(_) => true,
            _ => false,
        }
    } else {
        false
    }
}

/// Whether the line does not end before a place.
pub(crate) fn same_line(items: &[TokenItem<'_>], at: usize) -> (same: bool)
    ensures
        same == on_same_line(items@, at as int),
{
    if 0 < at && at <= items.len() {
        match items[at - 1].token.new_line {
            Some(_) => false,
            None => true,
        }
    } else {
        false
    }
}

/// Creates an error about a terminal that does not stand at a place.
pub(crate) fn missing_terminal(terminal: TerminalToken, at: usize) -> (error: ParseError)
    ensures
        error == (ParseError {
            ty: ParseErrorType::ExpectedTerminal(terminal),
            token_index: at,
        }),
{
    ParseError::new(ParseErrorType::ExpectedTerminal(terminal), at)
}

/// Checks that a terminal stands at a place.
pub(crate) fn expect(items: &[TokenItem<'_>], at: usize, terminal: TerminalToken) -> (found: Result<
    (),
    ParseError,
>)
    ensures
        match found {
            Ok(()) => has_terminal(items@, at as int, terminal),
            Err(error) => {
                &&& !has_terminal(items@, at as int, terminal)
                &&& error == (ParseError {
                    ty: ParseErrorType::ExpectedTerminal(terminal),
                    token_index: at,
                })
            },
        },
{
    if at_terminal(items, at, terminal) {
        Ok(())
    } else {
        Err(missing_terminal(terminal, at))
    }
}

} // verus!
