use crate::ast::{Identifier, SeparatedList1};
use crate::lexer::TokenItem;
use crate::list::List;
use crate::list;
use crate::parser::error::{ParseError, ParseErrorType};
use crate::parser::grammar::Parsed;
use crate::parser::grammar;
use crate::token::{TerminalToken, TokenType};
use vstd::prelude::*;

verus! {

/// A name.
pub open spec fn identifier_at<'s>(items: Seq<TokenItem<'s>>, at: int) -> Parsed<Identifier<'s>> {
    if 0 <= at < items.len() {
        match items[at].token.ty {
            TokenType::Identifier(value) => Ok(
                (at + 1, Identifier { value, token: &items[at].token }),
            ),
            _ => grammar::wrong(ParseErrorType::ExpectedIdentifier, at),
        }
    } else {
        grammar::wrong(ParseErrorType::ExpectedIdentifier, at)
    }
}

/// Reads a name.
pub(crate) fn identifier<'s>(items: &'s [TokenItem<'s>], at: usize) -> (found: Result<
    (usize, Identifier<'s>),
    ParseError,
>)
    requires
        at <= items.len(),
    ensures
        grammar::agrees(found, identifier_at(items@, at as int)),
        found matches Ok((next, _)) ==> at < next <= items.len(),
{
    if at < items.len() {
        match items[at].token.ty {
            TokenType::Identifier(value) => Ok(
                (at + 1, Identifier { value, token: &items[at].token }),
            ),
            _ => Err(ParseError::new(ParseErrorType::ExpectedIdentifier, at)),
        }
    } else {
        Err(ParseError::new(ParseErrorType::ExpectedIdentifier, at))
    }
}

/// Names with `::` between them, behind those found before.
#[verifier::opaque]
pub open spec fn names_from<'s>(
    items: Seq<TokenItem<'s>>,
    at: int,
    found: Seq<Identifier<'s>>,
) -> Parsed<SeparatedList1<Identifier<'s>>>
    decreases grammar::left(items, at),
{
    match identifier_at(items, at) {
        Ok((next, name)) => {
            if grammar::has_terminal(items, next, TerminalToken::Namespace) {
                names_from(items, next + 1, found.push(name))
            } else {
                Ok(
                    (
                        next,
                        SeparatedList1 { items: list::list_of(found), last_item: Box::new(name) },
                    ),
                )
            }
        },
        Err(error) => Err(error),
    }
}

/// Reads names with `::` between them.
pub(crate) fn names<'s>(items: &'s [TokenItem<'s>], at: usize) -> (found: Result<
    (usize, SeparatedList1<Identifier<'s>>),
    ParseError,
>)
    requires
        at <= items.len(),
    ensures
        grammar::agrees(found, names_from(items@, at as int, Seq::empty())),
        found matches Ok((next, _)) ==> at < next <= items.len(),
{
    let mut read: Vec<Identifier<'s>> = Vec::new();
    let mut place: usize = at;
    loop
        invariant
            at <= place <= items.len(),
            names_from(items@, place as int, read@) == names_from(items@, at as int, Seq::empty()),
        decreases items.len() - place,
    {
        proof {
            reveal(names_from);
        }
        let (next, name) = identifier(items, place)?;
        if !grammar::at_terminal(items, next, TerminalToken::Namespace) {
            return Ok(
                (next, SeparatedList1 { items: List::from_vec(read), last_item: Box::new(name) }),
            );
        }
        read.push(name);
        place = next + 1;
    }
}

} // verus!
