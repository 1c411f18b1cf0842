use crate::ast::{Expression, Variable};
use crate::lexer::TokenItem;
use crate::list::List;
use crate::list;
use crate::parser::error::ParseError;
use crate::parser::grammar::Parsed;
use crate::parser::{expression, grammar, name};
use crate::token::TerminalToken;
use vstd::prelude::*;

verus! {

/// A first value behind `=`, or nothing.
#[verifier::opaque]
pub open spec fn initializer_at<'s>(
    items: Seq<TokenItem<'s>>,
    at: int,
) -> Parsed<Option<Expression<'s>>>
    decreases grammar::left(items, at), 0nat,
{
    if grammar::has_terminal(items, at, TerminalToken::Assign) {
        match grammar::took(items, at + 1, expression::expression_at(items, at + 1)) {
            Ok((next, value)) => Ok((next, Some(value))),
            Err(error) => Err(error),
        }
    } else {
        Ok((at, None))
    }
}

/// Reads a first value behind `=`, or nothing.
pub(crate) fn initializer<'s>(items: &'s [TokenItem<'s>], at: usize) -> (found: Result<
    (usize, Option<Expression<'s>>),
    ParseError,
>)
    requires
        at <= items.len(),
    ensures
        grammar::agrees(found, initializer_at(items@, at as int)),
        found matches Ok((next, _)) ==> at <= next <= items.len(),
    decreases grammar::left(items@, at as int), 0nat,
{
    proof {
        reveal(initializer_at);
    }
    if grammar::at_terminal(items, at, TerminalToken::Assign) {
        let (next, value) = expression::expression(items, at + 1)?;
        Ok((next, Some(value)))
    } else {
        Ok((at, None))
    }
}

/// A variable.
#[verifier::opaque]
pub open spec fn variable_at<'s>(items: Seq<TokenItem<'s>>, at: int) -> Parsed<Variable<'s>>
    decreases grammar::left(items, at), 1nat,
{
    match name::identifier_at(items, at) {
        Ok((after_name, name)) => {
            match grammar::kept(items, after_name, initializer_at(items, after_name)) {
                Ok((after_value, value)) => {
                    Ok((after_value, Variable { name, value }))
                },
                Err(error) => Err(error),
            }
        },
        Err(error) => Err(error),
    }
}

/// Reads a variable.
pub(crate) fn variable<'s>(items: &'s [TokenItem<'s>], at: usize) -> (found: Result<
    (usize, Variable<'s>),
    ParseError,
>)
    requires
        at <= items.len(),
    ensures
        grammar::agrees(found, variable_at(items@, at as int)),
        found matches Ok((next, _)) ==> at < next <= items.len(),
    decreases grammar::left(items@, at as int), 1nat,
{
    proof {
        reveal(variable_at);
        reveal(initializer_at);
    }
    let (after_name, name) = name::identifier(items, at)?;
    let (after_value, value) = initializer(items, after_name)?;
    Ok((after_value, Variable { name, value }))
}

/// Variables with a comma between them, behind those found before.
#[verifier::opaque]
pub open spec fn variables_from<'s>(
    items: Seq<TokenItem<'s>>,
    at: int,
    found: Seq<Variable<'s>>,
) -> Parsed<List<Variable<'s>>>
    decreases grammar::left(items, at), 2nat,
{
    match grammar::took(items, at, variable_at(items, at)) {
        Ok((next, variable)) => {
            if grammar::has_terminal(items, next, TerminalToken::Comma) {
                variables_from(items, next + 1, found.push(variable))
            } else {
                Ok((next, list::list_of(found.push(variable))))
            }
        },
        Err(error) => Err(error),
    }
}

/// Reads variables with a comma between them.
pub(crate) fn variables<'s>(items: &'s [TokenItem<'s>], at: usize) -> (found: Result<
    (usize, List<Variable<'s>>),
    ParseError,
>)
    requires
        at <= items.len(),
    ensures
        grammar::agrees(found, variables_from(items@, at as int, Seq::empty())),
        found matches Ok((next, _)) ==> at < next <= items.len(),
    decreases grammar::left(items@, at as int), 2nat,
{
    let mut read: Vec<Variable<'s>> = Vec::new();
    let mut place: usize = at;
    loop
        invariant
            at <= place <= items.len(),
            variables_from(items@, place as int, read@) == variables_from(
                items@,
                at as int,
                Seq::empty(),
            ),
        decreases items.len() - place,
    {
        proof {
            reveal(variables_from);
            reveal(variable_at);
        }
        let (next, item) = variable(items, place)?;
        read.push(item);
        if !grammar::at_terminal(items, next, TerminalToken::Comma) {
            return Ok((next, List::from_vec(read)));
        }
        place = next + 1;
    }
}

} // verus!
