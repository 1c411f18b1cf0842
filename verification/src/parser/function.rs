use crate::ast::{FunctionDefinition, FunctionParam, FunctionParams};
use crate::lexer::TokenItem;
use crate::list::List;
use crate::list;
use crate::parser::error::ParseError;
use crate::parser::grammar::Parsed;
use crate::parser::{grammar, statement, type_, variable};
use crate::token::TerminalToken;
use vstd::prelude::*;

verus! {

/// A parameter of a function.
#[verifier::opaque]
pub open spec fn param_at<'s>(items: Seq<TokenItem<'s>>, at: int) -> Parsed<FunctionParam<'s>>
    decreases grammar::left(items, at), 6nat,
{
    match grammar::took(items, at, type_::typed_name_at(items, at)) {
        Ok((after_named, named)) => {
            match grammar::kept(items, after_named, variable::initializer_at(items, after_named)) {
                Ok((after_default, default)) => {
                    Ok((after_default, FunctionParam { ty: named.ty, name: named.name, default }))
                },
                Err(error) => Err(error),
            }
        },
        Err(error) => Err(error),
    }
}

/// Reads a parameter of a function.
pub(crate) fn param<'s>(items: &'s [TokenItem<'s>], at: usize) -> (found: Result<
    (usize, FunctionParam<'s>),
    ParseError,
>)
    requires
        at <= items.len(),
    ensures
        grammar::agrees(found, param_at(items@, at as int)),
        found matches Ok((next, _)) ==> at < next <= items.len(),
    decreases grammar::left(items@, at as int), 6nat,
{
    proof {
        reveal(param_at);
    }
    let (after_named, named) = type_::typed_name(items, at)?;
    let (after_default, default) = variable::initializer(items, after_named)?;
    Ok((after_default, FunctionParam { ty: named.ty, name: named.name, default }))
}

/// Parameters up to `)`, behind those found before.
#[verifier::opaque]
pub open spec fn param_list_from<'s>(
    items: Seq<TokenItem<'s>>,
    at: int,
    found: Seq<FunctionParam<'s>>,
) -> Parsed<FunctionParams<'s>>
    decreases grammar::left(items, at), 7nat,
{
    if grammar::has_terminal(items, at, TerminalToken::CloseBracket) {
        Ok((at + 1, FunctionParams { params: list::list_of(found), is_vararg: false }))
    } else if grammar::has_terminal(items, at, TerminalToken::Vararg) {
        if grammar::has_terminal(items, at + 1, TerminalToken::CloseBracket) {
            Ok((at + 2, FunctionParams { params: list::list_of(found), is_vararg: true }))
        } else {
            grammar::missing(TerminalToken::CloseBracket, at + 1)
        }
    } else if at >= items.len() {
        grammar::missing(TerminalToken::CloseBracket, at)
    } else {
        match grammar::took(items, at, param_at(items, at)) {
            Ok((next, param)) => {
                if grammar::has_terminal(items, next, TerminalToken::Comma) {
                    param_list_from(items, next + 1, found.push(param))
                } else if grammar::has_terminal(items, next, TerminalToken::CloseBracket) {
                    Ok(
                        (
                            next + 1,
                            FunctionParams {
                                params: list::list_of(found.push(param)),
                                is_vararg: false,
                            },
                        ),
                    )
                } else {
                    grammar::missing(TerminalToken::CloseBracket, next)
                }
            },
            Err(error) => Err(error),
        }
    }
}

/// Reads parameters up to `)`.
pub(crate) fn param_list<'s>(items: &'s [TokenItem<'s>], at: usize) -> (found: Result<
    (usize, FunctionParams<'s>),
    ParseError,
>)
    requires
        at <= items.len(),
    ensures
        grammar::agrees(found, param_list_from(items@, at as int, Seq::empty())),
        found matches Ok((next, _)) ==> at < next <= items.len(),
    decreases grammar::left(items@, at as int), 7nat,
{
    let mut read: Vec<FunctionParam<'s>> = Vec::new();
    let mut place: usize = at;
    loop
        invariant
            at <= place <= items.len(),
            param_list_from(items@, place as int, read@) == param_list_from(
                items@,
                at as int,
                Seq::empty(),
            ),
        decreases items.len() - place,
    {
        proof {
            reveal(param_list_from);
            reveal(param_at);
        }
        if grammar::at_terminal(items, place, TerminalToken::CloseBracket) {
            let params = List::from_vec(read);
            return Ok((place + 1, FunctionParams { params, is_vararg: false }));
        }
        if grammar::at_terminal(items, place, TerminalToken::Vararg) {
            grammar::expect(items, place + 1, TerminalToken::CloseBracket)?;
            let params = List::from_vec(read);
            return Ok((place + 2, FunctionParams { params, is_vararg: true }));
        }
        if place >= items.len() {
            return Err(grammar::missing_terminal(TerminalToken::CloseBracket, place));
        }
        let (next, item) = param(items, place)?;
        read.push(item);
        if grammar::at_terminal(items, next, TerminalToken::Comma) {
            place = next + 1;
        } else {
            grammar::expect(items, next, TerminalToken::CloseBracket)?;
            let params = List::from_vec(read);
            return Ok((next + 1, FunctionParams { params, is_vararg: false }));
        }
    }
}

/// The parameters of a function with the brackets round them.
#[verifier::opaque]
pub open spec fn params_at<'s>(items: Seq<TokenItem<'s>>, at: int) -> Parsed<FunctionParams<'s>>
    decreases grammar::left(items, at), 0nat,
{
    if grammar::has_terminal(items, at, TerminalToken::OpenBracket) {
        match grammar::took(items, at + 1, param_list_from(items, at + 1, Seq::empty())) {
            Ok((after_params, params)) => {
                Ok((after_params, params))
            },
            Err(error) => Err(error),
        }
    } else {
        grammar::missing(TerminalToken::OpenBracket, at)
    }
}

/// Reads the parameters of a function with the brackets round them.
pub(crate) fn params<'s>(items: &'s [TokenItem<'s>], at: usize) -> (found: Result<
    (usize, FunctionParams<'s>),
    ParseError,
>)
    requires
        at <= items.len(),
    ensures
        grammar::agrees(found, params_at(items@, at as int)),
        found matches Ok((next, _)) ==> at < next <= items.len(),
    decreases grammar::left(items@, at as int), 0nat,
{
    proof {
        reveal(params_at);
        reveal(param_list_from);
    }
    grammar::expect(items, at, TerminalToken::OpenBracket)?;
    let (after_params, params) = param_list(items, at + 1)?;
    Ok((after_params, params))
}

/// The parameters and the body of a function.
#[verifier::opaque]
pub open spec fn definition_at<'s>(
    items: Seq<TokenItem<'s>>,
    at: int,
) -> Parsed<FunctionDefinition<'s>>
    decreases grammar::left(items, at), 1nat,
{
    if grammar::has_terminal(items, at, TerminalToken::OpenBracket) {
        match grammar::took(items, at + 1, param_list_from(items, at + 1, Seq::empty())) {
            Ok((after_params, params)) => {
                match grammar::took(
                    items,
                    after_params,
                    statement::statement_at(items, after_params),
                ) {
                    Ok((after_body, body)) => {
                        Ok((after_body, FunctionDefinition { params, body: Box::new(body) }))
                    },
                    Err(error) => Err(error),
                }
            },
            Err(error) => Err(error),
        }
    } else {
        grammar::missing(TerminalToken::OpenBracket, at)
    }
}

/// Reads the parameters and the body of a function.
pub(crate) fn definition<'s>(items: &'s [TokenItem<'s>], at: usize) -> (found: Result<
    (usize, FunctionDefinition<'s>),
    ParseError,
>)
    requires
        at <= items.len(),
    ensures
        grammar::agrees(found, definition_at(items@, at as int)),
        found matches Ok((next, _)) ==> at < next <= items.len(),
    decreases grammar::left(items@, at as int), 1nat,
{
    proof {
        reveal(definition_at);
        reveal(param_list_from);
    }
    grammar::expect(items, at, TerminalToken::OpenBracket)?;
    let (after_params, params) = param_list(items, at + 1)?;
    let (after_body, body) = statement::statement(items, after_params)?;
    Ok((after_body, FunctionDefinition { params, body: Box::new(body) }))
}

} // verus!
