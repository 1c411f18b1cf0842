use crate::ast::{Expression, Identifier, PostfixOperator, TableEntry};
use crate::lexer::TokenItem;
use crate::list::List;
use crate::list;
use crate::parser::error::{ParseError, ParseErrorType};
use crate::parser::grammar::Parsed;
use crate::parser::{function, grammar, name, operator, type_};
use crate::token::{TerminalToken, TokenType};
use vstd::prelude::*;

verus! {

/// Elements of an array up to `]`, each with a comma behind it or not, behind those found before.
#[verifier::opaque]
pub open spec fn elements_from<'s>(
    items: Seq<TokenItem<'s>>,
    at: int,
    found: Seq<Expression<'s>>,
) -> Parsed<List<Expression<'s>>>
    decreases grammar::left(items, at), 17nat,
{
    if grammar::has_terminal(items, at, TerminalToken::CloseSquare) {
        Ok((at + 1, list::list_of(found)))
    } else if at >= items.len() {
        grammar::missing(TerminalToken::CloseSquare, at)
    } else {
        match grammar::took(items, at, expression_at(items, at)) {
            Ok((next, item)) => {
                elements_from(
                    items,
                    if grammar::has_terminal(items, next, TerminalToken::Comma) {
                        next + 1
                    } else {
                        next
                    },
                    found.push(item),
                )
            },
            Err(error) => Err(error),
        }
    }
}

/// Reads elements of an array up to `]`, each with a comma behind it or not.
pub(crate) fn elements<'s>(items: &'s [TokenItem<'s>], at: usize) -> (found: Result<
    (usize, List<Expression<'s>>),
    ParseError,
>)
    requires
        at <= items.len(),
    ensures
        grammar::agrees(found, elements_from(items@, at as int, Seq::empty())),
        found matches Ok((next, _)) ==> at < next <= items.len(),
    decreases grammar::left(items@, at as int), 17nat,
{
    let mut read: Vec<Expression<'s>> = Vec::new();
    let mut place: usize = at;
    loop
        invariant
            at <= place <= items.len(),
            elements_from(items@, place as int, read@) == elements_from(
                items@,
                at as int,
                Seq::empty(),
            ),
        decreases items.len() - place,
    {
        proof {
            reveal(elements_from);
            reveal(expression_at);
        }
        if grammar::at_terminal(items, place, TerminalToken::CloseSquare) {
            return Ok((place + 1, List::from_vec(read)));
        }
        if place >= items.len() {
            return Err(grammar::missing_terminal(TerminalToken::CloseSquare, place));
        }
        let (next, item) = expression(items, place)?;
        read.push(item);
        place = if grammar::at_terminal(items, next, TerminalToken::Comma) {
            next + 1
        } else {
            next
        };
    }
}

/// Arguments of a call up to `)`, behind those found before.
#[verifier::opaque]
pub open spec fn arguments_from<'s>(
    items: Seq<TokenItem<'s>>,
    at: int,
    found: Seq<Expression<'s>>,
) -> Parsed<List<Expression<'s>>>
    decreases grammar::left(items, at), 17nat,
{
    if grammar::has_terminal(items, at, TerminalToken::CloseBracket) {
        Ok((at + 1, list::list_of(found)))
    } else if at >= items.len() {
        grammar::missing(TerminalToken::CloseBracket, at)
    } else {
        match grammar::took(items, at, expression_at(items, at)) {
            Ok((next, item)) => {
                if grammar::has_terminal(items, next, TerminalToken::Comma) {
                    arguments_from(items, next + 1, found.push(item))
                } else if grammar::has_terminal(items, next, TerminalToken::CloseBracket) {
                    Ok((next + 1, list::list_of(found.push(item))))
                } else {
                    grammar::missing(TerminalToken::CloseBracket, next)
                }
            },
            Err(error) => Err(error),
        }
    }
}

/// Reads arguments of a call up to `)`.
pub(crate) fn arguments<'s>(items: &'s [TokenItem<'s>], at: usize) -> (found: Result<
    (usize, List<Expression<'s>>),
    ParseError,
>)
    requires
        at <= items.len(),
    ensures
        grammar::agrees(found, arguments_from(items@, at as int, Seq::empty())),
        found matches Ok((next, _)) ==> at < next <= items.len(),
    decreases grammar::left(items@, at as int), 17nat,
{
    let mut read: Vec<Expression<'s>> = Vec::new();
    let mut place: usize = at;
    loop
        invariant
            at <= place <= items.len(),
            arguments_from(items@, place as int, read@) == arguments_from(
                items@,
                at as int,
                Seq::empty(),
            ),
        decreases items.len() - place,
    {
        proof {
            reveal(arguments_from);
            reveal(expression_at);
        }
        if grammar::at_terminal(items, place, TerminalToken::CloseBracket) {
            return Ok((place + 1, List::from_vec(read)));
        }
        if place >= items.len() {
            return Err(grammar::missing_terminal(TerminalToken::CloseBracket, place));
        }
        let (next, item) = expression(items, place)?;
        read.push(item);
        if grammar::at_terminal(items, next, TerminalToken::Comma) {
            place = next + 1;
        } else {
            grammar::expect(items, next, TerminalToken::CloseBracket)?;
            return Ok((next + 1, List::from_vec(read)));
        }
    }
}

/// Entries of a table up to `}`, each with a comma behind it or not, behind those found before.
#[verifier::opaque]
pub open spec fn entries_from<'s>(
    items: Seq<TokenItem<'s>>,
    at: int,
    found: Seq<TableEntry<'s>>,
) -> Parsed<List<TableEntry<'s>>>
    decreases grammar::left(items, at), 18nat,
{
    if grammar::has_terminal(items, at, TerminalToken::CloseBrace) {
        Ok((at + 1, list::list_of(found)))
    } else if at >= items.len() {
        grammar::missing(TerminalToken::CloseBrace, at)
    } else {
        match grammar::took(items, at, entry_at(items, at)) {
            Ok((next, item)) => {
                entries_from(
                    items,
                    if grammar::has_terminal(items, next, TerminalToken::Comma) {
                        next + 1
                    } else {
                        next
                    },
                    found.push(item),
                )
            },
            Err(error) => Err(error),
        }
    }
}

/// Reads entries of a table up to `}`, each with a comma behind it or not.
pub(crate) fn entries<'s>(items: &'s [TokenItem<'s>], at: usize) -> (found: Result<
    (usize, List<TableEntry<'s>>),
    ParseError,
>)
    requires
        at <= items.len(),
    ensures
        grammar::agrees(found, entries_from(items@, at as int, Seq::empty())),
        found matches Ok((next, _)) ==> at < next <= items.len(),
    decreases grammar::left(items@, at as int), 18nat,
{
    let mut read: Vec<TableEntry<'s>> = Vec::new();
    let mut place: usize = at;
    loop
        invariant
            at <= place <= items.len(),
            entries_from(items@, place as int, read@) == entries_from(
                items@,
                at as int,
                Seq::empty(),
            ),
        decreases items.len() - place,
    {
        proof {
            reveal(entries_from);
            reveal(entry_at);
        }
        if grammar::at_terminal(items, place, TerminalToken::CloseBrace) {
            return Ok((place + 1, List::from_vec(read)));
        }
        if place >= items.len() {
            return Err(grammar::missing_terminal(TerminalToken::CloseBrace, place));
        }
        let (next, item) = entry(items, place)?;
        read.push(item);
        place = if grammar::at_terminal(items, next, TerminalToken::Comma) {
            next + 1
        } else {
            next
        };
    }
}

/// A named entry of a table.
#[verifier::opaque]
pub open spec fn property_entry_at<'s>(
    items: Seq<TokenItem<'s>>,
    at: int,
) -> Parsed<TableEntry<'s>>
    decreases grammar::left(items, at), 16nat,
{
    match name::identifier_at(items, at) {
        Ok((after_name, name)) => {
            if grammar::has_terminal(items, after_name, TerminalToken::Assign) {
                match grammar::took(items, after_name + 1, expression_at(items, after_name + 1)) {
                    Ok((after_value, value)) => {
                        Ok((after_value, TableEntry::Property(name, value)))
                    },
                    Err(error) => Err(error),
                }
            } else {
                grammar::missing(TerminalToken::Assign, after_name)
            }
        },
        Err(error) => Err(error),
    }
}

/// Reads a named entry of a table.
pub(crate) fn property_entry<'s>(items: &'s [TokenItem<'s>], at: usize) -> (found: Result<
    (usize, TableEntry<'s>),
    ParseError,
>)
    requires
        at <= items.len(),
    ensures
        grammar::agrees(found, property_entry_at(items@, at as int)),
        found matches Ok((next, _)) ==> at < next <= items.len(),
    decreases grammar::left(items@, at as int), 16nat,
{
    proof {
        reveal(property_entry_at);
        reveal(expression_at);
    }
    let (after_name, name) = name::identifier(items, at)?;
    grammar::expect(items, after_name, TerminalToken::Assign)?;
    let (after_value, value) = expression(items, after_name + 1)?;
    Ok((after_value, TableEntry::Property(name, value)))
}

/// An entry of a table under a key.
#[verifier::opaque]
pub open spec fn index_entry_at<'s>(items: Seq<TokenItem<'s>>, at: int) -> Parsed<TableEntry<'s>>
    decreases grammar::left(items, at), 16nat,
{
    if grammar::has_terminal(items, at, TerminalToken::OpenSquare) {
        match grammar::took(items, at + 1, expression_at(items, at + 1)) {
            Ok((after_key, key)) => {
                if grammar::has_terminal(items, after_key, TerminalToken::CloseSquare) {
                    if grammar::has_terminal(items, after_key + 1, TerminalToken::Assign) {
                        match grammar::took(
                            items,
                            after_key + 2,
                            expression_at(items, after_key + 2),
                        ) {
                            Ok((after_value, value)) => {
                                Ok((after_value, TableEntry::Index(key, value)))
                            },
                            Err(error) => Err(error),
                        }
                    } else {
                        grammar::missing(TerminalToken::Assign, after_key + 1)
                    }
                } else {
                    grammar::missing(TerminalToken::CloseSquare, after_key)
                }
            },
            Err(error) => Err(error),
        }
    } else {
        grammar::missing(TerminalToken::OpenSquare, at)
    }
}

/// Reads an entry of a table under a key.
pub(crate) fn index_entry<'s>(items: &'s [TokenItem<'s>], at: usize) -> (found: Result<
    (usize, TableEntry<'s>),
    ParseError,
>)
    requires
        at <= items.len(),
    ensures
        grammar::agrees(found, index_entry_at(items@, at as int)),
        found matches Ok((next, _)) ==> at < next <= items.len(),
    decreases grammar::left(items@, at as int), 16nat,
{
    proof {
        reveal(index_entry_at);
        reveal(expression_at);
    }
    grammar::expect(items, at, TerminalToken::OpenSquare)?;
    let (after_key, key) = expression(items, at + 1)?;
    grammar::expect(items, after_key, TerminalToken::CloseSquare)?;
    grammar::expect(items, after_key + 1, TerminalToken::Assign)?;
    let (after_value, value) = expression(items, after_key + 2)?;
    Ok((after_value, TableEntry::Index(key, value)))
}

/// A function in a table.
#[verifier::opaque]
pub open spec fn function_entry_at<'s>(
    items: Seq<TokenItem<'s>>,
    at: int,
) -> Parsed<TableEntry<'s>>
    decreases grammar::left(items, at), 16nat,
{
    if grammar::has_terminal(items, at, TerminalToken::Function) {
        match name::identifier_at(items, at + 1) {
            Ok((after_name, name)) => {
                match grammar::took(items, after_name, function::definition_at(items, after_name)) {
                    Ok((after_function, function)) => {
                        Ok((after_function, TableEntry::Function(name, function)))
                    },
                    Err(error) => Err(error),
                }
            },
            Err(error) => Err(error),
        }
    } else {
        grammar::missing(TerminalToken::Function, at)
    }
}

/// Reads a function in a table.
pub(crate) fn function_entry<'s>(items: &'s [TokenItem<'s>], at: usize) -> (found: Result<
    (usize, TableEntry<'s>),
    ParseError,
>)
    requires
        at <= items.len(),
    ensures
        grammar::agrees(found, function_entry_at(items@, at as int)),
        found matches Ok((next, _)) ==> at < next <= items.len(),
    decreases grammar::left(items@, at as int), 16nat,
{
    proof {
        reveal(function_entry_at);
    }
    grammar::expect(items, at, TerminalToken::Function)?;
    let (after_name, name) = name::identifier(items, at + 1)?;
    let (after_function, function) = function::definition(items, after_name)?;
    Ok((after_function, TableEntry::Function(name, function)))
}

/// An entry of a table.
#[verifier::opaque]
pub open spec fn entry_at<'s>(items: Seq<TokenItem<'s>>, at: int) -> Parsed<TableEntry<'s>>
    decreases grammar::left(items, at), 17nat,
{
    if grammar::has_terminal(items, at, TerminalToken::OpenSquare) {
        index_entry_at(items, at)
    } else if grammar::has_terminal(items, at, TerminalToken::Function) {
        function_entry_at(items, at)
    } else {
        property_entry_at(items, at)
    }
}

/// Reads an entry of a table.
pub(crate) fn entry<'s>(items: &'s [TokenItem<'s>], at: usize) -> (found: Result<
    (usize, TableEntry<'s>),
    ParseError,
>)
    requires
        at <= items.len(),
    ensures
        grammar::agrees(found, entry_at(items@, at as int)),
        found matches Ok((next, _)) ==> at < next <= items.len(),
    decreases grammar::left(items@, at as int), 17nat,
{
    proof {
        reveal(entry_at);
        reveal(index_entry_at);
        reveal(function_entry_at);
        reveal(property_entry_at);
    }
    if grammar::at_terminal(items, at, TerminalToken::OpenSquare) {
        index_entry(items, at)
    } else if grammar::at_terminal(items, at, TerminalToken::Function) {
        function_entry(items, at)
    } else {
        property_entry(items, at)
    }
}

/// A name of the root table.
#[verifier::opaque]
pub open spec fn root_var_at<'s>(items: Seq<TokenItem<'s>>, at: int) -> Parsed<Expression<'s>>
    decreases grammar::left(items, at), 1nat,
{
    if grammar::has_terminal(items, at, TerminalToken::Namespace) {
        match name::identifier_at(items, at + 1) {
            Ok((after_name, name)) => {
                Ok((after_name, Expression::RootVar(name)))
            },
            Err(error) => Err(error),
        }
    } else {
        grammar::missing(TerminalToken::Namespace, at)
    }
}

/// Reads a name of the root table.
pub(crate) fn root_var<'s>(items: &'s [TokenItem<'s>], at: usize) -> (found: Result<
    (usize, Expression<'s>),
    ParseError,
>)
    requires
        at <= items.len(),
    ensures
        grammar::agrees(found, root_var_at(items@, at as int)),
        found matches Ok((next, _)) ==> at < next <= items.len(),
    decreases grammar::left(items@, at as int), 1nat,
{
    proof {
        reveal(root_var_at);
    }
    grammar::expect(items, at, TerminalToken::Namespace)?;
    let (after_name, name) = name::identifier(items, at + 1)?;
    Ok((after_name, Expression::RootVar(name)))
}

/// An expression in brackets.
#[verifier::opaque]
pub open spec fn parens_at<'s>(items: Seq<TokenItem<'s>>, at: int) -> Parsed<Expression<'s>>
    decreases grammar::left(items, at), 1nat,
{
    if grammar::has_terminal(items, at, TerminalToken::OpenBracket) {
        match grammar::took(items, at + 1, expression_at(items, at + 1)) {
            Ok((after_value, value)) => {
                if grammar::has_terminal(items, after_value, TerminalToken::CloseBracket) {
                    Ok((after_value + 1, Expression::Parens(Box::new(value))))
                } else {
                    grammar::missing(TerminalToken::CloseBracket, after_value)
                }
            },
            Err(error) => Err(error),
        }
    } else {
        grammar::missing(TerminalToken::OpenBracket, at)
    }
}

/// Reads an expression in brackets.
pub(crate) fn parens<'s>(items: &'s [TokenItem<'s>], at: usize) -> (found: Result<
    (usize, Expression<'s>),
    ParseError,
>)
    requires
        at <= items.len(),
    ensures
        grammar::agrees(found, parens_at(items@, at as int)),
        found matches Ok((next, _)) ==> at < next <= items.len(),
    decreases grammar::left(items@, at as int), 1nat,
{
    proof {
        reveal(parens_at);
        reveal(expression_at);
    }
    grammar::expect(items, at, TerminalToken::OpenBracket)?;
    let (after_value, value) = expression(items, at + 1)?;
    grammar::expect(items, after_value, TerminalToken::CloseBracket)?;
    Ok((after_value + 1, Expression::Parens(Box::new(value))))
}

/// An array.
#[verifier::opaque]
pub open spec fn array_at<'s>(items: Seq<TokenItem<'s>>, at: int) -> Parsed<Expression<'s>>
    decreases grammar::left(items, at), 1nat,
{
    if grammar::has_terminal(items, at, TerminalToken::OpenSquare) {
        match grammar::took(items, at + 1, elements_from(items, at + 1, Seq::empty())) {
            Ok((after_elements, elements)) => {
                Ok((after_elements, Expression::Array(elements)))
            },
            Err(error) => Err(error),
        }
    } else {
        grammar::missing(TerminalToken::OpenSquare, at)
    }
}

/// Reads an array.
pub(crate) fn array<'s>(items: &'s [TokenItem<'s>], at: usize) -> (found: Result<
    (usize, Expression<'s>),
    ParseError,
>)
    requires
        at <= items.len(),
    ensures
        grammar::agrees(found, array_at(items@, at as int)),
        found matches Ok((next, _)) ==> at < next <= items.len(),
    decreases grammar::left(items@, at as int), 1nat,
{
    proof {
        reveal(array_at);
        reveal(elements_from);
    }
    grammar::expect(items, at, TerminalToken::OpenSquare)?;
    let (after_elements, elements) = elements(items, at + 1)?;
    Ok((after_elements, Expression::Array(elements)))
}

/// A table.
#[verifier::opaque]
pub open spec fn table_at<'s>(items: Seq<TokenItem<'s>>, at: int) -> Parsed<Expression<'s>>
    decreases grammar::left(items, at), 1nat,
{
    if grammar::has_terminal(items, at, TerminalToken::OpenBrace) {
        match grammar::took(items, at + 1, entries_from(items, at + 1, Seq::empty())) {
            Ok((after_entries, entries)) => {
                Ok((after_entries, Expression::Table(entries)))
            },
            Err(error) => Err(error),
        }
    } else {
        grammar::missing(TerminalToken::OpenBrace, at)
    }
}

/// Reads a table.
pub(crate) fn table<'s>(items: &'s [TokenItem<'s>], at: usize) -> (found: Result<
    (usize, Expression<'s>),
    ParseError,
>)
    requires
        at <= items.len(),
    ensures
        grammar::agrees(found, table_at(items@, at as int)),
        found matches Ok((next, _)) ==> at < next <= items.len(),
    decreases grammar::left(items@, at as int), 1nat,
{
    proof {
        reveal(table_at);
        reveal(entries_from);
    }
    grammar::expect(items, at, TerminalToken::OpenBrace)?;
    let (after_entries, entries) = entries(items, at + 1)?;
    Ok((after_entries, Expression::Table(entries)))
}

/// A vector, whose parts hold no operator that compares.
#[verifier::opaque]
pub open spec fn vector_at<'s>(items: Seq<TokenItem<'s>>, at: int) -> Parsed<Expression<'s>>
    decreases grammar::left(items, at), 1nat,
{
    if grammar::has_terminal(items, at, TerminalToken::Less) {
        match grammar::took(items, at + 1, sum_at(items, at + 1)) {
            Ok((after_x, x)) => {
                if grammar::has_terminal(items, after_x, TerminalToken::Comma) {
                    match grammar::took(items, after_x + 1, sum_at(items, after_x + 1)) {
                        Ok((after_y, y)) => {
                            if grammar::has_terminal(items, after_y, TerminalToken::Comma) {
                                match grammar::took(
                                    items,
                                    after_y + 1,
                                    sum_at(items, after_y + 1),
                                ) {
                                    Ok((after_z, z)) => {
                                        if grammar::has_terminal(
                                            items,
                                            after_z,
                                            TerminalToken::Greater,
                                        ) {
                                            Ok(
                                                (
                                                    after_z + 1,
                                                    Expression::Vector(
                                                        Box::new(x),
                                                        Box::new(y),
                                                        Box::new(z),
                                                    ),
                                                ),
                                            )
                                        } else {
                                            grammar::missing(TerminalToken::Greater, after_z)
                                        }
                                    },
                                    Err(error) => Err(error),
                                }
                            } else {
                                grammar::missing(TerminalToken::Comma, after_y)
                            }
                        },
                        Err(error) => Err(error),
                    }
                } else {
                    grammar::missing(TerminalToken::Comma, after_x)
                }
            },
            Err(error) => Err(error),
        }
    } else {
        grammar::missing(TerminalToken::Less, at)
    }
}

/// Reads a vector, whose parts hold no operator that compares.
pub(crate) fn vector<'s>(items: &'s [TokenItem<'s>], at: usize) -> (found: Result<
    (usize, Expression<'s>),
    ParseError,
>)
    requires
        at <= items.len(),
    ensures
        grammar::agrees(found, vector_at(items@, at as int)),
        found matches Ok((next, _)) ==> at < next <= items.len(),
    decreases grammar::left(items@, at as int), 1nat,
{
    proof {
        reveal(vector_at);
        reveal(sum_at);
    }
    grammar::expect(items, at, TerminalToken::Less)?;
    let (after_x, x) = sum(items, at + 1)?;
    grammar::expect(items, after_x, TerminalToken::Comma)?;
    let (after_y, y) = sum(items, after_x + 1)?;
    grammar::expect(items, after_y, TerminalToken::Comma)?;
    let (after_z, z) = sum(items, after_y + 1)?;
    grammar::expect(items, after_z, TerminalToken::Greater)?;
    Ok((after_z + 1, Expression::Vector(Box::new(x), Box::new(y), Box::new(z))))
}

/// A function without a name.
#[verifier::opaque]
pub open spec fn function_value_at<'s>(
    items: Seq<TokenItem<'s>>,
    at: int,
) -> Parsed<Expression<'s>>
    decreases grammar::left(items, at), 1nat,
{
    if grammar::has_terminal(items, at, TerminalToken::Function) {
        match grammar::took(items, at + 1, function::definition_at(items, at + 1)) {
            Ok((after_function, function)) => {
                Ok((after_function, Expression::Function(None, function)))
            },
            Err(error) => Err(error),
        }
    } else {
        grammar::missing(TerminalToken::Function, at)
    }
}

/// Reads a function without a name.
pub(crate) fn function_value<'s>(items: &'s [TokenItem<'s>], at: usize) -> (found: Result<
    (usize, Expression<'s>),
    ParseError,
>)
    requires
        at <= items.len(),
    ensures
        grammar::agrees(found, function_value_at(items@, at as int)),
        found matches Ok((next, _)) ==> at < next <= items.len(),
    decreases grammar::left(items@, at as int), 1nat,
{
    proof {
        reveal(function_value_at);
    }
    grammar::expect(items, at, TerminalToken::Function)?;
    let (after_function, function) = function::definition(items, at + 1)?;
    Ok((after_function, Expression::Function(None, function)))
}

/// A function without a name, behind the name of the type that it returns.
#[verifier::opaque]
pub open spec fn typed_function_at<'s>(
    items: Seq<TokenItem<'s>>,
    at: int,
) -> Parsed<Expression<'s>>
    decreases grammar::left(items, at), 1nat,
{
    match name::identifier_at(items, at) {
        Ok((after_ty, ty)) => {
            if grammar::has_terminal(items, after_ty, TerminalToken::Function) {
                match grammar::took(
                    items,
                    after_ty + 1,
                    function::definition_at(items, after_ty + 1),
                ) {
                    Ok((after_function, function)) => {
                        Ok((after_function, Expression::Function(Some(ty), function)))
                    },
                    Err(error) => Err(error),
                }
            } else {
                grammar::missing(TerminalToken::Function, after_ty)
            }
        },
        Err(error) => Err(error),
    }
}

/// Reads a function without a name, behind the name of the type that it returns.
pub(crate) fn typed_function<'s>(items: &'s [TokenItem<'s>], at: usize) -> (found: Result<
    (usize, Expression<'s>),
    ParseError,
>)
    requires
        at <= items.len(),
    ensures
        grammar::agrees(found, typed_function_at(items@, at as int)),
        found matches Ok((next, _)) ==> at < next <= items.len(),
    decreases grammar::left(items@, at as int), 1nat,
{
    proof {
        reveal(typed_function_at);
    }
    let (after_ty, ty) = name::identifier(items, at)?;
    grammar::expect(items, after_ty, TerminalToken::Function)?;
    let (after_function, function) = function::definition(items, after_ty + 1)?;
    Ok((after_function, Expression::Function(Some(ty), function)))
}

/// A function that returns an expression.
#[verifier::opaque]
pub open spec fn lambda_at<'s>(items: Seq<TokenItem<'s>>, at: int) -> Parsed<Expression<'s>>
    decreases grammar::left(items, at), 1nat,
{
    if grammar::has_terminal(items, at, TerminalToken::At) {
        match grammar::took(items, at + 1, function::params_at(items, at + 1)) {
            Ok((after_params, params)) => {
                match grammar::took(items, after_params, expression_at(items, after_params)) {
                    Ok((after_value, value)) => {
                        Ok((after_value, Expression::Lambda(params, Box::new(value))))
                    },
                    Err(error) => Err(error),
                }
            },
            Err(error) => Err(error),
        }
    } else {
        grammar::missing(TerminalToken::At, at)
    }
}

/// Reads a function that returns an expression.
pub(crate) fn lambda<'s>(items: &'s [TokenItem<'s>], at: usize) -> (found: Result<
    (usize, Expression<'s>),
    ParseError,
>)
    requires
        at <= items.len(),
    ensures
        grammar::agrees(found, lambda_at(items@, at as int)),
        found matches Ok((next, _)) ==> at < next <= items.len(),
    decreases grammar::left(items@, at as int), 1nat,
{
    proof {
        reveal(lambda_at);
        reveal(expression_at);
    }
    grammar::expect(items, at, TerminalToken::At)?;
    let (after_params, params) = function::params(items, at + 1)?;
    let (after_value, value) = expression(items, after_params)?;
    Ok((after_value, Expression::Lambda(params, Box::new(value))))
}

/// An expression that has a given type.
#[verifier::opaque]
pub open spec fn expect_type_at<'s>(items: Seq<TokenItem<'s>>, at: int) -> Parsed<Expression<'s>>
    decreases grammar::left(items, at), 1nat,
{
    if grammar::has_terminal(items, at, TerminalToken::Expect) {
        match grammar::took(items, at + 1, type_::type__at(items, at + 1)) {
            Ok((after_ty, ty)) => {
                if grammar::has_terminal(items, after_ty, TerminalToken::OpenBracket) {
                    match grammar::took(items, after_ty + 1, expression_at(items, after_ty + 1)) {
                        Ok((after_value, value)) => {
                            if grammar::has_terminal(
                                items,
                                after_value,
                                TerminalToken::CloseBracket,
                            ) {
                                Ok((after_value + 1, Expression::Expect(ty, Box::new(value))))
                            } else {
                                grammar::missing(TerminalToken::CloseBracket, after_value)
                            }
                        },
                        Err(error) => Err(error),
                    }
                } else {
                    grammar::missing(TerminalToken::OpenBracket, after_ty)
                }
            },
            Err(error) => Err(error),
        }
    } else {
        grammar::missing(TerminalToken::Expect, at)
    }
}

/// Reads an expression that has a given type.
pub(crate) fn expect_type<'s>(items: &'s [TokenItem<'s>], at: usize) -> (found: Result<
    (usize, Expression<'s>),
    ParseError,
>)
    requires
        at <= items.len(),
    ensures
        grammar::agrees(found, expect_type_at(items@, at as int)),
        found matches Ok((next, _)) ==> at < next <= items.len(),
    decreases grammar::left(items@, at as int), 1nat,
{
    proof {
        reveal(expect_type_at);
        reveal(expression_at);
    }
    grammar::expect(items, at, TerminalToken::Expect)?;
    let (after_ty, ty) = type_::type_(items, at + 1)?;
    grammar::expect(items, after_ty, TerminalToken::OpenBracket)?;
    let (after_value, value) = expression(items, after_ty + 1)?;
    grammar::expect(items, after_value, TerminalToken::CloseBracket)?;
    Ok((after_value + 1, Expression::Expect(ty, Box::new(value))))
}

/// An expression without operators.
#[verifier::opaque]
pub open spec fn primary_at<'s>(items: Seq<TokenItem<'s>>, at: int) -> Parsed<Expression<'s>>
    decreases grammar::left(items, at), 8nat,
{
    if 0 <= at < items.len() {
        match items[at].token.ty {
            TokenType::Literal(_) => Ok((at + 1, Expression::Literal(&items[at].token))),
            TokenType::Identifier(value) => {
                if grammar::has_terminal(items, at + 1, TerminalToken::Function)
                    && grammar::has_terminal(items, at + 2, TerminalToken::OpenBracket) {
                    typed_function_at(items, at)
                } else {
                    Ok((at + 1, Expression::Var(Identifier { value, token: &items[at].token })))
                }
            },
            TokenType::Terminal(TerminalToken::True) => Ok((at + 1, Expression::True)),
            TokenType::Terminal(TerminalToken::False) => Ok((at + 1, Expression::False)),
            TokenType::Terminal(TerminalToken::Null) => Ok((at + 1, Expression::Null)),
            TokenType::Terminal(TerminalToken::This) => Ok((at + 1, Expression::This)),
            TokenType::Terminal(TerminalToken::Base) => Ok((at + 1, Expression::Base)),
            TokenType::Terminal(TerminalToken::Namespace) => root_var_at(items, at),
            TokenType::Terminal(TerminalToken::OpenBracket) => parens_at(items, at),
            TokenType::Terminal(TerminalToken::OpenSquare) => array_at(items, at),
            TokenType::Terminal(TerminalToken::OpenBrace) => table_at(items, at),
            TokenType::Terminal(TerminalToken::Less) => vector_at(items, at),
            TokenType::Terminal(TerminalToken::Function) => function_value_at(items, at),
            TokenType::Terminal(TerminalToken::At) => lambda_at(items, at),
            TokenType::Terminal(TerminalToken::Expect) => expect_type_at(items, at),
            _ => grammar::wrong(ParseErrorType::ExpectedExpression, at),
        }
    } else {
        grammar::wrong(ParseErrorType::ExpectedExpression, at)
    }
}

/// Reads an expression without operators.
pub(crate) fn primary<'s>(items: &'s [TokenItem<'s>], at: usize) -> (found: Result<
    (usize, Expression<'s>),
    ParseError,
>)
    requires
        at <= items.len(),
    ensures
        grammar::agrees(found, primary_at(items@, at as int)),
        found matches Ok((next, _)) ==> at < next <= items.len(),
    decreases grammar::left(items@, at as int), 8nat,
{
    proof {
        reveal(primary_at);
        reveal(typed_function_at);
        reveal(root_var_at);
        reveal(parens_at);
        reveal(array_at);
        reveal(table_at);
        reveal(vector_at);
        reveal(function_value_at);
        reveal(lambda_at);
        reveal(expect_type_at);
    }
    if at < items.len() {
        match items[at].token.ty {
            TokenType::Literal(_) => Ok((at + 1, Expression::Literal(&items[at].token))),
            TokenType::Identifier(value) => {
                if grammar::at_terminal(items, at + 1, TerminalToken::Function)
                    && grammar::at_terminal(items, at + 2, TerminalToken::OpenBracket) {
                    typed_function(items, at)
                } else {
                    Ok((at + 1, Expression::Var(Identifier { value, token: &items[at].token })))
                }
            },
            TokenType::Terminal(TerminalToken::True) => Ok((at + 1, Expression::True)),
            TokenType::Terminal(TerminalToken::False) => Ok((at + 1, Expression::False)),
            TokenType::Terminal(TerminalToken::Null) => Ok((at + 1, Expression::Null)),
            TokenType::Terminal(TerminalToken::This) => Ok((at + 1, Expression::This)),
            TokenType::Terminal(TerminalToken::Base) => Ok((at + 1, Expression::Base)),
            TokenType::Terminal(TerminalToken::Namespace) => root_var(items, at),
            TokenType::Terminal(TerminalToken::OpenBracket) => parens(items, at),
            TokenType::Terminal(TerminalToken::OpenSquare) => array(items, at),
            TokenType::Terminal(TerminalToken::OpenBrace) => table(items, at),
            TokenType::Terminal(TerminalToken::Less) => vector(items, at),
            TokenType::Terminal(TerminalToken::Function) => function_value(items, at),
            TokenType::Terminal(TerminalToken::At) => lambda(items, at),
            TokenType::Terminal(TerminalToken::Expect) => expect_type(items, at),
            _ => Err(ParseError::new(ParseErrorType::ExpectedExpression, at)),
        }
    } else {
        Err(ParseError::new(ParseErrorType::ExpectedExpression, at))
    }
}

/// What can stand behind an expression, and makes another expression of it. A call, an index
/// and a step must stand on the same line.
#[verifier::opaque]
pub open spec fn postfix_tail_at<'s>(
    items: Seq<TokenItem<'s>>,
    at: int,
    base: Expression<'s>,
) -> Parsed<Expression<'s>>
    decreases grammar::left(items, at), 0nat,
{
    if grammar::has_terminal(items, at, TerminalToken::Dot) {
        match name::identifier_at(items, at + 1) {
            Ok((next, name)) => postfix_tail_at(
                items,
                next,
                Expression::Property(Box::new(base), name),
            ),
            Err(error) => Err(error),
        }
    } else if !grammar::on_same_line(items, at) {
        Ok((at, base))
    } else if grammar::has_terminal(items, at, TerminalToken::OpenSquare) {
        match grammar::took(items, at + 1, expression_at(items, at + 1)) {
            Ok((next, index)) => {
                if grammar::has_terminal(items, next, TerminalToken::CloseSquare) {
                    postfix_tail_at(
                        items,
                        next + 1,
                        Expression::Index(Box::new(base), Box::new(index)),
                    )
                } else {
                    grammar::missing(TerminalToken::CloseSquare, next)
                }
            },
            Err(error) => Err(error),
        }
    } else if grammar::has_terminal(items, at, TerminalToken::OpenBracket) {
        match grammar::took(items, at + 1, arguments_from(items, at + 1, Seq::empty())) {
            Ok((next, arguments)) => {
                postfix_tail_at(items, next, Expression::Call(Box::new(base), arguments))
            },
            Err(error) => Err(error),
        }
    } else if grammar::has_terminal(items, at, TerminalToken::Increment) {
        postfix_tail_at(
            items,
            at + 1,
            Expression::Postfix(PostfixOperator::Increment, Box::new(base)),
        )
    } else if grammar::has_terminal(items, at, TerminalToken::Decrement) {
        postfix_tail_at(
            items,
            at + 1,
            Expression::Postfix(PostfixOperator::Decrement, Box::new(base)),
        )
    } else {
        Ok((at, base))
    }
}

/// An expression with what stands behind it.
#[verifier::opaque]
pub open spec fn postfix_at<'s>(items: Seq<TokenItem<'s>>, at: int) -> Parsed<Expression<'s>>
    decreases grammar::left(items, at), 9nat,
{
    match grammar::took(items, at, primary_at(items, at)) {
        Ok((next, base)) => postfix_tail_at(items, next, base),
        Err(error) => Err(error),
    }
}

/// Reads an expression with what stands behind it.
pub(crate) fn postfix<'s>(items: &'s [TokenItem<'s>], at: usize) -> (found: Result<
    (usize, Expression<'s>),
    ParseError,
>)
    requires
        at <= items.len(),
    ensures
        grammar::agrees(found, postfix_at(items@, at as int)),
        found matches Ok((next, _)) ==> at < next <= items.len(),
    decreases grammar::left(items@, at as int), 9nat,
{
    proof {
        reveal(postfix_at);
        reveal(primary_at);
        reveal(postfix_tail_at);
    }
    let (next, first) = primary(items, at)?;
    let mut base = first;
    let mut place: usize = next;
    loop
        invariant
            at < place <= items.len(),
            postfix_at(items@, at as int) == postfix_tail_at(items@, place as int, base),
        decreases items.len() - place,
    {
        proof {
            reveal(postfix_tail_at);
            reveal(primary_at);
            reveal(expression_at);
            reveal(arguments_from);
        }
        if grammar::at_terminal(items, place, TerminalToken::Dot) {
            let (after, name) = name::identifier(items, place + 1)?;
            base = Expression::Property(Box::new(base), name);
            place = after;
        } else if !grammar::same_line(items, place) {
            return Ok((place, base));
        } else if grammar::at_terminal(items, place, TerminalToken::OpenSquare) {
            let (after, index) = expression(items, place + 1)?;
            grammar::expect(items, after, TerminalToken::CloseSquare)?;
            base = Expression::Index(Box::new(base), Box::new(index));
            place = after + 1;
        } else if grammar::at_terminal(items, place, TerminalToken::OpenBracket) {
            let (after, arguments) = arguments(items, place + 1)?;
            base = Expression::Call(Box::new(base), arguments);
            place = after;
        } else if grammar::at_terminal(items, place, TerminalToken::Increment) {
            base = Expression::Postfix(PostfixOperator::Increment, Box::new(base));
            place = place + 1;
        } else if grammar::at_terminal(items, place, TerminalToken::Decrement) {
            base = Expression::Postfix(PostfixOperator::Decrement, Box::new(base));
            place = place + 1;
        } else {
            return Ok((place, base));
        }
    }
}

/// An expression with the operators before it.
#[verifier::opaque]
pub open spec fn unary_at<'s>(items: Seq<TokenItem<'s>>, at: int) -> Parsed<Expression<'s>>
    decreases grammar::left(items, at), 10nat,
{
    match operator::prefix_at(items, at) {
        Some(prefix) => {
            match grammar::took(items, at + 1, unary_at(items, at + 1)) {
                Ok((next, value)) => Ok((next, Expression::Prefix(prefix, Box::new(value)))),
                Err(error) => Err(error),
            }
        },
        None => postfix_at(items, at),
    }
}

/// Reads an expression with the operators before it.
pub(crate) fn unary<'s>(items: &'s [TokenItem<'s>], at: usize) -> (found: Result<
    (usize, Expression<'s>),
    ParseError,
>)
    requires
        at <= items.len(),
    ensures
        grammar::agrees(found, unary_at(items@, at as int)),
        found matches Ok((next, _)) ==> at < next <= items.len(),
    decreases grammar::left(items@, at as int), 10nat,
{
    proof {
        reveal(unary_at);
        reveal(postfix_at);
    }
    match operator::prefix(items, at) {
        Some(prefix) => {
            let (next, value) = unary(items, at + 1)?;
            Ok((next, Expression::Prefix(prefix, Box::new(value))))
        },
        None => postfix(items, at),
    }
}

/// Operators that bind at least as tightly as a level, with their right operands.
#[verifier::opaque]
pub open spec fn binary_tail_at<'s>(
    items: Seq<TokenItem<'s>>,
    at: int,
    level: int, operand: Expression<'s>,
) -> Parsed<Expression<'s>>
    decreases grammar::left(items, at), 0nat,
{
    match operator::infix_at(items, at) {
        Some((infix, next)) => {
            if operator::level_of(infix) < level {
                Ok((at, operand))
            } else {
                match grammar::took(
                items,
                next,
                binary_at(items, next, operator::level_of(infix) + 1),
            ) {
                    Ok((after, right)) => binary_tail_at(
                        items,
                        after,
                        level,
                        Expression::Binary(infix, Box::new(operand), Box::new(right)),
                    ),
                    Err(error) => Err(error),
                }
            }
        },
        None => Ok((at, operand)),
    }
}

/// Operands with operators between them that bind at least as tightly as a level. Operators
/// of one level are read from the left.
#[verifier::opaque]
pub open spec fn binary_at<'s>(
    items: Seq<TokenItem<'s>>,
    at: int,
    level: int,
) -> Parsed<Expression<'s>>
    decreases grammar::left(items, at), 11nat,
{
    match grammar::took(items, at, unary_at(items, at)) {
        Ok((next, operand)) => binary_tail_at(items, next, level, operand),
        Err(error) => Err(error),
    }
}

/// Reads operands with operators between them that bind at least as tightly as a level. Operators
/// of one level are read from the left.
pub(crate) fn binary<'s>(items: &'s [TokenItem<'s>], at: usize, level: u8) -> (found: Result<
    (usize, Expression<'s>),
    ParseError,
>)
    requires
        at <= items.len(),
        level <= 11,
    ensures
        grammar::agrees(found, binary_at(items@, at as int, level as int)),
        found matches Ok((next, _)) ==> at < next <= items.len(),
    decreases grammar::left(items@, at as int), 11nat,
{
    proof {
        reveal(binary_at);
        reveal(unary_at);
        reveal(binary_tail_at);
    }
    let (next, first) = unary(items, at)?;
    let mut operand = first;
    let mut place: usize = next;
    loop
        invariant
            at < place <= items.len(),
            level <= 11,
            binary_at(items@, at as int, level as int) == binary_tail_at(
                items@,
                place as int,
                level as int,
                operand,
            ),
        decreases items.len() - place,
    {
        proof {
            reveal(binary_tail_at);
            reveal(unary_at);
            reveal(binary_at);
        }
        match operator::infix(items, place) {
            Some((infix, start)) => {
                let tighter = operator::level(infix);
                if tighter < level {
                    return Ok((place, operand));
                }
                let (after, right) = binary(items, start, tighter + 1)?;
                operand = Expression::Binary(infix, Box::new(operand), Box::new(right));
                place = after;
            },
            None => {
                return Ok((place, operand));
            },
        }
    }
}

/// Operands with operators between them that add or bind more tightly.
#[verifier::opaque]
pub open spec fn sum_at<'s>(items: Seq<TokenItem<'s>>, at: int) -> Parsed<Expression<'s>>
    decreases grammar::left(items, at), 12nat,
{
    binary_at(items, at, 9)
}

/// Reads operands with operators between them that add or bind more tightly.
pub(crate) fn sum<'s>(items: &'s [TokenItem<'s>], at: usize) -> (found: Result<
    (usize, Expression<'s>),
    ParseError,
>)
    requires
        at <= items.len(),
    ensures
        grammar::agrees(found, sum_at(items@, at as int)),
        found matches Ok((next, _)) ==> at < next <= items.len(),
    decreases grammar::left(items@, at as int), 12nat,
{
    proof {
        reveal(sum_at);
        reveal(binary_at);
    }
    binary(items, at, 9)
}

/// A choice between two expressions, or an expression without assignments.
#[verifier::opaque]
pub open spec fn ternary_at<'s>(items: Seq<TokenItem<'s>>, at: int) -> Parsed<Expression<'s>>
    decreases grammar::left(items, at), 13nat,
{
    match grammar::took(items, at, binary_at(items, at, 1)) {
        Ok((next, condition)) => {
            if grammar::has_terminal(items, next, TerminalToken::Question) {
                match grammar::took(items, next + 1, expression_at(items, next + 1)) {
                    Ok((middle, yes)) => {
                        if grammar::has_terminal(items, middle, TerminalToken::Colon) {
                            match grammar::took(
                                items,
                                middle + 1,
                                expression_at(items, middle + 1),
                            ) {
                                Ok((end, no)) => Ok(
                                    (
                                        end,
                                        Expression::Ternary(
                                            Box::new(condition),
                                            Box::new(yes),
                                            Box::new(no),
                                        ),
                                    ),
                                ),
                                Err(error) => Err(error),
                            }
                        } else {
                            grammar::missing(TerminalToken::Colon, middle)
                        }
                    },
                    Err(error) => Err(error),
                }
            } else {
                Ok((next, condition))
            }
        },
        Err(error) => Err(error),
    }
}

/// Reads a choice between two expressions, or an expression without assignments.
pub(crate) fn ternary<'s>(items: &'s [TokenItem<'s>], at: usize) -> (found: Result<
    (usize, Expression<'s>),
    ParseError,
>)
    requires
        at <= items.len(),
    ensures
        grammar::agrees(found, ternary_at(items@, at as int)),
        found matches Ok((next, _)) ==> at < next <= items.len(),
    decreases grammar::left(items@, at as int), 13nat,
{
    proof {
        reveal(ternary_at);
        reveal(binary_at);
        reveal(expression_at);
    }
    let (next, condition) = binary(items, at, 1)?;
    if grammar::at_terminal(items, next, TerminalToken::Question) {
        let (middle, yes) = expression(items, next + 1)?;
        grammar::expect(items, middle, TerminalToken::Colon)?;
        let (end, no) = expression(items, middle + 1)?;
        Ok((end, Expression::Ternary(Box::new(condition), Box::new(yes), Box::new(no))))
    } else {
        Ok((next, condition))
    }
}

/// An assignment, or an expression without one. Assignments are read from the right.
#[verifier::opaque]
pub open spec fn assignment_at<'s>(items: Seq<TokenItem<'s>>, at: int) -> Parsed<Expression<'s>>
    decreases grammar::left(items, at), 14nat,
{
    match grammar::took(items, at, ternary_at(items, at)) {
        Ok((next, target)) => {
            match operator::assign_at(items, next) {
                Some(assign) => {
                    match grammar::took(items, next + 1, expression_at(items, next + 1)) {
                        Ok((end, value)) => Ok(
                            (end, Expression::Binary(assign, Box::new(target), Box::new(value))),
                        ),
                        Err(error) => Err(error),
                    }
                },
                None => Ok((next, target)),
            }
        },
        Err(error) => Err(error),
    }
}

/// Reads an assignment, or an expression without one. Assignments are read from the right.
pub(crate) fn assignment<'s>(items: &'s [TokenItem<'s>], at: usize) -> (found: Result<
    (usize, Expression<'s>),
    ParseError,
>)
    requires
        at <= items.len(),
    ensures
        grammar::agrees(found, assignment_at(items@, at as int)),
        found matches Ok((next, _)) ==> at < next <= items.len(),
    decreases grammar::left(items@, at as int), 14nat,
{
    proof {
        reveal(assignment_at);
        reveal(ternary_at);
        reveal(expression_at);
    }
    let (next, target) = ternary(items, at)?;
    match operator::assign(items, next) {
        Some(assign) => {
            let (end, value) = expression(items, next + 1)?;
            Ok((end, Expression::Binary(assign, Box::new(target), Box::new(value))))
        },
        None => Ok((next, target)),
    }
}

/// An expression.
#[verifier::opaque]
pub open spec fn expression_at<'s>(items: Seq<TokenItem<'s>>, at: int) -> Parsed<Expression<'s>>
    decreases grammar::left(items, at), 15nat,
{
    assignment_at(items, at)
}

/// Reads an expression.
pub(crate) fn expression<'s>(items: &'s [TokenItem<'s>], at: usize) -> (found: Result<
    (usize, Expression<'s>),
    ParseError,
>)
    requires
        at <= items.len(),
    ensures
        grammar::agrees(found, expression_at(items@, at as int)),
        found matches Ok((next, _)) ==> at < next <= items.len(),
    decreases grammar::left(items@, at as int), 15nat,
{
    proof {
        reveal(expression_at);
        reveal(assignment_at);
    }
    assignment(items, at)
}

} // verus!
