use crate::ast::{FunctionRefParam, Identifier, StructField, Type, TypedName};
use crate::lexer::TokenItem;
use crate::list::List;
use crate::list;
use crate::parser::error::{ParseError, ParseErrorType};
use crate::parser::grammar::Parsed;
use crate::parser::{expression, grammar, name, variable};
use crate::token::{TerminalToken, TokenType};
use vstd::prelude::*;

verus! {

/// Type arguments up to `>`, behind those found before.
#[verifier::opaque]
pub open spec fn types_from<'s>(
    items: Seq<TokenItem<'s>>,
    at: int,
    found: Seq<Type<'s>>,
) -> Parsed<List<Type<'s>>>
    decreases grammar::left(items, at), 5nat,
{
    if grammar::has_terminal(items, at, TerminalToken::Greater) {
        Ok((at + 1, list::list_of(found)))
    } else if at >= items.len() {
        grammar::missing(TerminalToken::Greater, at)
    } else {
        match grammar::took(items, at, type__at(items, at)) {
            Ok((next, item)) => {
                if grammar::has_terminal(items, next, TerminalToken::Comma) {
                    types_from(items, next + 1, found.push(item))
                } else if grammar::has_terminal(items, next, TerminalToken::Greater) {
                    Ok((next + 1, list::list_of(found.push(item))))
                } else {
                    grammar::missing(TerminalToken::Greater, next)
                }
            },
            Err(error) => Err(error),
        }
    }
}

/// Reads type arguments up to `>`.
pub(crate) fn types<'s>(items: &'s [TokenItem<'s>], at: usize) -> (found: Result<
    (usize, List<Type<'s>>),
    ParseError,
>)
    requires
        at <= items.len(),
    ensures
        grammar::agrees(found, types_from(items@, at as int, Seq::empty())),
        found matches Ok((next, _)) ==> at < next <= items.len(),
    decreases grammar::left(items@, at as int), 5nat,
{
    let mut read: Vec<Type<'s>> = Vec::new();
    let mut place: usize = at;
    loop
        invariant
            at <= place <= items.len(),
            types_from(items@, place as int, read@) == types_from(
                items@,
                at as int,
                Seq::empty(),
            ),
        decreases items.len() - place,
    {
        proof {
            reveal(types_from);
            reveal(type__at);
        }
        if grammar::at_terminal(items, place, TerminalToken::Greater) {
            return Ok((place + 1, List::from_vec(read)));
        }
        if place >= items.len() {
            return Err(grammar::missing_terminal(TerminalToken::Greater, place));
        }
        let (next, item) = type_(items, place)?;
        read.push(item);
        if grammar::at_terminal(items, next, TerminalToken::Comma) {
            place = next + 1;
        } else {
            grammar::expect(items, next, TerminalToken::Greater)?;
            return Ok((next + 1, List::from_vec(read)));
        }
    }
}

/// Fields up to `}`, each with a comma behind it or not, behind those found before.
#[verifier::opaque]
pub open spec fn fields_from<'s>(
    items: Seq<TokenItem<'s>>,
    at: int,
    found: Seq<StructField<'s>>,
) -> Parsed<List<StructField<'s>>>
    decreases grammar::left(items, at), 6nat,
{
    if grammar::has_terminal(items, at, TerminalToken::CloseBrace) {
        Ok((at + 1, list::list_of(found)))
    } else if at >= items.len() {
        grammar::missing(TerminalToken::CloseBrace, at)
    } else {
        match grammar::took(items, at, field_at(items, at)) {
            Ok((next, item)) => {
                fields_from(
                    items,
                    if grammar::has_terminal(items, next, TerminalToken::Comma) {
                        next + 1
                    } else {
                        next
                    },
                    found.push(item),
                )
            },
            Err(error) => Err(error),
        }
    }
}

/// Reads fields up to `}`, each with a comma behind it or not.
pub(crate) fn fields<'s>(items: &'s [TokenItem<'s>], at: usize) -> (found: Result<
    (usize, List<StructField<'s>>),
    ParseError,
>)
    requires
        at <= items.len(),
    ensures
        grammar::agrees(found, fields_from(items@, at as int, Seq::empty())),
        found matches Ok((next, _)) ==> at < next <= items.len(),
    decreases grammar::left(items@, at as int), 6nat,
{
    let mut read: Vec<StructField<'s>> = Vec::new();
    let mut place: usize = at;
    loop
        invariant
            at <= place <= items.len(),
            fields_from(items@, place as int, read@) == fields_from(
                items@,
                at as int,
                Seq::empty(),
            ),
        decreases items.len() - place,
    {
        proof {
            reveal(fields_from);
            reveal(field_at);
        }
        if grammar::at_terminal(items, place, TerminalToken::CloseBrace) {
            return Ok((place + 1, List::from_vec(read)));
        }
        if place >= items.len() {
            return Err(grammar::missing_terminal(TerminalToken::CloseBrace, place));
        }
        let (next, item) = field(items, place)?;
        read.push(item);
        place = if grammar::at_terminal(items, next, TerminalToken::Comma) {
            next + 1
        } else {
            next
        };
    }
}

/// Parameters of a function type up to `)`, behind those found before.
#[verifier::opaque]
pub open spec fn ref_params_from<'s>(
    items: Seq<TokenItem<'s>>,
    at: int,
    found: Seq<FunctionRefParam<'s>>,
) -> Parsed<List<FunctionRefParam<'s>>>
    decreases grammar::left(items, at), 6nat,
{
    if grammar::has_terminal(items, at, TerminalToken::CloseBracket) {
        Ok((at + 1, list::list_of(found)))
    } else if at >= items.len() {
        grammar::missing(TerminalToken::CloseBracket, at)
    } else {
        match grammar::took(items, at, ref_param_at(items, at)) {
            Ok((next, item)) => {
                if grammar::has_terminal(items, next, TerminalToken::Comma) {
                    ref_params_from(items, next + 1, found.push(item))
                } else if grammar::has_terminal(items, next, TerminalToken::CloseBracket) {
                    Ok((next + 1, list::list_of(found.push(item))))
                } else {
                    grammar::missing(TerminalToken::CloseBracket, next)
                }
            },
            Err(error) => Err(error),
        }
    }
}

/// Reads parameters of a function type up to `)`.
pub(crate) fn ref_params<'s>(items: &'s [TokenItem<'s>], at: usize) -> (found: Result<
    (usize, List<FunctionRefParam<'s>>),
    ParseError,
>)
    requires
        at <= items.len(),
    ensures
        grammar::agrees(found, ref_params_from(items@, at as int, Seq::empty())),
        found matches Ok((next, _)) ==> at < next <= items.len(),
    decreases grammar::left(items@, at as int), 6nat,
{
    let mut read: Vec<FunctionRefParam<'s>> = Vec::new();
    let mut place: usize = at;
    loop
        invariant
            at <= place <= items.len(),
            ref_params_from(items@, place as int, read@) == ref_params_from(
                items@,
                at as int,
                Seq::empty(),
            ),
        decreases items.len() - place,
    {
        proof {
            reveal(ref_params_from);
            reveal(ref_param_at);
        }
        if grammar::at_terminal(items, place, TerminalToken::CloseBracket) {
            return Ok((place + 1, List::from_vec(read)));
        }
        if place >= items.len() {
            return Err(grammar::missing_terminal(TerminalToken::CloseBracket, place));
        }
        let (next, item) = ref_param(items, place)?;
        read.push(item);
        if grammar::at_terminal(items, next, TerminalToken::Comma) {
            place = next + 1;
        } else {
            grammar::expect(items, next, TerminalToken::CloseBracket)?;
            return Ok((next + 1, List::from_vec(read)));
        }
    }
}

/// A type without what can stand behind one.
#[verifier::opaque]
pub open spec fn base_type_at<'s>(items: Seq<TokenItem<'s>>, at: int) -> Parsed<Type<'s>>
    decreases grammar::left(items, at), 2nat,
{
    if 0 <= at < items.len() {
        match items[at].token.ty {
            TokenType::Identifier(value) => {
                let name = Identifier { value, token: &items[at].token };
                if grammar::has_terminal(items, at + 1, TerminalToken::Less) {
                    match grammar::took(items, at + 2, types_from(items, at + 2, Seq::empty())) {
                        Ok((next, arguments)) => Ok((next, Type::Generic(name, arguments))),
                        Err(error) => Err(error),
                    }
                } else {
                    Ok((at + 1, Type::Plain(name)))
                }
            },
            TokenType::Terminal(TerminalToken::FunctionRef) => ref_type_at(items, at),
            TokenType::Terminal(TerminalToken::Struct) => struct_type_at(items, at),
            _ => grammar::wrong(ParseErrorType::ExpectedType, at),
        }
    } else {
        grammar::wrong(ParseErrorType::ExpectedType, at)
    }
}

/// Reads a type without what can stand behind one.
pub(crate) fn base_type<'s>(items: &'s [TokenItem<'s>], at: usize) -> (found: Result<
    (usize, Type<'s>),
    ParseError,
>)
    requires
        at <= items.len(),
    ensures
        grammar::agrees(found, base_type_at(items@, at as int)),
        found matches Ok((next, _)) ==> at < next <= items.len(),
    decreases grammar::left(items@, at as int), 2nat,
{
    proof {
        reveal(base_type_at);
        reveal(types_from);
        reveal(ref_type_at);
        reveal(struct_type_at);
    }
    if at < items.len() {
        match items[at].token.ty {
            TokenType::Identifier(value) => {
                let name = Identifier { value, token: &items[at].token };
                if grammar::at_terminal(items, at + 1, TerminalToken::Less) {
                    let (next, arguments) = types(items, at + 2)?;
                    Ok((next, Type::Generic(name, arguments)))
                } else {
                    Ok((at + 1, Type::Plain(name)))
                }
            },
            TokenType::Terminal(TerminalToken::FunctionRef) => ref_type(items, at),
            TokenType::Terminal(TerminalToken::Struct) => struct_type(items, at),
            _ => Err(ParseError::new(ParseErrorType::ExpectedType, at)),
        }
    } else {
        Err(ParseError::new(ParseErrorType::ExpectedType, at))
    }
}

/// A function type that returns nothing.
#[verifier::opaque]
pub open spec fn ref_type_at<'s>(items: Seq<TokenItem<'s>>, at: int) -> Parsed<Type<'s>>
    decreases grammar::left(items, at), 1nat,
{
    if grammar::has_terminal(items, at, TerminalToken::FunctionRef) {
        if grammar::has_terminal(items, at + 1, TerminalToken::OpenBracket) {
            match grammar::took(items, at + 2, ref_params_from(items, at + 2, Seq::empty())) {
                Ok((after_params, params)) => {
                    Ok((after_params, Type::FunctionRef(None, params)))
                },
                Err(error) => Err(error),
            }
        } else {
            grammar::missing(TerminalToken::OpenBracket, at + 1)
        }
    } else {
        grammar::missing(TerminalToken::FunctionRef, at)
    }
}

/// Reads a function type that returns nothing.
pub(crate) fn ref_type<'s>(items: &'s [TokenItem<'s>], at: usize) -> (found: Result<
    (usize, Type<'s>),
    ParseError,
>)
    requires
        at <= items.len(),
    ensures
        grammar::agrees(found, ref_type_at(items@, at as int)),
        found matches Ok((next, _)) ==> at < next <= items.len(),
    decreases grammar::left(items@, at as int), 1nat,
{
    proof {
        reveal(ref_type_at);
        reveal(ref_params_from);
    }
    grammar::expect(items, at, TerminalToken::FunctionRef)?;
    grammar::expect(items, at + 1, TerminalToken::OpenBracket)?;
    let (after_params, params) = ref_params(items, at + 2)?;
    Ok((after_params, Type::FunctionRef(None, params)))
}

/// A record type without a name.
#[verifier::opaque]
pub open spec fn struct_type_at<'s>(items: Seq<TokenItem<'s>>, at: int) -> Parsed<Type<'s>>
    decreases grammar::left(items, at), 1nat,
{
    if grammar::has_terminal(items, at, TerminalToken::Struct) {
        if grammar::has_terminal(items, at + 1, TerminalToken::OpenBrace) {
            match grammar::took(items, at + 2, fields_from(items, at + 2, Seq::empty())) {
                Ok((after_fields, fields)) => {
                    Ok((after_fields, Type::Struct(fields)))
                },
                Err(error) => Err(error),
            }
        } else {
            grammar::missing(TerminalToken::OpenBrace, at + 1)
        }
    } else {
        grammar::missing(TerminalToken::Struct, at)
    }
}

/// Reads a record type without a name.
pub(crate) fn struct_type<'s>(items: &'s [TokenItem<'s>], at: usize) -> (found: Result<
    (usize, Type<'s>),
    ParseError,
>)
    requires
        at <= items.len(),
    ensures
        grammar::agrees(found, struct_type_at(items@, at as int)),
        found matches Ok((next, _)) ==> at < next <= items.len(),
    decreases grammar::left(items@, at as int), 1nat,
{
    proof {
        reveal(struct_type_at);
        reveal(fields_from);
    }
    grammar::expect(items, at, TerminalToken::Struct)?;
    grammar::expect(items, at + 1, TerminalToken::OpenBrace)?;
    let (after_fields, fields) = fields(items, at + 2)?;
    Ok((after_fields, Type::Struct(fields)))
}

/// What can stand behind a type, and makes another type of it.
#[verifier::opaque]
pub open spec fn type_tail_at<'s>(
    items: Seq<TokenItem<'s>>,
    at: int,
    ty: Type<'s>,
) -> Parsed<Type<'s>>
    decreases grammar::left(items, at), 0nat,
{
    if grammar::has_terminal(items, at, TerminalToken::OpenSquare)
        && grammar::on_same_line(items, at) {
        if grammar::has_terminal(items, at + 1, TerminalToken::CloseSquare) {
            type_tail_at(items, at + 2, Type::Array(Box::new(ty), None))
        } else {
            match grammar::took(items, at + 1, expression::expression_at(items, at + 1)) {
                Ok((next, size)) => {
                    if grammar::has_terminal(items, next, TerminalToken::CloseSquare) {
                        type_tail_at(
                            items,
                            next + 1,
                            Type::Array(Box::new(ty), Some(Box::new(size))),
                        )
                    } else {
                        grammar::missing(TerminalToken::CloseSquare, next)
                    }
                },
                Err(error) => Err(error),
            }
        }
    } else if grammar::has_terminal(items, at, TerminalToken::BitwiseAnd) {
        type_tail_at(items, at + 1, Type::Reference(Box::new(ty)))
    } else if grammar::has_terminal(items, at, TerminalToken::OrNull) {
        type_tail_at(items, at + 1, Type::Nullable(Box::new(ty)))
    } else if grammar::has_terminal(items, at, TerminalToken::FunctionRef) {
        if grammar::has_terminal(items, at + 1, TerminalToken::OpenBracket) {
            match grammar::took(items, at + 2, ref_params_from(items, at + 2, Seq::empty())) {
                Ok((next, params)) => {
                    type_tail_at(items, next, Type::FunctionRef(Some(Box::new(ty)), params))
                },
                Err(error) => Err(error),
            }
        } else {
            grammar::missing(TerminalToken::OpenBracket, at + 1)
        }
    } else {
        Ok((at, ty))
    }
}

/// A type.
#[verifier::opaque]
pub open spec fn type__at<'s>(items: Seq<TokenItem<'s>>, at: int) -> Parsed<Type<'s>>
    decreases grammar::left(items, at), 4nat,
{
    match grammar::took(items, at, base_type_at(items, at)) {
        Ok((next, ty)) => type_tail_at(items, next, ty),
        Err(error) => Err(error),
    }
}

/// Reads a type.
pub(crate) fn type_<'s>(items: &'s [TokenItem<'s>], at: usize) -> (found: Result<
    (usize, Type<'s>),
    ParseError,
>)
    requires
        at <= items.len(),
    ensures
        grammar::agrees(found, type__at(items@, at as int)),
        found matches Ok((next, _)) ==> at < next <= items.len(),
    decreases grammar::left(items@, at as int), 4nat,
{
    proof {
        reveal(type__at);
        reveal(base_type_at);
        reveal(type_tail_at);
    }
    let (next, base) = base_type(items, at)?;
    let mut ty = base;
    let mut place: usize = next;
    loop
        invariant
            at < place <= items.len(),
            type__at(items@, at as int) == type_tail_at(items@, place as int, ty),
        decreases items.len() - place,
    {
        proof {
            reveal(type_tail_at);
            reveal(base_type_at);
            reveal(ref_params_from);
        }
        if grammar::at_terminal(items, place, TerminalToken::OpenSquare)
            && grammar::same_line(items, place) {
            if grammar::at_terminal(items, place + 1, TerminalToken::CloseSquare) {
                ty = Type::Array(Box::new(ty), None);
                place = place + 2;
            } else {
                let (after, size) = expression::expression(items, place + 1)?;
                grammar::expect(items, after, TerminalToken::CloseSquare)?;
                ty = Type::Array(Box::new(ty), Some(Box::new(size)));
                place = after + 1;
            }
        } else if grammar::at_terminal(items, place, TerminalToken::BitwiseAnd) {
            ty = Type::Reference(Box::new(ty));
            place = place + 1;
        } else if grammar::at_terminal(items, place, TerminalToken::OrNull) {
            ty = Type::Nullable(Box::new(ty));
            place = place + 1;
        } else if grammar::at_terminal(items, place, TerminalToken::FunctionRef) {
            grammar::expect(items, place + 1, TerminalToken::OpenBracket)?;
            let (after, params) = ref_params(items, place + 2)?;
            ty = Type::FunctionRef(Some(Box::new(ty)), params);
            place = after;
        } else {
            return Ok((place, ty));
        }
    }
}

/// A field of a record type.
#[verifier::opaque]
pub open spec fn field_at<'s>(items: Seq<TokenItem<'s>>, at: int) -> Parsed<StructField<'s>>
    decreases grammar::left(items, at), 5nat,
{
    match grammar::took(items, at, type__at(items, at)) {
        Ok((after_ty, ty)) => {
            match name::identifier_at(items, after_ty) {
                Ok((after_name, name)) => {
                    match grammar::kept(
                        items,
                        after_name,
                        variable::initializer_at(items, after_name),
                    ) {
                        Ok((after_value, value)) => {
                            Ok((after_value, StructField { ty, name, value }))
                        },
                        Err(error) => Err(error),
                    }
                },
                Err(error) => Err(error),
            }
        },
        Err(error) => Err(error),
    }
}

/// Reads a field of a record type.
pub(crate) fn field<'s>(items: &'s [TokenItem<'s>], at: usize) -> (found: Result<
    (usize, StructField<'s>),
    ParseError,
>)
    requires
        at <= items.len(),
    ensures
        grammar::agrees(found, field_at(items@, at as int)),
        found matches Ok((next, _)) ==> at < next <= items.len(),
    decreases grammar::left(items@, at as int), 5nat,
{
    proof {
        reveal(field_at);
        reveal(type__at);
    }
    let (after_ty, ty) = type_(items, at)?;
    let (after_name, name) = name::identifier(items, after_ty)?;
    let (after_value, value) = variable::initializer(items, after_name)?;
    Ok((after_value, StructField { ty, name, value }))
}

/// A parameter of a function type.
#[verifier::opaque]
pub open spec fn ref_param_at<'s>(
    items: Seq<TokenItem<'s>>,
    at: int,
) -> Parsed<FunctionRefParam<'s>>
    decreases grammar::left(items, at), 5nat,
{
    match grammar::took(items, at, type__at(items, at)) {
        Ok((next, ty)) => {
            match name::identifier_at(items, next) {
                Ok((end, name)) => Ok((end, FunctionRefParam { ty, name: Some(name) })),
                Err(_) => Ok((next, FunctionRefParam { ty, name: None })),
            }
        },
        Err(error) => Err(error),
    }
}

/// Reads a parameter of a function type.
pub(crate) fn ref_param<'s>(items: &'s [TokenItem<'s>], at: usize) -> (found: Result<
    (usize, FunctionRefParam<'s>),
    ParseError,
>)
    requires
        at <= items.len(),
    ensures
        grammar::agrees(found, ref_param_at(items@, at as int)),
        found matches Ok((next, _)) ==> at < next <= items.len(),
    decreases grammar::left(items@, at as int), 5nat,
{
    proof {
        reveal(ref_param_at);
        reveal(type__at);
    }
    let (next, ty) = type_(items, at)?;
    match name::identifier(items, next) {
        Ok((end, name)) => Ok((end, FunctionRefParam { ty, name: Some(name) })),
        Err(_) => Ok((next, FunctionRefParam { ty, name: None })),
    }
}

/// A name without a type.
pub open spec fn plain_name_at<'s>(items: Seq<TokenItem<'s>>, at: int) -> Parsed<TypedName<'s>> {
    match name::identifier_at(items, at) {
        Ok((next, name)) => Ok((next, TypedName { ty: None, name })),
        Err(error) => Err(error),
    }
}

/// Reads a name without a type.
pub(crate) fn plain_name<'s>(items: &'s [TokenItem<'s>], at: usize) -> (found: Result<
    (usize, TypedName<'s>),
    ParseError,
>)
    requires
        at <= items.len(),
    ensures
        grammar::agrees(found, plain_name_at(items@, at as int)),
        found matches Ok((next, _)) ==> at < next <= items.len(),
{
    let (next, name) = name::identifier(items, at)?;
    Ok((next, TypedName { ty: None, name }))
}

/// A name behind its type, or a name alone.
#[verifier::opaque]
pub open spec fn typed_name_at<'s>(items: Seq<TokenItem<'s>>, at: int) -> Parsed<TypedName<'s>>
    decreases grammar::left(items, at), 5nat,
{
    match grammar::took(items, at, type__at(items, at)) {
        Ok((next, ty)) => {
            match name::identifier_at(items, next) {
                Ok((end, name)) => Ok((end, TypedName { ty: Some(ty), name })),
                Err(_) => plain_name_at(items, at),
            }
        },
        Err(_) => plain_name_at(items, at),
    }
}

/// Reads a name behind its type, or a name alone.
pub(crate) fn typed_name<'s>(items: &'s [TokenItem<'s>], at: usize) -> (found: Result<
    (usize, TypedName<'s>),
    ParseError,
>)
    requires
        at <= items.len(),
    ensures
        grammar::agrees(found, typed_name_at(items@, at as int)),
        found matches Ok((next, _)) ==> at < next <= items.len(),
    decreases grammar::left(items@, at as int), 5nat,
{
    proof {
        reveal(typed_name_at);
        reveal(type__at);
    }
    match type_(items, at) {
        Ok((next, ty)) => {
            match name::identifier(items, next) {
                Ok((end, name)) => Ok((end, TypedName { ty: Some(ty), name })),
                Err(_) => plain_name(items, at),
            }
        },
        Err(_) => plain_name(items, at),
    }
}

} // verus!
