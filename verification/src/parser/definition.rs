use crate::ast::{
    ClassDefinition, ClassMember, ClassMemberType, ConstStatement, EnumDefinition, EnumEntry,
    Expression, FunctionDefinitionStatement, StatementType, StructDefinition, TypeDefinition,
    VarDefinition,
};
use crate::lexer::TokenItem;
use crate::list::List;
use crate::list;
use crate::parser::error::{ParseError, ParseErrorType};
use crate::parser::grammar::Parsed;
use crate::parser::{expression, function, grammar, name, statement, type_, variable};
use crate::token::TerminalToken;
use vstd::prelude::*;

verus! {

/// Whether a statement gives a name to something.
pub open spec fn is_definition(ty: StatementType<'_>) -> bool {
    ||| ty is Const
    ||| ty is EnumDefinition
    ||| ty is StructDefinition
    ||| ty is TypeDefinition
    ||| ty is ClassDefinition
    ||| ty is VarDefinition
    ||| ty is FunctionDefinition
}

/// Whether a statement gives a name to something.
fn defines(ty: &StatementType<'_>) -> (defines: bool)
    ensures
        defines == is_definition(*ty),
{
    match ty {
        StatementType::Const(_) => true,
        StatementType::EnumDefinition(_) => true,
        StatementType::StructDefinition(_) => true,
        StatementType::TypeDefinition(_) => true,
        StatementType::ClassDefinition(_) => true,
        StatementType::VarDefinition(_) => true,
        StatementType::FunctionDefinition(_) => true,
        _ => false,
    }
}

/// A named constant.
#[verifier::opaque]
pub open spec fn const_statement_at<'s>(
    items: Seq<TokenItem<'s>>,
    at: int,
) -> Parsed<StatementType<'s>>
    decreases grammar::left(items, at), 1nat,
{
    if grammar::has_terminal(items, at, TerminalToken::Const) {
        match grammar::took(items, at + 1, type_::typed_name_at(items, at + 1)) {
            Ok((after_named, named)) => {
                if grammar::has_terminal(items, after_named, TerminalToken::Assign) {
                    match grammar::took(
                        items,
                        after_named + 1,
                        expression::expression_at(items, after_named + 1),
                    ) {
                        Ok((after_value, value)) => {
                            Ok(
                                (
                                    after_value,
                                    StatementType::Const(
                                        ConstStatement { ty: named.ty, name: named.name, value },
                                    ),
                                ),
                            )
                        },
                        Err(error) => Err(error),
                    }
                } else {
                    grammar::missing(TerminalToken::Assign, after_named)
                }
            },
            Err(error) => Err(error),
        }
    } else {
        grammar::missing(TerminalToken::Const, at)
    }
}

/// Reads a named constant.
pub(crate) fn const_statement<'s>(items: &'s [TokenItem<'s>], at: usize) -> (found: Result<
    (usize, StatementType<'s>),
    ParseError,
>)
    requires
        at <= items.len(),
    ensures
        grammar::agrees(found, const_statement_at(items@, at as int)),
        found matches Ok((next, _)) ==> at < next <= items.len(),
    decreases grammar::left(items@, at as int), 1nat,
{
    proof {
        reveal(const_statement_at);
    }
    grammar::expect(items, at, TerminalToken::Const)?;
    let (after_named, named) = type_::typed_name(items, at + 1)?;
    grammar::expect(items, after_named, TerminalToken::Assign)?;
    let (after_value, value) = expression::expression(items, after_named + 1)?;
    Ok(
        (
            after_value,
            StatementType::Const(ConstStatement { ty: named.ty, name: named.name, value }),
        ),
    )
}

/// A named list of constants.
#[verifier::opaque]
pub open spec fn enum_definition_at<'s>(
    items: Seq<TokenItem<'s>>,
    at: int,
) -> Parsed<StatementType<'s>>
    decreases grammar::left(items, at), 1nat,
{
    if grammar::has_terminal(items, at, TerminalToken::Enum) {
        match name::identifier_at(items, at + 1) {
            Ok((after_name, name)) => {
                if grammar::has_terminal(items, after_name, TerminalToken::OpenBrace) {
                    match grammar::took(
                        items,
                        after_name + 1,
                        enum_entries_from(items, after_name + 1, Seq::empty()),
                    ) {
                        Ok((after_entries, entries)) => {
                            Ok(
                                (
                                    after_entries,
                                    StatementType::EnumDefinition(EnumDefinition { name, entries }),
                                ),
                            )
                        },
                        Err(error) => Err(error),
                    }
                } else {
                    grammar::missing(TerminalToken::OpenBrace, after_name)
                }
            },
            Err(error) => Err(error),
        }
    } else {
        grammar::missing(TerminalToken::Enum, at)
    }
}

/// Reads a named list of constants.
pub(crate) fn enum_definition<'s>(items: &'s [TokenItem<'s>], at: usize) -> (found: Result<
    (usize, StatementType<'s>),
    ParseError,
>)
    requires
        at <= items.len(),
    ensures
        grammar::agrees(found, enum_definition_at(items@, at as int)),
        found matches Ok((next, _)) ==> at < next <= items.len(),
    decreases grammar::left(items@, at as int), 1nat,
{
    proof {
        reveal(enum_definition_at);
        reveal(enum_entries_from);
    }
    grammar::expect(items, at, TerminalToken::Enum)?;
    let (after_name, name) = name::identifier(items, at + 1)?;
    grammar::expect(items, after_name, TerminalToken::OpenBrace)?;
    let (after_entries, entries) = enum_entries(items, after_name + 1)?;
    Ok((after_entries, StatementType::EnumDefinition(EnumDefinition { name, entries })))
}

/// Constants up to `}`, each with a comma behind it or not, behind those found before.
#[verifier::opaque]
pub open spec fn enum_entries_from<'s>(
    items: Seq<TokenItem<'s>>,
    at: int,
    found: Seq<EnumEntry<'s>>,
) -> Parsed<List<EnumEntry<'s>>>
    decreases grammar::left(items, at), 2nat,
{
    if grammar::has_terminal(items, at, TerminalToken::CloseBrace) {
        Ok((at + 1, list::list_of(found)))
    } else if at >= items.len() {
        grammar::missing(TerminalToken::CloseBrace, at)
    } else {
        match grammar::took(items, at, enum_entry_at(items, at)) {
            Ok((next, item)) => {
                enum_entries_from(
                    items,
                    if grammar::has_terminal(items, next, TerminalToken::Comma) {
                        next + 1
                    } else {
                        next
                    },
                    found.push(item),
                )
            },
            Err(error) => Err(error),
        }
    }
}

/// Reads constants up to `}`, each with a comma behind it or not.
pub(crate) fn enum_entries<'s>(items: &'s [TokenItem<'s>], at: usize) -> (found: Result<
    (usize, List<EnumEntry<'s>>),
    ParseError,
>)
    requires
        at <= items.len(),
    ensures
        grammar::agrees(found, enum_entries_from(items@, at as int, Seq::empty())),
        found matches Ok((next, _)) ==> at < next <= items.len(),
    decreases grammar::left(items@, at as int), 2nat,
{
    let mut read: Vec<EnumEntry<'s>> = Vec::new();
    let mut place: usize = at;
    loop
        invariant
            at <= place <= items.len(),
            enum_entries_from(items@, place as int, read@) == enum_entries_from(
                items@,
                at as int,
                Seq::empty(),
            ),
        decreases items.len() - place,
    {
        proof {
            reveal(enum_entries_from);
            reveal(enum_entry_at);
        }
        if grammar::at_terminal(items, place, TerminalToken::CloseBrace) {
            return Ok((place + 1, List::from_vec(read)));
        }
        if place >= items.len() {
            return Err(grammar::missing_terminal(TerminalToken::CloseBrace, place));
        }
        let (next, item) = enum_entry(items, place)?;
        read.push(item);
        place = if grammar::at_terminal(items, next, TerminalToken::Comma) {
            next + 1
        } else {
            next
        };
    }
}

/// A constant of a list.
#[verifier::opaque]
pub open spec fn enum_entry_at<'s>(items: Seq<TokenItem<'s>>, at: int) -> Parsed<EnumEntry<'s>>
    decreases grammar::left(items, at), 1nat,
{
    match name::identifier_at(items, at) {
        Ok((after_name, name)) => {
            match grammar::kept(items, after_name, variable::initializer_at(items, after_name)) {
                Ok((after_value, value)) => {
                    Ok((after_value, EnumEntry { name, value }))
                },
                Err(error) => Err(error),
            }
        },
        Err(error) => Err(error),
    }
}

/// Reads a constant of a list.
pub(crate) fn enum_entry<'s>(items: &'s [TokenItem<'s>], at: usize) -> (found: Result<
    (usize, EnumEntry<'s>),
    ParseError,
>)
    requires
        at <= items.len(),
    ensures
        grammar::agrees(found, enum_entry_at(items@, at as int)),
        found matches Ok((next, _)) ==> at < next <= items.len(),
    decreases grammar::left(items@, at as int), 1nat,
{
    proof {
        reveal(enum_entry_at);
    }
    let (after_name, name) = name::identifier(items, at)?;
    let (after_value, value) = variable::initializer(items, after_name)?;
    Ok((after_value, EnumEntry { name, value }))
}

/// A named record type.
#[verifier::opaque]
pub open spec fn struct_definition_at<'s>(
    items: Seq<TokenItem<'s>>,
    at: int,
) -> Parsed<StatementType<'s>>
    decreases grammar::left(items, at), 1nat,
{
    if grammar::has_terminal(items, at, TerminalToken::Struct) {
        match name::identifier_at(items, at + 1) {
            Ok((after_name, name)) => {
                if grammar::has_terminal(items, after_name, TerminalToken::OpenBrace) {
                    match grammar::took(
                        items,
                        after_name + 1,
                        type_::fields_from(items, after_name + 1, Seq::empty()),
                    ) {
                        Ok((after_fields, fields)) => {
                            Ok(
                                (
                                    after_fields,
                                    StatementType::StructDefinition(
                                        StructDefinition { name, fields },
                                    ),
                                ),
                            )
                        },
                        Err(error) => Err(error),
                    }
                } else {
                    grammar::missing(TerminalToken::OpenBrace, after_name)
                }
            },
            Err(error) => Err(error),
        }
    } else {
        grammar::missing(TerminalToken::Struct, at)
    }
}

/// Reads a named record type.
pub(crate) fn struct_definition<'s>(items: &'s [TokenItem<'s>], at: usize) -> (found: Result<
    (usize, StatementType<'s>),
    ParseError,
>)
    requires
        at <= items.len(),
    ensures
        grammar::agrees(found, struct_definition_at(items@, at as int)),
        found matches Ok((next, _)) ==> at < next <= items.len(),
    decreases grammar::left(items@, at as int), 1nat,
{
    proof {
        reveal(struct_definition_at);
    }
    grammar::expect(items, at, TerminalToken::Struct)?;
    let (after_name, name) = name::identifier(items, at + 1)?;
    grammar::expect(items, after_name, TerminalToken::OpenBrace)?;
    let (after_fields, fields) = type_::fields(items, after_name + 1)?;
    Ok((after_fields, StatementType::StructDefinition(StructDefinition { name, fields })))
}

/// A second name for a type.
#[verifier::opaque]
pub open spec fn type_definition_at<'s>(
    items: Seq<TokenItem<'s>>,
    at: int,
) -> Parsed<StatementType<'s>>
    decreases grammar::left(items, at), 1nat,
{
    if grammar::has_terminal(items, at, TerminalToken::Typedef) {
        match name::identifier_at(items, at + 1) {
            Ok((after_name, name)) => {
                match grammar::took(items, after_name, type_::type__at(items, after_name)) {
                    Ok((after_ty, ty)) => {
                        Ok((after_ty, StatementType::TypeDefinition(TypeDefinition { name, ty })))
                    },
                    Err(error) => Err(error),
                }
            },
            Err(error) => Err(error),
        }
    } else {
        grammar::missing(TerminalToken::Typedef, at)
    }
}

/// Reads a second name for a type.
pub(crate) fn type_definition<'s>(items: &'s [TokenItem<'s>], at: usize) -> (found: Result<
    (usize, StatementType<'s>),
    ParseError,
>)
    requires
        at <= items.len(),
    ensures
        grammar::agrees(found, type_definition_at(items@, at as int)),
        found matches Ok((next, _)) ==> at < next <= items.len(),
    decreases grammar::left(items@, at as int), 1nat,
{
    proof {
        reveal(type_definition_at);
    }
    grammar::expect(items, at, TerminalToken::Typedef)?;
    let (after_name, name) = name::identifier(items, at + 1)?;
    let (after_ty, ty) = type_::type_(items, after_name)?;
    Ok((after_ty, StatementType::TypeDefinition(TypeDefinition { name, ty })))
}

/// A class.
#[verifier::opaque]
pub open spec fn class_definition_at<'s>(
    items: Seq<TokenItem<'s>>,
    at: int,
) -> Parsed<StatementType<'s>>
    decreases grammar::left(items, at), 1nat,
{
    if grammar::has_terminal(items, at, TerminalToken::Class) {
        match grammar::took(items, at + 1, name::names_from(items, at + 1, Seq::empty())) {
            Ok((after_name, name)) => {
                match grammar::kept(items, after_name, base_class_at(items, after_name)) {
                    Ok((after_base, base)) => {
                        if grammar::has_terminal(items, after_base, TerminalToken::OpenBrace) {
                            match grammar::took(
                                items,
                                after_base + 1,
                                members_from(items, after_base + 1, Seq::empty()),
                            ) {
                                Ok((after_members, members)) => {
                                    Ok(
                                        (
                                            after_members,
                                            StatementType::ClassDefinition(
                                                ClassDefinition { name, base, members },
                                            ),
                                        ),
                                    )
                                },
                                Err(error) => Err(error),
                            }
                        } else {
                            grammar::missing(TerminalToken::OpenBrace, after_base)
                        }
                    },
                    Err(error) => Err(error),
                }
            },
            Err(error) => Err(error),
        }
    } else {
        grammar::missing(TerminalToken::Class, at)
    }
}

/// Reads a class.
pub(crate) fn class_definition<'s>(items: &'s [TokenItem<'s>], at: usize) -> (found: Result<
    (usize, StatementType<'s>),
    ParseError,
>)
    requires
        at <= items.len(),
    ensures
        grammar::agrees(found, class_definition_at(items@, at as int)),
        found matches Ok((next, _)) ==> at < next <= items.len(),
    decreases grammar::left(items@, at as int), 1nat,
{
    proof {
        reveal(class_definition_at);
        reveal(base_class_at);
        reveal(members_from);
    }
    grammar::expect(items, at, TerminalToken::Class)?;
    let (after_name, name) = name::names(items, at + 1)?;
    let (after_base, base) = base_class(items, after_name)?;
    grammar::expect(items, after_base, TerminalToken::OpenBrace)?;
    let (after_members, members) = members(items, after_base + 1)?;
    Ok((after_members, StatementType::ClassDefinition(ClassDefinition { name, base, members })))
}

/// The class that a class extends, or nothing.
#[verifier::opaque]
pub open spec fn base_class_at<'s>(
    items: Seq<TokenItem<'s>>,
    at: int,
) -> Parsed<Option<Expression<'s>>>
    decreases grammar::left(items, at), 0nat,
{
    if grammar::has_terminal(items, at, TerminalToken::Extends) {
        match grammar::took(items, at + 1, expression::postfix_at(items, at + 1)) {
            Ok((next, base)) => Ok((next, Some(base))),
            Err(error) => Err(error),
        }
    } else {
        Ok((at, None))
    }
}

/// Reads the class that a class extends, or nothing.
pub(crate) fn base_class<'s>(items: &'s [TokenItem<'s>], at: usize) -> (found: Result<
    (usize, Option<Expression<'s>>),
    ParseError,
>)
    requires
        at <= items.len(),
    ensures
        grammar::agrees(found, base_class_at(items@, at as int)),
        found matches Ok((next, _)) ==> at <= next <= items.len(),
    decreases grammar::left(items@, at as int), 0nat,
{
    proof {
        reveal(base_class_at);
    }
    if grammar::at_terminal(items, at, TerminalToken::Extends) {
        let (next, base) = expression::postfix(items, at + 1)?;
        Ok((next, Some(base)))
    } else {
        Ok((at, None))
    }
}

/// Members up to `}`, each with a semicolon behind it or not, behind those found before.
#[verifier::opaque]
pub open spec fn members_from<'s>(
    items: Seq<TokenItem<'s>>,
    at: int,
    found: Seq<ClassMember<'s>>,
) -> Parsed<List<ClassMember<'s>>>
    decreases grammar::left(items, at), 19nat,
{
    if grammar::has_terminal(items, at, TerminalToken::CloseBrace) {
        Ok((at + 1, list::list_of(found)))
    } else if at >= items.len() {
        grammar::missing(TerminalToken::CloseBrace, at)
    } else {
        match grammar::took(items, at, member_at(items, at)) {
            Ok((next, item)) => {
                members_from(
                    items,
                    if grammar::has_terminal(items, next, TerminalToken::Semicolon) {
                        next + 1
                    } else {
                        next
                    },
                    found.push(item),
                )
            },
            Err(error) => Err(error),
        }
    }
}

/// Reads members up to `}`, each with a semicolon behind it or not.
pub(crate) fn members<'s>(items: &'s [TokenItem<'s>], at: usize) -> (found: Result<
    (usize, List<ClassMember<'s>>),
    ParseError,
>)
    requires
        at <= items.len(),
    ensures
        grammar::agrees(found, members_from(items@, at as int, Seq::empty())),
        found matches Ok((next, _)) ==> at < next <= items.len(),
    decreases grammar::left(items@, at as int), 19nat,
{
    let mut read: Vec<ClassMember<'s>> = Vec::new();
    let mut place: usize = at;
    loop
        invariant
            at <= place <= items.len(),
            members_from(items@, place as int, read@) == members_from(
                items@,
                at as int,
                Seq::empty(),
            ),
        decreases items.len() - place,
    {
        proof {
            reveal(members_from);
            reveal(member_at);
        }
        if grammar::at_terminal(items, place, TerminalToken::CloseBrace) {
            return Ok((place + 1, List::from_vec(read)));
        }
        if place >= items.len() {
            return Err(grammar::missing_terminal(TerminalToken::CloseBrace, place));
        }
        let (next, item) = member(items, place)?;
        read.push(item);
        place = if grammar::at_terminal(items, next, TerminalToken::Semicolon) {
            next + 1
        } else {
            next
        };
    }
}

/// A member of a class.
#[verifier::opaque]
pub open spec fn member_at<'s>(items: Seq<TokenItem<'s>>, at: int) -> Parsed<ClassMember<'s>>
    decreases grammar::left(items, at), 18nat,
{
    if grammar::has_terminal(items, at, TerminalToken::Static) {
        match grammar::took(items, at + 1, member_type_at(items, at + 1)) {
            Ok((next, ty)) => Ok((next, ClassMember { is_static: true, ty })),
            Err(error) => Err(error),
        }
    } else {
        match grammar::took(items, at, member_type_at(items, at)) {
            Ok((next, ty)) => Ok((next, ClassMember { is_static: false, ty })),
            Err(error) => Err(error),
        }
    }
}

/// Reads a member of a class.
pub(crate) fn member<'s>(items: &'s [TokenItem<'s>], at: usize) -> (found: Result<
    (usize, ClassMember<'s>),
    ParseError,
>)
    requires
        at <= items.len(),
    ensures
        grammar::agrees(found, member_at(items@, at as int)),
        found matches Ok((next, _)) ==> at < next <= items.len(),
    decreases grammar::left(items@, at as int), 18nat,
{
    proof {
        reveal(member_at);
        reveal(member_type_at);
    }
    if grammar::at_terminal(items, at, TerminalToken::Static) {
        let (next, ty) = member_type(items, at + 1)?;
        Ok((next, ClassMember { is_static: true, ty }))
    } else {
        let (next, ty) = member_type(items, at)?;
        Ok((next, ClassMember { is_static: false, ty }))
    }
}

/// What a member of a class is.
#[verifier::opaque]
pub open spec fn member_type_at<'s>(
    items: Seq<TokenItem<'s>>,
    at: int,
) -> Parsed<ClassMemberType<'s>>
    decreases grammar::left(items, at), 17nat,
{
    if grammar::has_terminal(items, at, TerminalToken::Constructor) {
        constructor_at(items, at)
    } else if grammar::has_terminal(items, at, TerminalToken::Function) {
        method_at(items, at)
    } else {
        property_at(items, at)
    }
}

/// Reads what a member of a class is.
pub(crate) fn member_type<'s>(items: &'s [TokenItem<'s>], at: usize) -> (found: Result<
    (usize, ClassMemberType<'s>),
    ParseError,
>)
    requires
        at <= items.len(),
    ensures
        grammar::agrees(found, member_type_at(items@, at as int)),
        found matches Ok((next, _)) ==> at < next <= items.len(),
    decreases grammar::left(items@, at as int), 17nat,
{
    proof {
        reveal(member_type_at);
        reveal(constructor_at);
        reveal(method_at);
        reveal(property_at);
    }
    if grammar::at_terminal(items, at, TerminalToken::Constructor) {
        constructor(items, at)
    } else if grammar::at_terminal(items, at, TerminalToken::Function) {
        method(items, at)
    } else {
        property(items, at)
    }
}

/// A function that makes values of a class.
#[verifier::opaque]
pub open spec fn constructor_at<'s>(
    items: Seq<TokenItem<'s>>,
    at: int,
) -> Parsed<ClassMemberType<'s>>
    decreases grammar::left(items, at), 16nat,
{
    if grammar::has_terminal(items, at, TerminalToken::Constructor) {
        match grammar::took(items, at + 1, function::definition_at(items, at + 1)) {
            Ok((after_function, function)) => {
                Ok((after_function, ClassMemberType::Constructor(function)))
            },
            Err(error) => Err(error),
        }
    } else {
        grammar::missing(TerminalToken::Constructor, at)
    }
}

/// Reads a function that makes values of a class.
pub(crate) fn constructor<'s>(items: &'s [TokenItem<'s>], at: usize) -> (found: Result<
    (usize, ClassMemberType<'s>),
    ParseError,
>)
    requires
        at <= items.len(),
    ensures
        grammar::agrees(found, constructor_at(items@, at as int)),
        found matches Ok((next, _)) ==> at < next <= items.len(),
    decreases grammar::left(items@, at as int), 16nat,
{
    proof {
        reveal(constructor_at);
    }
    grammar::expect(items, at, TerminalToken::Constructor)?;
    let (after_function, function) = function::definition(items, at + 1)?;
    Ok((after_function, ClassMemberType::Constructor(function)))
}

/// A function of a class.
#[verifier::opaque]
pub open spec fn method_at<'s>(items: Seq<TokenItem<'s>>, at: int) -> Parsed<ClassMemberType<'s>>
    decreases grammar::left(items, at), 16nat,
{
    if grammar::has_terminal(items, at, TerminalToken::Function) {
        match name::identifier_at(items, at + 1) {
            Ok((after_name, name)) => {
                match grammar::took(items, after_name, function::definition_at(items, after_name)) {
                    Ok((after_function, function)) => {
                        Ok((after_function, ClassMemberType::Function(name, function)))
                    },
                    Err(error) => Err(error),
                }
            },
            Err(error) => Err(error),
        }
    } else {
        grammar::missing(TerminalToken::Function, at)
    }
}

/// Reads a function of a class.
pub(crate) fn method<'s>(items: &'s [TokenItem<'s>], at: usize) -> (found: Result<
    (usize, ClassMemberType<'s>),
    ParseError,
>)
    requires
        at <= items.len(),
    ensures
        grammar::agrees(found, method_at(items@, at as int)),
        found matches Ok((next, _)) ==> at < next <= items.len(),
    decreases grammar::left(items@, at as int), 16nat,
{
    proof {
        reveal(method_at);
    }
    grammar::expect(items, at, TerminalToken::Function)?;
    let (after_name, name) = name::identifier(items, at + 1)?;
    let (after_function, function) = function::definition(items, after_name)?;
    Ok((after_function, ClassMemberType::Function(name, function)))
}

/// A named value of a class.
#[verifier::opaque]
pub open spec fn property_at<'s>(items: Seq<TokenItem<'s>>, at: int) -> Parsed<ClassMemberType<'s>>
    decreases grammar::left(items, at), 16nat,
{
    match name::identifier_at(items, at) {
        Ok((after_name, name)) => {
            if grammar::has_terminal(items, after_name, TerminalToken::Assign) {
                match grammar::took(
                    items,
                    after_name + 1,
                    expression::expression_at(items, after_name + 1),
                ) {
                    Ok((after_value, value)) => {
                        Ok((after_value, ClassMemberType::Property(name, value)))
                    },
                    Err(error) => Err(error),
                }
            } else {
                grammar::missing(TerminalToken::Assign, after_name)
            }
        },
        Err(error) => Err(error),
    }
}

/// Reads a named value of a class.
pub(crate) fn property<'s>(items: &'s [TokenItem<'s>], at: usize) -> (found: Result<
    (usize, ClassMemberType<'s>),
    ParseError,
>)
    requires
        at <= items.len(),
    ensures
        grammar::agrees(found, property_at(items@, at as int)),
        found matches Ok((next, _)) ==> at < next <= items.len(),
    decreases grammar::left(items@, at as int), 16nat,
{
    proof {
        reveal(property_at);
    }
    let (after_name, name) = name::identifier(items, at)?;
    grammar::expect(items, after_name, TerminalToken::Assign)?;
    let (after_value, value) = expression::expression(items, after_name + 1)?;
    Ok((after_value, ClassMemberType::Property(name, value)))
}

/// Variables without a type.
#[verifier::opaque]
pub open spec fn local_definition_at<'s>(
    items: Seq<TokenItem<'s>>,
    at: int,
) -> Parsed<StatementType<'s>>
    decreases grammar::left(items, at), 1nat,
{
    if grammar::has_terminal(items, at, TerminalToken::Local) {
        match grammar::took(items, at + 1, variable::variables_from(items, at + 1, Seq::empty())) {
            Ok((after_variables, variables)) => {
                Ok(
                    (
                        after_variables,
                        StatementType::VarDefinition(VarDefinition { ty: None, variables }),
                    ),
                )
            },
            Err(error) => Err(error),
        }
    } else {
        grammar::missing(TerminalToken::Local, at)
    }
}

/// Reads variables without a type.
pub(crate) fn local_definition<'s>(items: &'s [TokenItem<'s>], at: usize) -> (found: Result<
    (usize, StatementType<'s>),
    ParseError,
>)
    requires
        at <= items.len(),
    ensures
        grammar::agrees(found, local_definition_at(items@, at as int)),
        found matches Ok((next, _)) ==> at < next <= items.len(),
    decreases grammar::left(items@, at as int), 1nat,
{
    proof {
        reveal(local_definition_at);
    }
    grammar::expect(items, at, TerminalToken::Local)?;
    let (after_variables, variables) = variable::variables(items, at + 1)?;
    Ok((after_variables, StatementType::VarDefinition(VarDefinition { ty: None, variables })))
}

/// Variables of a record type without a name.
#[verifier::opaque]
pub open spec fn struct_var_definition_at<'s>(
    items: Seq<TokenItem<'s>>,
    at: int,
) -> Parsed<StatementType<'s>>
    decreases grammar::left(items, at), 5nat,
{
    match grammar::took(items, at, type_::type__at(items, at)) {
        Ok((after_ty, ty)) => {
            match grammar::took(
                items,
                after_ty,
                variable::variables_from(items, after_ty, Seq::empty()),
            ) {
                Ok((after_variables, variables)) => {
                    Ok(
                        (
                            after_variables,
                            StatementType::VarDefinition(VarDefinition { ty: Some(ty), variables }),
                        ),
                    )
                },
                Err(error) => Err(error),
            }
        },
        Err(error) => Err(error),
    }
}

/// Reads variables of a record type without a name.
pub(crate) fn struct_var_definition<'s>(items: &'s [TokenItem<'s>], at: usize) -> (found: Result<
    (usize, StatementType<'s>),
    ParseError,
>)
    requires
        at <= items.len(),
    ensures
        grammar::agrees(found, struct_var_definition_at(items@, at as int)),
        found matches Ok((next, _)) ==> at < next <= items.len(),
    decreases grammar::left(items@, at as int), 5nat,
{
    proof {
        reveal(struct_var_definition_at);
    }
    let (after_ty, ty) = type_::type_(items, at)?;
    let (after_variables, variables) = variable::variables(items, after_ty)?;
    Ok((after_variables, StatementType::VarDefinition(VarDefinition { ty: Some(ty), variables })))
}

/// A function without a type that it returns.
#[verifier::opaque]
pub open spec fn function_definition_at<'s>(
    items: Seq<TokenItem<'s>>,
    at: int,
) -> Parsed<StatementType<'s>>
    decreases grammar::left(items, at), 2nat,
{
    if grammar::has_terminal(items, at, TerminalToken::Function) {
        match grammar::took(items, at + 1, name::names_from(items, at + 1, Seq::empty())) {
            Ok((after_name, name)) => {
                match grammar::took(items, after_name, function::definition_at(items, after_name)) {
                    Ok((after_definition, definition)) => {
                        Ok(
                            (
                                after_definition,
                                StatementType::FunctionDefinition(
                                    FunctionDefinitionStatement {
                                        return_type: None,
                                        name,
                                        definition,
                                    },
                                ),
                            ),
                        )
                    },
                    Err(error) => Err(error),
                }
            },
            Err(error) => Err(error),
        }
    } else {
        grammar::missing(TerminalToken::Function, at)
    }
}

/// Reads a function without a type that it returns.
pub(crate) fn function_definition<'s>(items: &'s [TokenItem<'s>], at: usize) -> (found: Result<
    (usize, StatementType<'s>),
    ParseError,
>)
    requires
        at <= items.len(),
    ensures
        grammar::agrees(found, function_definition_at(items@, at as int)),
        found matches Ok((next, _)) ==> at < next <= items.len(),
    decreases grammar::left(items@, at as int), 2nat,
{
    proof {
        reveal(function_definition_at);
    }
    grammar::expect(items, at, TerminalToken::Function)?;
    let (after_name, name) = name::names(items, at + 1)?;
    let (after_definition, definition) = function::definition(items, after_name)?;
    Ok(
        (
            after_definition,
            StatementType::FunctionDefinition(
                FunctionDefinitionStatement { return_type: None, name, definition },
            ),
        ),
    )
}

/// The name of a function that other scripts can use.
#[verifier::opaque]
pub open spec fn global_function_at<'s>(
    items: Seq<TokenItem<'s>>,
    at: int,
) -> Parsed<StatementType<'s>>
    decreases grammar::left(items, at), 1nat,
{
    if grammar::has_terminal(items, at, TerminalToken::Global) {
        if grammar::has_terminal(items, at + 1, TerminalToken::Function) {
            match grammar::took(items, at + 2, name::names_from(items, at + 2, Seq::empty())) {
                Ok((after_name, name)) => {
                    Ok((after_name, StatementType::GlobalFunction(name)))
                },
                Err(error) => Err(error),
            }
        } else {
            grammar::missing(TerminalToken::Function, at + 1)
        }
    } else {
        grammar::missing(TerminalToken::Global, at)
    }
}

/// Reads the name of a function that other scripts can use.
pub(crate) fn global_function<'s>(items: &'s [TokenItem<'s>], at: usize) -> (found: Result<
    (usize, StatementType<'s>),
    ParseError,
>)
    requires
        at <= items.len(),
    ensures
        grammar::agrees(found, global_function_at(items@, at as int)),
        found matches Ok((next, _)) ==> at < next <= items.len(),
    decreases grammar::left(items@, at as int), 1nat,
{
    proof {
        reveal(global_function_at);
    }
    grammar::expect(items, at, TerminalToken::Global)?;
    grammar::expect(items, at + 1, TerminalToken::Function)?;
    let (after_name, name) = name::names(items, at + 2)?;
    Ok((after_name, StatementType::GlobalFunction(name)))
}

/// A definition that other scripts can use.
#[verifier::opaque]
pub open spec fn global_definition_at<'s>(
    items: Seq<TokenItem<'s>>,
    at: int,
) -> Parsed<StatementType<'s>>
    decreases grammar::left(items, at), 1nat,
{
    if grammar::has_terminal(items, at, TerminalToken::Global) {
        match grammar::took(items, at + 1, statement::statement_at(items, at + 1)) {
            Ok((next, statement)) => {
                if is_definition(statement.ty) {
                    Ok((next, StatementType::Global(Box::new(statement))))
                } else {
                    grammar::wrong(ParseErrorType::ExpectedDefinition, at + 1)
                }
            },
            Err(error) => Err(error),
        }
    } else {
        grammar::missing(TerminalToken::Global, at)
    }
}

/// Reads a definition that other scripts can use.
pub(crate) fn global_definition<'s>(items: &'s [TokenItem<'s>], at: usize) -> (found: Result<
    (usize, StatementType<'s>),
    ParseError,
>)
    requires
        at <= items.len(),
    ensures
        grammar::agrees(found, global_definition_at(items@, at as int)),
        found matches Ok((next, _)) ==> at < next <= items.len(),
    decreases grammar::left(items@, at as int), 1nat,
{
    proof {
        reveal(global_definition_at);
    }
    grammar::expect(items, at, TerminalToken::Global)?;
    let (next, statement) = statement::statement(items, at + 1)?;
    if defines(&statement.ty) {
        Ok((next, StatementType::Global(Box::new(statement))))
    } else {
        Err(ParseError::new(ParseErrorType::ExpectedDefinition, at + 1))
    }
}

/// A function or variables behind their type, or an expression. The name stands on the line
/// on which the type ends.
#[verifier::opaque]
pub open spec fn typed_definition_at<'s>(
    items: Seq<TokenItem<'s>>,
    at: int,
) -> Parsed<StatementType<'s>>
    decreases grammar::left(items, at), 18nat,
{
    match grammar::took(items, at, type_::type__at(items, at)) {
        Ok((next, ty)) => {
            if !grammar::on_same_line(items, next) {
                expression_statement_at(items, at)
            } else if grammar::has_terminal(items, next, TerminalToken::Function)
                && grammar::has_name(items, next + 1) {
                match grammar::took(
                    items,
                    next + 1,
                    name::names_from(items, next + 1, Seq::empty()),
                ) {
                    Ok((middle, name)) => {
                        match grammar::took(items, middle, function::definition_at(items, middle)) {
                            Ok((end, definition)) => Ok(
                                (
                                    end,
                                    StatementType::FunctionDefinition(
                                        FunctionDefinitionStatement {
                                            return_type: Some(ty),
                                            name,
                                            definition,
                                        },
                                    ),
                                ),
                            ),
                            Err(error) => Err(error),
                        }
                    },
                    Err(error) => Err(error),
                }
            } else if grammar::has_name(items, next) {
                match grammar::took(
                    items,
                    next,
                    variable::variables_from(items, next, Seq::empty()),
                ) {
                    Ok((end, variables)) => Ok(
                        (
                            end,
                            StatementType::VarDefinition(VarDefinition { ty: Some(ty), variables }),
                        ),
                    ),
                    Err(error) => Err(error),
                }
            } else {
                expression_statement_at(items, at)
            }
        },
        Err(_) => expression_statement_at(items, at),
    }
}

/// Reads a function or variables behind their type, or an expression. The name stands on the line
/// on which the type ends.
pub(crate) fn typed_definition<'s>(items: &'s [TokenItem<'s>], at: usize) -> (found: Result<
    (usize, StatementType<'s>),
    ParseError,
>)
    requires
        at <= items.len(),
    ensures
        grammar::agrees(found, typed_definition_at(items@, at as int)),
        found matches Ok((next, _)) ==> at < next <= items.len(),
    decreases grammar::left(items@, at as int), 18nat,
{
    proof {
        reveal(typed_definition_at);
        reveal(expression_statement_at);
    }
    match type_::type_(items, at) {
        Ok((next, ty)) => {
            if !grammar::same_line(items, next) {
                expression_statement(items, at)
            } else if grammar::at_terminal(items, next, TerminalToken::Function)
                && grammar::at_name(items, next + 1) {
                let (middle, name) = name::names(items, next + 1)?;
                let (end, definition) = function::definition(items, middle)?;
                let return_type = Some(ty);
                Ok(
                    (
                        end,
                        StatementType::FunctionDefinition(
                            FunctionDefinitionStatement { return_type, name, definition },
                        ),
                    ),
                )
            } else if grammar::at_name(items, next) {
                let (end, variables) = variable::variables(items, next)?;
                Ok((end, StatementType::VarDefinition(VarDefinition { ty: Some(ty), variables })))
            } else {
                expression_statement(items, at)
            }
        },
        Err(_) => expression_statement(items, at),
    }
}

/// An expression on its own.
#[verifier::opaque]
pub open spec fn expression_statement_at<'s>(
    items: Seq<TokenItem<'s>>,
    at: int,
) -> Parsed<StatementType<'s>>
    decreases grammar::left(items, at), 17nat,
{
    match grammar::took(items, at, expression::expression_at(items, at)) {
        Ok((after_value, value)) => {
            Ok((after_value, StatementType::Expression(value)))
        },
        Err(error) => Err(error),
    }
}

/// Reads an expression on its own.
pub(crate) fn expression_statement<'s>(items: &'s [TokenItem<'s>], at: usize) -> (found: Result<
    (usize, StatementType<'s>),
    ParseError,
>)
    requires
        at <= items.len(),
    ensures
        grammar::agrees(found, expression_statement_at(items@, at as int)),
        found matches Ok((next, _)) ==> at < next <= items.len(),
    decreases grammar::left(items@, at as int), 17nat,
{
    proof {
        reveal(expression_statement_at);
    }
    let (after_value, value) = expression::expression(items, at)?;
    Ok((after_value, StatementType::Expression(value)))
}

} // verus!
