use crate::ast::{
    DelayThreadStatement, Expression, ForInitializer, ForStatement, ForeachStatement,
    IfStatement, Statement, StatementType, SwitchCase, SwitchStatement, TryCatchStatement,
    TypedName, VarDefinition, WhileStatement,
};
use crate::lexer::TokenItem;
use crate::list::List;
use crate::list;
use crate::parser::error::ParseError;
use crate::parser::grammar::Parsed;
use crate::parser::{expression, grammar, name, statement, type_, variable};
use crate::token::TerminalToken;
use vstd::prelude::*;

verus! {

/// A choice between two statements.
#[verifier::opaque]
pub open spec fn if_statement_at<'s>(
    items: Seq<TokenItem<'s>>,
    at: int,
) -> Parsed<StatementType<'s>>
    decreases grammar::left(items, at), 1nat,
{
    if grammar::has_terminal(items, at, TerminalToken::If) {
        if grammar::has_terminal(items, at + 1, TerminalToken::OpenBracket) {
            match grammar::took(items, at + 2, expression::expression_at(items, at + 2)) {
                Ok((after_condition, condition)) => {
                    if grammar::has_terminal(items, after_condition, TerminalToken::CloseBracket) {
                        match grammar::took(
                            items,
                            after_condition + 1,
                            statement::statement_at(items, after_condition + 1),
                        ) {
                            Ok((after_body, body)) => {
                                match grammar::kept(
                                    items,
                                    after_body,
                                    else_body_at(items, after_body),
                                ) {
                                    Ok((after_else_body, else_body)) => {
                                        Ok(
                                            (
                                                after_else_body,
                                                StatementType::If(
                                                    IfStatement {
                                                        condition,
                                                        body: Box::new(body),
                                                        else_body,
                                                    },
                                                ),
                                            ),
                                        )
                                    },
                                    Err(error) => Err(error),
                                }
                            },
                            Err(error) => Err(error),
                        }
                    } else {
                        grammar::missing(TerminalToken::CloseBracket, after_condition)
                    }
                },
                Err(error) => Err(error),
            }
        } else {
            grammar::missing(TerminalToken::OpenBracket, at + 1)
        }
    } else {
        grammar::missing(TerminalToken::If, at)
    }
}

/// Reads a choice between two statements.
pub(crate) fn if_statement<'s>(items: &'s [TokenItem<'s>], at: usize) -> (found: Result<
    (usize, StatementType<'s>),
    ParseError,
>)
    requires
        at <= items.len(),
    ensures
        grammar::agrees(found, if_statement_at(items@, at as int)),
        found matches Ok((next, _)) ==> at < next <= items.len(),
    decreases grammar::left(items@, at as int), 1nat,
{
    proof {
        reveal(if_statement_at);
        reveal(else_body_at);
    }
    grammar::expect(items, at, TerminalToken::If)?;
    grammar::expect(items, at + 1, TerminalToken::OpenBracket)?;
    let (after_condition, condition) = expression::expression(items, at + 2)?;
    grammar::expect(items, after_condition, TerminalToken::CloseBracket)?;
    let (after_body, body) = statement::statement(items, after_condition + 1)?;
    let (after_else_body, else_body) = else_body(items, after_body)?;
    Ok(
        (
            after_else_body,
            StatementType::If(IfStatement { condition, body: Box::new(body), else_body }),
        ),
    )
}

/// The other statement of a choice, or nothing.
#[verifier::opaque]
pub open spec fn else_body_at<'s>(
    items: Seq<TokenItem<'s>>,
    at: int,
) -> Parsed<Option<Box<Statement<'s>>>>
    decreases grammar::left(items, at), 0nat,
{
    if grammar::has_terminal(items, at, TerminalToken::Else) {
        match grammar::took(items, at + 1, statement::statement_at(items, at + 1)) {
            Ok((next, body)) => Ok((next, Some(Box::new(body)))),
            Err(error) => Err(error),
        }
    } else {
        Ok((at, None))
    }
}

/// Reads the other statement of a choice, or nothing.
pub(crate) fn else_body<'s>(items: &'s [TokenItem<'s>], at: usize) -> (found: Result<
    (usize, Option<Box<Statement<'s>>>),
    ParseError,
>)
    requires
        at <= items.len(),
    ensures
        grammar::agrees(found, else_body_at(items@, at as int)),
        found matches Ok((next, _)) ==> at <= next <= items.len(),
    decreases grammar::left(items@, at as int), 0nat,
{
    proof {
        reveal(else_body_at);
    }
    if grammar::at_terminal(items, at, TerminalToken::Else) {
        let (next, body) = statement::statement(items, at + 1)?;
        Ok((next, Some(Box::new(body))))
    } else {
        Ok((at, None))
    }
}

/// A loop with its condition before the body.
#[verifier::opaque]
pub open spec fn while_statement_at<'s>(
    items: Seq<TokenItem<'s>>,
    at: int,
) -> Parsed<StatementType<'s>>
    decreases grammar::left(items, at), 1nat,
{
    if grammar::has_terminal(items, at, TerminalToken::While) {
        if grammar::has_terminal(items, at + 1, TerminalToken::OpenBracket) {
            match grammar::took(items, at + 2, expression::expression_at(items, at + 2)) {
                Ok((after_condition, condition)) => {
                    if grammar::has_terminal(items, after_condition, TerminalToken::CloseBracket) {
                        match grammar::took(
                            items,
                            after_condition + 1,
                            statement::statement_at(items, after_condition + 1),
                        ) {
                            Ok((after_body, body)) => {
                                Ok(
                                    (
                                        after_body,
                                        StatementType::While(
                                            WhileStatement { condition, body: Box::new(body) },
                                        ),
                                    ),
                                )
                            },
                            Err(error) => Err(error),
                        }
                    } else {
                        grammar::missing(TerminalToken::CloseBracket, after_condition)
                    }
                },
                Err(error) => Err(error),
            }
        } else {
            grammar::missing(TerminalToken::OpenBracket, at + 1)
        }
    } else {
        grammar::missing(TerminalToken::While, at)
    }
}

/// Reads a loop with its condition before the body.
pub(crate) fn while_statement<'s>(items: &'s [TokenItem<'s>], at: usize) -> (found: Result<
    (usize, StatementType<'s>),
    ParseError,
>)
    requires
        at <= items.len(),
    ensures
        grammar::agrees(found, while_statement_at(items@, at as int)),
        found matches Ok((next, _)) ==> at < next <= items.len(),
    decreases grammar::left(items@, at as int), 1nat,
{
    proof {
        reveal(while_statement_at);
    }
    grammar::expect(items, at, TerminalToken::While)?;
    grammar::expect(items, at + 1, TerminalToken::OpenBracket)?;
    let (after_condition, condition) = expression::expression(items, at + 2)?;
    grammar::expect(items, after_condition, TerminalToken::CloseBracket)?;
    let (after_body, body) = statement::statement(items, after_condition + 1)?;
    Ok((after_body, StatementType::While(WhileStatement { condition, body: Box::new(body) })))
}

/// A loop with its condition behind the body.
#[verifier::opaque]
pub open spec fn do_statement_at<'s>(
    items: Seq<TokenItem<'s>>,
    at: int,
) -> Parsed<StatementType<'s>>
    decreases grammar::left(items, at), 1nat,
{
    if grammar::has_terminal(items, at, TerminalToken::Do) {
        match grammar::took(items, at + 1, statement::statement_at(items, at + 1)) {
            Ok((after_body, body)) => {
                if grammar::has_terminal(items, after_body, TerminalToken::While) {
                    if grammar::has_terminal(items, after_body + 1, TerminalToken::OpenBracket) {
                        match grammar::took(
                            items,
                            after_body + 2,
                            expression::expression_at(items, after_body + 2),
                        ) {
                            Ok((after_condition, condition)) => {
                                if grammar::has_terminal(
                                    items,
                                    after_condition,
                                    TerminalToken::CloseBracket,
                                ) {
                                    Ok(
                                        (
                                            after_condition + 1,
                                            StatementType::DoWhile(
                                                WhileStatement { condition, body: Box::new(body) },
                                            ),
                                        ),
                                    )
                                } else {
                                    grammar::missing(TerminalToken::CloseBracket, after_condition)
                                }
                            },
                            Err(error) => Err(error),
                        }
                    } else {
                        grammar::missing(TerminalToken::OpenBracket, after_body + 1)
                    }
                } else {
                    grammar::missing(TerminalToken::While, after_body)
                }
            },
            Err(error) => Err(error),
        }
    } else {
        grammar::missing(TerminalToken::Do, at)
    }
}

/// Reads a loop with its condition behind the body.
pub(crate) fn do_statement<'s>(items: &'s [TokenItem<'s>], at: usize) -> (found: Result<
    (usize, StatementType<'s>),
    ParseError,
>)
    requires
        at <= items.len(),
    ensures
        grammar::agrees(found, do_statement_at(items@, at as int)),
        found matches Ok((next, _)) ==> at < next <= items.len(),
    decreases grammar::left(items@, at as int), 1nat,
{
    proof {
        reveal(do_statement_at);
    }
    grammar::expect(items, at, TerminalToken::Do)?;
    let (after_body, body) = statement::statement(items, at + 1)?;
    grammar::expect(items, after_body, TerminalToken::While)?;
    grammar::expect(items, after_body + 1, TerminalToken::OpenBracket)?;
    let (after_condition, condition) = expression::expression(items, after_body + 2)?;
    grammar::expect(items, after_condition, TerminalToken::CloseBracket)?;
    Ok(
        (
            after_condition + 1,
            StatementType::DoWhile(WhileStatement { condition, body: Box::new(body) }),
        ),
    )
}

/// A loop with a first step, a condition and a step.
#[verifier::opaque]
pub open spec fn for_statement_at<'s>(
    items: Seq<TokenItem<'s>>,
    at: int,
) -> Parsed<StatementType<'s>>
    decreases grammar::left(items, at), 1nat,
{
    if grammar::has_terminal(items, at, TerminalToken::For) {
        if grammar::has_terminal(items, at + 1, TerminalToken::OpenBracket) {
            match grammar::kept(items, at + 2, for_initializer_at(items, at + 2)) {
                Ok((after_initializer, initializer)) => {
                    if grammar::has_terminal(items, after_initializer, TerminalToken::Semicolon) {
                        match grammar::kept(
                            items,
                            after_initializer + 1,
                            for_condition_at(items, after_initializer + 1),
                        ) {
                            Ok((after_condition, condition)) => {
                                if grammar::has_terminal(
                                    items,
                                    after_condition,
                                    TerminalToken::Semicolon,
                                ) {
                                    match grammar::kept(
                                        items,
                                        after_condition + 1,
                                        for_increment_at(items, after_condition + 1),
                                    ) {
                                        Ok((after_increment, increment)) => {
                                            if grammar::has_terminal(
                                                items,
                                                after_increment,
                                                TerminalToken::CloseBracket,
                                            ) {
                                                match grammar::took(
                                                    items,
                                                    after_increment + 1,
                                                    statement::statement_at(
                                                        items,
                                                        after_increment + 1,
                                                    ),
                                                ) {
                                                    Ok((after_body, body)) => {
                                                        Ok(
                                                            (
                                                                after_body,
                                                                StatementType::For(
                                                                    ForStatement {
                                                                        initializer,
                                                                        condition,
                                                                        increment,
                                                                        body: Box::new(body),
                                                                    },
                                                                ),
                                                            ),
                                                        )
                                                    },
                                                    Err(error) => Err(error),
                                                }
                                            } else {
                                                grammar::missing(
                                                    TerminalToken::CloseBracket,
                                                    after_increment,
                                                )
                                            }
                                        },
                                        Err(error) => Err(error),
                                    }
                                } else {
                                    grammar::missing(TerminalToken::Semicolon, after_condition)
                                }
                            },
                            Err(error) => Err(error),
                        }
                    } else {
                        grammar::missing(TerminalToken::Semicolon, after_initializer)
                    }
                },
                Err(error) => Err(error),
            }
        } else {
            grammar::missing(TerminalToken::OpenBracket, at + 1)
        }
    } else {
        grammar::missing(TerminalToken::For, at)
    }
}

/// Reads a loop with a first step, a condition and a step.
pub(crate) fn for_statement<'s>(items: &'s [TokenItem<'s>], at: usize) -> (found: Result<
    (usize, StatementType<'s>),
    ParseError,
>)
    requires
        at <= items.len(),
    ensures
        grammar::agrees(found, for_statement_at(items@, at as int)),
        found matches Ok((next, _)) ==> at < next <= items.len(),
    decreases grammar::left(items@, at as int), 1nat,
{
    proof {
        reveal(for_statement_at);
        reveal(for_initializer_at);
        reveal(for_condition_at);
        reveal(for_increment_at);
    }
    grammar::expect(items, at, TerminalToken::For)?;
    grammar::expect(items, at + 1, TerminalToken::OpenBracket)?;
    let (after_initializer, initializer) = for_initializer(items, at + 2)?;
    grammar::expect(items, after_initializer, TerminalToken::Semicolon)?;
    let (after_condition, condition) = for_condition(items, after_initializer + 1)?;
    grammar::expect(items, after_condition, TerminalToken::Semicolon)?;
    let (after_increment, increment) = for_increment(items, after_condition + 1)?;
    grammar::expect(items, after_increment, TerminalToken::CloseBracket)?;
    let (after_body, body) = statement::statement(items, after_increment + 1)?;
    Ok(
        (
            after_body,
            StatementType::For(
                ForStatement { initializer, condition, increment, body: Box::new(body) },
            ),
        ),
    )
}

/// The first step of a loop, or nothing.
#[verifier::opaque]
pub open spec fn for_initializer_at<'s>(
    items: Seq<TokenItem<'s>>,
    at: int,
) -> Parsed<Option<ForInitializer<'s>>>
    decreases grammar::left(items, at), 18nat,
{
    if grammar::has_terminal(items, at, TerminalToken::Semicolon) {
        Ok((at, None))
    } else if grammar::has_terminal(items, at, TerminalToken::Local) {
        match grammar::took(items, at + 1, variable::variables_from(items, at + 1, Seq::empty())) {
            Ok((next, variables)) => Ok(
                (next, Some(ForInitializer::Definition(VarDefinition { ty: None, variables }))),
            ),
            Err(error) => Err(error),
        }
    } else {
        match grammar::took(items, at, type_::type__at(items, at)) {
            Ok((next, ty)) => {
                if grammar::has_name(items, next) {
                    match grammar::took(
                        items,
                        next,
                        variable::variables_from(items, next, Seq::empty()),
                    ) {
                        Ok((end, variables)) => Ok(
                            (
                                end,
                                Some(
                                    ForInitializer::Definition(
                                        VarDefinition { ty: Some(ty), variables },
                                    ),
                                ),
                            ),
                        ),
                        Err(error) => Err(error),
                    }
                } else {
                    for_expression_at(items, at)
                }
            },
            Err(_) => for_expression_at(items, at),
        }
    }
}

/// Reads the first step of a loop, or nothing.
pub(crate) fn for_initializer<'s>(items: &'s [TokenItem<'s>], at: usize) -> (found: Result<
    (usize, Option<ForInitializer<'s>>),
    ParseError,
>)
    requires
        at <= items.len(),
    ensures
        grammar::agrees(found, for_initializer_at(items@, at as int)),
        found matches Ok((next, _)) ==> at <= next <= items.len(),
    decreases grammar::left(items@, at as int), 18nat,
{
    proof {
        reveal(for_initializer_at);
        reveal(for_expression_at);
    }
    if grammar::at_terminal(items, at, TerminalToken::Semicolon) {
        Ok((at, None))
    } else if grammar::at_terminal(items, at, TerminalToken::Local) {
        match variable::variables(items, at + 1) {
            Ok((next, variables)) => Ok(
                (next, Some(ForInitializer::Definition(VarDefinition { ty: None, variables }))),
            ),
            Err(error) => Err(error),
        }
    } else {
        match type_::type_(items, at) {
            Ok((next, ty)) => {
                if grammar::at_name(items, next) {
                    match variable::variables(items, next) {
                        Ok((end, variables)) => Ok(
                            (
                                end,
                                Some(
                                    ForInitializer::Definition(
                                        VarDefinition { ty: Some(ty), variables },
                                    ),
                                ),
                            ),
                        ),
                        Err(error) => Err(error),
                    }
                } else {
                    for_expression(items, at)
                }
            },
            Err(_) => for_expression(items, at),
        }
    }
}

/// The first step of a loop that is an expression.
#[verifier::opaque]
pub open spec fn for_expression_at<'s>(
    items: Seq<TokenItem<'s>>,
    at: int,
) -> Parsed<Option<ForInitializer<'s>>>
    decreases grammar::left(items, at), 17nat,
{
    match grammar::took(items, at, expression::expression_at(items, at)) {
        Ok((after_value, value)) => {
            Ok((after_value, Some(ForInitializer::Expression(value))))
        },
        Err(error) => Err(error),
    }
}

/// Reads the first step of a loop that is an expression.
pub(crate) fn for_expression<'s>(items: &'s [TokenItem<'s>], at: usize) -> (found: Result<
    (usize, Option<ForInitializer<'s>>),
    ParseError,
>)
    requires
        at <= items.len(),
    ensures
        grammar::agrees(found, for_expression_at(items@, at as int)),
        found matches Ok((next, _)) ==> at < next <= items.len(),
    decreases grammar::left(items@, at as int), 17nat,
{
    proof {
        reveal(for_expression_at);
    }
    let (after_value, value) = expression::expression(items, at)?;
    Ok((after_value, Some(ForInitializer::Expression(value))))
}

/// The condition of a loop, or nothing.
#[verifier::opaque]
pub open spec fn for_condition_at<'s>(
    items: Seq<TokenItem<'s>>,
    at: int,
) -> Parsed<Option<Expression<'s>>>
    decreases grammar::left(items, at), 17nat,
{
    if grammar::has_terminal(items, at, TerminalToken::Semicolon) {
        Ok((at, None))
    } else {
        match grammar::took(items, at, expression::expression_at(items, at)) {
            Ok((next, value)) => Ok((next, Some(value))),
            Err(error) => Err(error),
        }
    }
}

/// Reads the condition of a loop, or nothing.
pub(crate) fn for_condition<'s>(items: &'s [TokenItem<'s>], at: usize) -> (found: Result<
    (usize, Option<Expression<'s>>),
    ParseError,
>)
    requires
        at <= items.len(),
    ensures
        grammar::agrees(found, for_condition_at(items@, at as int)),
        found matches Ok((next, _)) ==> at <= next <= items.len(),
    decreases grammar::left(items@, at as int), 17nat,
{
    proof {
        reveal(for_condition_at);
    }
    if grammar::at_terminal(items, at, TerminalToken::Semicolon) {
        Ok((at, None))
    } else {
        let (next, value) = expression::expression(items, at)?;
        Ok((next, Some(value)))
    }
}

/// The step of a loop, or nothing.
#[verifier::opaque]
pub open spec fn for_increment_at<'s>(
    items: Seq<TokenItem<'s>>,
    at: int,
) -> Parsed<Option<Expression<'s>>>
    decreases grammar::left(items, at), 17nat,
{
    if grammar::has_terminal(items, at, TerminalToken::CloseBracket) {
        Ok((at, None))
    } else {
        match grammar::took(items, at, expression::expression_at(items, at)) {
            Ok((next, value)) => Ok((next, Some(value))),
            Err(error) => Err(error),
        }
    }
}

/// Reads the step of a loop, or nothing.
pub(crate) fn for_increment<'s>(items: &'s [TokenItem<'s>], at: usize) -> (found: Result<
    (usize, Option<Expression<'s>>),
    ParseError,
>)
    requires
        at <= items.len(),
    ensures
        grammar::agrees(found, for_increment_at(items@, at as int)),
        found matches Ok((next, _)) ==> at <= next <= items.len(),
    decreases grammar::left(items@, at as int), 17nat,
{
    proof {
        reveal(for_increment_at);
    }
    if grammar::at_terminal(items, at, TerminalToken::CloseBracket) {
        Ok((at, None))
    } else {
        let (next, value) = expression::expression(items, at)?;
        Ok((next, Some(value)))
    }
}

/// A loop over the items of a value.
#[verifier::opaque]
pub open spec fn foreach_statement_at<'s>(
    items: Seq<TokenItem<'s>>,
    at: int,
) -> Parsed<StatementType<'s>>
    decreases grammar::left(items, at), 1nat,
{
    if grammar::has_terminal(items, at, TerminalToken::Foreach) {
        if grammar::has_terminal(items, at + 1, TerminalToken::OpenBracket) {
            match grammar::took(items, at + 2, foreach_names_at(items, at + 2)) {
                Ok((after_names, names)) => {
                    if grammar::has_terminal(items, after_names, TerminalToken::In) {
                        match grammar::took(
                            items,
                            after_names + 1,
                            expression::expression_at(items, after_names + 1),
                        ) {
                            Ok((after_array, array)) => {
                                if grammar::has_terminal(
                                    items,
                                    after_array,
                                    TerminalToken::CloseBracket,
                                ) {
                                    match grammar::took(
                                        items,
                                        after_array + 1,
                                        statement::statement_at(items, after_array + 1),
                                    ) {
                                        Ok((after_body, body)) => {
                                            Ok(
                                                (
                                                    after_body,
                                                    StatementType::Foreach(
                                                        ForeachStatement {
                                                            index: names.0,
                                                            value: names.1,
                                                            array,
                                                            body: Box::new(body),
                                                        },
                                                    ),
                                                ),
                                            )
                                        },
                                        Err(error) => Err(error),
                                    }
                                } else {
                                    grammar::missing(TerminalToken::CloseBracket, after_array)
                                }
                            },
                            Err(error) => Err(error),
                        }
                    } else {
                        grammar::missing(TerminalToken::In, after_names)
                    }
                },
                Err(error) => Err(error),
            }
        } else {
            grammar::missing(TerminalToken::OpenBracket, at + 1)
        }
    } else {
        grammar::missing(TerminalToken::Foreach, at)
    }
}

/// Reads a loop over the items of a value.
pub(crate) fn foreach_statement<'s>(items: &'s [TokenItem<'s>], at: usize) -> (found: Result<
    (usize, StatementType<'s>),
    ParseError,
>)
    requires
        at <= items.len(),
    ensures
        grammar::agrees(found, foreach_statement_at(items@, at as int)),
        found matches Ok((next, _)) ==> at < next <= items.len(),
    decreases grammar::left(items@, at as int), 1nat,
{
    proof {
        reveal(foreach_statement_at);
        reveal(foreach_names_at);
    }
    grammar::expect(items, at, TerminalToken::Foreach)?;
    grammar::expect(items, at + 1, TerminalToken::OpenBracket)?;
    let (after_names, names) = foreach_names(items, at + 2)?;
    grammar::expect(items, after_names, TerminalToken::In)?;
    let (after_array, array) = expression::expression(items, after_names + 1)?;
    grammar::expect(items, after_array, TerminalToken::CloseBracket)?;
    let (after_body, body) = statement::statement(items, after_array + 1)?;
    Ok(
        (
            after_body,
            StatementType::Foreach(
                ForeachStatement { index: names.0, value: names.1, array, body: Box::new(body) },
            ),
        ),
    )
}

/// The variables of a loop over items: the item alone, or the index and the item.
#[verifier::opaque]
pub open spec fn foreach_names_at<'s>(
    items: Seq<TokenItem<'s>>,
    at: int,
) -> Parsed<(Option<TypedName<'s>>, TypedName<'s>)>
    decreases grammar::left(items, at), 6nat,
{
    match grammar::took(items, at, type_::typed_name_at(items, at)) {
        Ok((next, first)) => {
            if grammar::has_terminal(items, next, TerminalToken::Comma) {
                match grammar::took(items, next + 1, type_::typed_name_at(items, next + 1)) {
                    Ok((end, second)) => Ok((end, (Some(first), second))),
                    Err(error) => Err(error),
                }
            } else {
                Ok((next, (None, first)))
            }
        },
        Err(error) => Err(error),
    }
}

/// Reads the variables of a loop over items: the item alone, or the index and the item.
pub(crate) fn foreach_names<'s>(items: &'s [TokenItem<'s>], at: usize) -> (found: Result<
    (usize, (Option<TypedName<'s>>, TypedName<'s>)),
    ParseError,
>)
    requires
        at <= items.len(),
    ensures
        grammar::agrees(found, foreach_names_at(items@, at as int)),
        found matches Ok((next, _)) ==> at < next <= items.len(),
    decreases grammar::left(items@, at as int), 6nat,
{
    proof {
        reveal(foreach_names_at);
    }
    let (next, first) = type_::typed_name(items, at)?;
    if grammar::at_terminal(items, next, TerminalToken::Comma) {
        let (end, second) = type_::typed_name(items, next + 1)?;
        Ok((end, (Some(first), second)))
    } else {
        Ok((next, (None, first)))
    }
}

/// A choice between cases.
#[verifier::opaque]
pub open spec fn switch_statement_at<'s>(
    items: Seq<TokenItem<'s>>,
    at: int,
) -> Parsed<StatementType<'s>>
    decreases grammar::left(items, at), 1nat,
{
    if grammar::has_terminal(items, at, TerminalToken::Switch) {
        if grammar::has_terminal(items, at + 1, TerminalToken::OpenBracket) {
            match grammar::took(items, at + 2, expression::expression_at(items, at + 2)) {
                Ok((after_value, value)) => {
                    if grammar::has_terminal(items, after_value, TerminalToken::CloseBracket) {
                        if grammar::has_terminal(items, after_value + 1, TerminalToken::OpenBrace) {
                            match grammar::took(
                                items,
                                after_value + 2,
                                cases_from(items, after_value + 2, Seq::empty()),
                            ) {
                                Ok((after_cases, cases)) => {
                                    Ok(
                                        (
                                            after_cases,
                                            StatementType::Switch(SwitchStatement { value, cases }),
                                        ),
                                    )
                                },
                                Err(error) => Err(error),
                            }
                        } else {
                            grammar::missing(TerminalToken::OpenBrace, after_value + 1)
                        }
                    } else {
                        grammar::missing(TerminalToken::CloseBracket, after_value)
                    }
                },
                Err(error) => Err(error),
            }
        } else {
            grammar::missing(TerminalToken::OpenBracket, at + 1)
        }
    } else {
        grammar::missing(TerminalToken::Switch, at)
    }
}

/// Reads a choice between cases.
pub(crate) fn switch_statement<'s>(items: &'s [TokenItem<'s>], at: usize) -> (found: Result<
    (usize, StatementType<'s>),
    ParseError,
>)
    requires
        at <= items.len(),
    ensures
        grammar::agrees(found, switch_statement_at(items@, at as int)),
        found matches Ok((next, _)) ==> at < next <= items.len(),
    decreases grammar::left(items@, at as int), 1nat,
{
    proof {
        reveal(switch_statement_at);
        reveal(cases_from);
    }
    grammar::expect(items, at, TerminalToken::Switch)?;
    grammar::expect(items, at + 1, TerminalToken::OpenBracket)?;
    let (after_value, value) = expression::expression(items, at + 2)?;
    grammar::expect(items, after_value, TerminalToken::CloseBracket)?;
    grammar::expect(items, after_value + 1, TerminalToken::OpenBrace)?;
    let (after_cases, cases) = cases(items, after_value + 2)?;
    Ok((after_cases, StatementType::Switch(SwitchStatement { value, cases })))
}

/// Cases up to `}`, behind those found before.
#[verifier::opaque]
pub open spec fn cases_from<'s>(
    items: Seq<TokenItem<'s>>,
    at: int,
    found: Seq<SwitchCase<'s>>,
) -> Parsed<List<SwitchCase<'s>>>
    decreases grammar::left(items, at), 2nat,
{
    if grammar::has_terminal(items, at, TerminalToken::CloseBrace) {
        Ok((at + 1, list::list_of(found)))
    } else if at >= items.len() {
        grammar::missing(TerminalToken::CloseBrace, at)
    } else {
        match grammar::took(items, at, case_at(items, at)) {
            Ok((next, item)) => {
                cases_from(items, next, found.push(item))
            },
            Err(error) => Err(error),
        }
    }
}

/// Reads cases up to `}`.
pub(crate) fn cases<'s>(items: &'s [TokenItem<'s>], at: usize) -> (found: Result<
    (usize, List<SwitchCase<'s>>),
    ParseError,
>)
    requires
        at <= items.len(),
    ensures
        grammar::agrees(found, cases_from(items@, at as int, Seq::empty())),
        found matches Ok((next, _)) ==> at < next <= items.len(),
    decreases grammar::left(items@, at as int), 2nat,
{
    let mut read: Vec<SwitchCase<'s>> = Vec::new();
    let mut place: usize = at;
    loop
        invariant
            at <= place <= items.len(),
            cases_from(items@, place as int, read@) == cases_from(
                items@,
                at as int,
                Seq::empty(),
            ),
        decreases items.len() - place,
    {
        proof {
            reveal(cases_from);
            reveal(case_at);
        }
        if grammar::at_terminal(items, place, TerminalToken::CloseBrace) {
            return Ok((place + 1, List::from_vec(read)));
        }
        if place >= items.len() {
            return Err(grammar::missing_terminal(TerminalToken::CloseBrace, place));
        }
        let (next, item) = case(items, place)?;
        read.push(item);
        place = next;
    }
}

/// A case with a value.
#[verifier::opaque]
pub open spec fn value_case_at<'s>(items: Seq<TokenItem<'s>>, at: int) -> Parsed<SwitchCase<'s>>
    decreases grammar::left(items, at), 0nat,
{
    if grammar::has_terminal(items, at, TerminalToken::Case) {
        match grammar::took(items, at + 1, expression::expression_at(items, at + 1)) {
            Ok((after_value, value)) => {
                if grammar::has_terminal(items, after_value, TerminalToken::Colon) {
                    match grammar::kept(
                        items,
                        after_value + 1,
                        case_body_from(items, after_value + 1, Seq::empty()),
                    ) {
                        Ok((after_body, body)) => {
                            Ok((after_body, SwitchCase { value: Some(value), body }))
                        },
                        Err(error) => Err(error),
                    }
                } else {
                    grammar::missing(TerminalToken::Colon, after_value)
                }
            },
            Err(error) => Err(error),
        }
    } else {
        grammar::missing(TerminalToken::Case, at)
    }
}

/// Reads a case with a value.
pub(crate) fn value_case<'s>(items: &'s [TokenItem<'s>], at: usize) -> (found: Result<
    (usize, SwitchCase<'s>),
    ParseError,
>)
    requires
        at <= items.len(),
    ensures
        grammar::agrees(found, value_case_at(items@, at as int)),
        found matches Ok((next, _)) ==> at < next <= items.len(),
    decreases grammar::left(items@, at as int), 0nat,
{
    proof {
        reveal(value_case_at);
        reveal(case_body_from);
    }
    grammar::expect(items, at, TerminalToken::Case)?;
    let (after_value, value) = expression::expression(items, at + 1)?;
    grammar::expect(items, after_value, TerminalToken::Colon)?;
    let (after_body, body) = case_body(items, after_value + 1)?;
    Ok((after_body, SwitchCase { value: Some(value), body }))
}

/// The default case.
#[verifier::opaque]
pub open spec fn default_case_at<'s>(items: Seq<TokenItem<'s>>, at: int) -> Parsed<SwitchCase<'s>>
    decreases grammar::left(items, at), 0nat,
{
    if grammar::has_terminal(items, at, TerminalToken::Default) {
        if grammar::has_terminal(items, at + 1, TerminalToken::Colon) {
            match grammar::kept(items, at + 2, case_body_from(items, at + 2, Seq::empty())) {
                Ok((after_body, body)) => {
                    Ok((after_body, SwitchCase { value: None, body }))
                },
                Err(error) => Err(error),
            }
        } else {
            grammar::missing(TerminalToken::Colon, at + 1)
        }
    } else {
        grammar::missing(TerminalToken::Default, at)
    }
}

/// Reads the default case.
pub(crate) fn default_case<'s>(items: &'s [TokenItem<'s>], at: usize) -> (found: Result<
    (usize, SwitchCase<'s>),
    ParseError,
>)
    requires
        at <= items.len(),
    ensures
        grammar::agrees(found, default_case_at(items@, at as int)),
        found matches Ok((next, _)) ==> at < next <= items.len(),
    decreases grammar::left(items@, at as int), 0nat,
{
    proof {
        reveal(default_case_at);
        reveal(case_body_from);
    }
    grammar::expect(items, at, TerminalToken::Default)?;
    grammar::expect(items, at + 1, TerminalToken::Colon)?;
    let (after_body, body) = case_body(items, at + 2)?;
    Ok((after_body, SwitchCase { value: None, body }))
}

/// A case.
#[verifier::opaque]
pub open spec fn case_at<'s>(items: Seq<TokenItem<'s>>, at: int) -> Parsed<SwitchCase<'s>>
    decreases grammar::left(items, at), 1nat,
{
    if grammar::has_terminal(items, at, TerminalToken::Default) {
        default_case_at(items, at)
    } else {
        value_case_at(items, at)
    }
}

/// Reads a case.
pub(crate) fn case<'s>(items: &'s [TokenItem<'s>], at: usize) -> (found: Result<
    (usize, SwitchCase<'s>),
    ParseError,
>)
    requires
        at <= items.len(),
    ensures
        grammar::agrees(found, case_at(items@, at as int)),
        found matches Ok((next, _)) ==> at < next <= items.len(),
    decreases grammar::left(items@, at as int), 1nat,
{
    proof {
        reveal(case_at);
        reveal(default_case_at);
        reveal(value_case_at);
    }
    if grammar::at_terminal(items, at, TerminalToken::Default) {
        default_case(items, at)
    } else {
        value_case(items, at)
    }
}

/// Statements up to the next case or `}`, behind those found before.
#[verifier::opaque]
pub open spec fn case_body_from<'s>(
    items: Seq<TokenItem<'s>>,
    at: int,
    found: Seq<Statement<'s>>,
) -> Parsed<List<Statement<'s>>>
    decreases grammar::left(items, at), 31nat,
{
    if grammar::has_terminal(items, at, TerminalToken::Case) || grammar::has_terminal(
        items,
        at,
        TerminalToken::Default,
    ) || grammar::has_terminal(items, at, TerminalToken::CloseBrace) {
        Ok((at, list::list_of(found)))
    } else if at >= items.len() {
        grammar::missing(TerminalToken::CloseBrace, at)
    } else {
        match grammar::took(items, at, statement::statement_at(items, at)) {
            Ok((next, statement)) => case_body_from(items, next, found.push(statement)),
            Err(error) => Err(error),
        }
    }
}

/// Reads statements up to the next case or `}`.
pub(crate) fn case_body<'s>(items: &'s [TokenItem<'s>], at: usize) -> (found: Result<
    (usize, List<Statement<'s>>),
    ParseError,
>)
    requires
        at <= items.len(),
    ensures
        grammar::agrees(found, case_body_from(items@, at as int, Seq::empty())),
        found matches Ok((next, _)) ==> at <= next <= items.len(),
    decreases grammar::left(items@, at as int), 31nat,
{
    let mut read: Vec<Statement<'s>> = Vec::new();
    let mut place: usize = at;
    loop
        invariant
            at <= place <= items.len(),
            case_body_from(items@, place as int, read@) == case_body_from(
                items@,
                at as int,
                Seq::empty(),
            ),
        decreases items.len() - place,
    {
        proof {
            reveal(case_body_from);
        }
        if grammar::at_terminal(items, place, TerminalToken::Case) || grammar::at_terminal(
            items,
            place,
            TerminalToken::Default,
        ) || grammar::at_terminal(items, place, TerminalToken::CloseBrace) {
            return Ok((place, List::from_vec(read)));
        }
        if place >= items.len() {
            return Err(grammar::missing_terminal(TerminalToken::CloseBrace, place));
        }
        let (next, item) = statement::statement(items, place)?;
        read.push(item);
        place = next;
    }
}

/// A statement with one that handles what it throws.
#[verifier::opaque]
pub open spec fn try_statement_at<'s>(
    items: Seq<TokenItem<'s>>,
    at: int,
) -> Parsed<StatementType<'s>>
    decreases grammar::left(items, at), 1nat,
{
    if grammar::has_terminal(items, at, TerminalToken::Try) {
        match grammar::took(items, at + 1, statement::statement_at(items, at + 1)) {
            Ok((after_body, body)) => {
                if grammar::has_terminal(items, after_body, TerminalToken::Catch) {
                    if grammar::has_terminal(items, after_body + 1, TerminalToken::OpenBracket) {
                        match name::identifier_at(items, after_body + 2) {
                            Ok((after_name, name)) => {
                                if grammar::has_terminal(
                                    items,
                                    after_name,
                                    TerminalToken::CloseBracket,
                                ) {
                                    match grammar::took(
                                        items,
                                        after_name + 1,
                                        statement::statement_at(items, after_name + 1),
                                    ) {
                                        Ok((after_handler, handler)) => {
                                            Ok(
                                                (
                                                    after_handler,
                                                    StatementType::TryCatch(
                                                        TryCatchStatement {
                                                            body: Box::new(body),
                                                            name,
                                                            handler: Box::new(handler),
                                                        },
                                                    ),
                                                ),
                                            )
                                        },
                                        Err(error) => Err(error),
                                    }
                                } else {
                                    grammar::missing(TerminalToken::CloseBracket, after_name)
                                }
                            },
                            Err(error) => Err(error),
                        }
                    } else {
                        grammar::missing(TerminalToken::OpenBracket, after_body + 1)
                    }
                } else {
                    grammar::missing(TerminalToken::Catch, after_body)
                }
            },
            Err(error) => Err(error),
        }
    } else {
        grammar::missing(TerminalToken::Try, at)
    }
}

/// Reads a statement with one that handles what it throws.
pub(crate) fn try_statement<'s>(items: &'s [TokenItem<'s>], at: usize) -> (found: Result<
    (usize, StatementType<'s>),
    ParseError,
>)
    requires
        at <= items.len(),
    ensures
        grammar::agrees(found, try_statement_at(items@, at as int)),
        found matches Ok((next, _)) ==> at < next <= items.len(),
    decreases grammar::left(items@, at as int), 1nat,
{
    proof {
        reveal(try_statement_at);
    }
    grammar::expect(items, at, TerminalToken::Try)?;
    let (after_body, body) = statement::statement(items, at + 1)?;
    grammar::expect(items, after_body, TerminalToken::Catch)?;
    grammar::expect(items, after_body + 1, TerminalToken::OpenBracket)?;
    let (after_name, name) = name::identifier(items, after_body + 2)?;
    grammar::expect(items, after_name, TerminalToken::CloseBracket)?;
    let (after_handler, handler) = statement::statement(items, after_name + 1)?;
    Ok(
        (
            after_handler,
            StatementType::TryCatch(
                TryCatchStatement { body: Box::new(body), name, handler: Box::new(handler) },
            ),
        ),
    )
}

/// A return from a function.
#[verifier::opaque]
pub open spec fn return_statement_at<'s>(
    items: Seq<TokenItem<'s>>,
    at: int,
) -> Parsed<StatementType<'s>>
    decreases grammar::left(items, at), 1nat,
{
    if grammar::has_terminal(items, at, TerminalToken::Return) {
        match grammar::kept(items, at + 1, value_at(items, at + 1)) {
            Ok((after_value, value)) => {
                Ok((after_value, StatementType::Return(value)))
            },
            Err(error) => Err(error),
        }
    } else {
        grammar::missing(TerminalToken::Return, at)
    }
}

/// Reads a return from a function.
pub(crate) fn return_statement<'s>(items: &'s [TokenItem<'s>], at: usize) -> (found: Result<
    (usize, StatementType<'s>),
    ParseError,
>)
    requires
        at <= items.len(),
    ensures
        grammar::agrees(found, return_statement_at(items@, at as int)),
        found matches Ok((next, _)) ==> at < next <= items.len(),
    decreases grammar::left(items@, at as int), 1nat,
{
    proof {
        reveal(return_statement_at);
        reveal(value_at);
    }
    grammar::expect(items, at, TerminalToken::Return)?;
    let (after_value, value) = value(items, at + 1)?;
    Ok((after_value, StatementType::Return(value)))
}

/// A return from a generator.
#[verifier::opaque]
pub open spec fn yield_statement_at<'s>(
    items: Seq<TokenItem<'s>>,
    at: int,
) -> Parsed<StatementType<'s>>
    decreases grammar::left(items, at), 1nat,
{
    if grammar::has_terminal(items, at, TerminalToken::Yield) {
        match grammar::kept(items, at + 1, value_at(items, at + 1)) {
            Ok((after_value, value)) => {
                Ok((after_value, StatementType::Yield(value)))
            },
            Err(error) => Err(error),
        }
    } else {
        grammar::missing(TerminalToken::Yield, at)
    }
}

/// Reads a return from a generator.
pub(crate) fn yield_statement<'s>(items: &'s [TokenItem<'s>], at: usize) -> (found: Result<
    (usize, StatementType<'s>),
    ParseError,
>)
    requires
        at <= items.len(),
    ensures
        grammar::agrees(found, yield_statement_at(items@, at as int)),
        found matches Ok((next, _)) ==> at < next <= items.len(),
    decreases grammar::left(items@, at as int), 1nat,
{
    proof {
        reveal(yield_statement_at);
        reveal(value_at);
    }
    grammar::expect(items, at, TerminalToken::Yield)?;
    let (after_value, value) = value(items, at + 1)?;
    Ok((after_value, StatementType::Yield(value)))
}

/// An expression on the same line, or nothing.
#[verifier::opaque]
pub open spec fn value_at<'s>(items: Seq<TokenItem<'s>>, at: int) -> Parsed<Option<Expression<'s>>>
    decreases grammar::left(items, at), 17nat,
{
    if at >= items.len() || !grammar::on_same_line(items, at)
        || grammar::has_terminal(items, at, TerminalToken::Semicolon)
        || grammar::has_terminal(items, at, TerminalToken::CloseBrace) {
        Ok((at, None))
    } else {
        match grammar::took(items, at, expression::expression_at(items, at)) {
            Ok((next, value)) => Ok((next, Some(value))),
            Err(error) => Err(error),
        }
    }
}

/// Reads an expression on the same line, or nothing.
pub(crate) fn value<'s>(items: &'s [TokenItem<'s>], at: usize) -> (found: Result<
    (usize, Option<Expression<'s>>),
    ParseError,
>)
    requires
        at <= items.len(),
    ensures
        grammar::agrees(found, value_at(items@, at as int)),
        found matches Ok((next, _)) ==> at <= next <= items.len(),
    decreases grammar::left(items@, at as int), 17nat,
{
    proof {
        reveal(value_at);
    }
    if at >= items.len() || !grammar::same_line(items, at)
        || grammar::at_terminal(items, at, TerminalToken::Semicolon)
        || grammar::at_terminal(items, at, TerminalToken::CloseBrace) {
        Ok((at, None))
    } else {
        let (next, value) = expression::expression(items, at)?;
        Ok((next, Some(value)))
    }
}

/// An exception.
#[verifier::opaque]
pub open spec fn throw_statement_at<'s>(
    items: Seq<TokenItem<'s>>,
    at: int,
) -> Parsed<StatementType<'s>>
    decreases grammar::left(items, at), 1nat,
{
    if grammar::has_terminal(items, at, TerminalToken::Throw) {
        match grammar::took(items, at + 1, expression::expression_at(items, at + 1)) {
            Ok((after_value, value)) => {
                Ok((after_value, StatementType::Throw(value)))
            },
            Err(error) => Err(error),
        }
    } else {
        grammar::missing(TerminalToken::Throw, at)
    }
}

/// Reads an exception.
pub(crate) fn throw_statement<'s>(items: &'s [TokenItem<'s>], at: usize) -> (found: Result<
    (usize, StatementType<'s>),
    ParseError,
>)
    requires
        at <= items.len(),
    ensures
        grammar::agrees(found, throw_statement_at(items@, at as int)),
        found matches Ok((next, _)) ==> at < next <= items.len(),
    decreases grammar::left(items@, at as int), 1nat,
{
    proof {
        reveal(throw_statement_at);
    }
    grammar::expect(items, at, TerminalToken::Throw)?;
    let (after_value, value) = expression::expression(items, at + 1)?;
    Ok((after_value, StatementType::Throw(value)))
}

/// A call that runs beside the caller.
#[verifier::opaque]
pub open spec fn thread_statement_at<'s>(
    items: Seq<TokenItem<'s>>,
    at: int,
) -> Parsed<StatementType<'s>>
    decreases grammar::left(items, at), 1nat,
{
    if grammar::has_terminal(items, at, TerminalToken::Thread) {
        match grammar::took(items, at + 1, expression::expression_at(items, at + 1)) {
            Ok((after_value, value)) => {
                Ok((after_value, StatementType::Thread(value)))
            },
            Err(error) => Err(error),
        }
    } else {
        grammar::missing(TerminalToken::Thread, at)
    }
}

/// Reads a call that runs beside the caller.
pub(crate) fn thread_statement<'s>(items: &'s [TokenItem<'s>], at: usize) -> (found: Result<
    (usize, StatementType<'s>),
    ParseError,
>)
    requires
        at <= items.len(),
    ensures
        grammar::agrees(found, thread_statement_at(items@, at as int)),
        found matches Ok((next, _)) ==> at < next <= items.len(),
    decreases grammar::left(items@, at as int), 1nat,
{
    proof {
        reveal(thread_statement_at);
    }
    grammar::expect(items, at, TerminalToken::Thread)?;
    let (after_value, value) = expression::expression(items, at + 1)?;
    Ok((after_value, StatementType::Thread(value)))
}

/// A call on a thread of its own that the caller waits for.
#[verifier::opaque]
pub open spec fn wait_thread_statement_at<'s>(
    items: Seq<TokenItem<'s>>,
    at: int,
) -> Parsed<StatementType<'s>>
    decreases grammar::left(items, at), 1nat,
{
    if grammar::has_terminal(items, at, TerminalToken::WaitThread) {
        match grammar::took(items, at + 1, expression::expression_at(items, at + 1)) {
            Ok((after_value, value)) => {
                Ok((after_value, StatementType::WaitThread(value)))
            },
            Err(error) => Err(error),
        }
    } else {
        grammar::missing(TerminalToken::WaitThread, at)
    }
}

/// Reads a call on a thread of its own that the caller waits for.
pub(crate) fn wait_thread_statement<'s>(items: &'s [TokenItem<'s>], at: usize) -> (found: Result<
    (usize, StatementType<'s>),
    ParseError,
>)
    requires
        at <= items.len(),
    ensures
        grammar::agrees(found, wait_thread_statement_at(items@, at as int)),
        found matches Ok((next, _)) ==> at < next <= items.len(),
    decreases grammar::left(items@, at as int), 1nat,
{
    proof {
        reveal(wait_thread_statement_at);
    }
    grammar::expect(items, at, TerminalToken::WaitThread)?;
    let (after_value, value) = expression::expression(items, at + 1)?;
    Ok((after_value, StatementType::WaitThread(value)))
}

/// A call on a thread of its own that the caller alone waits for.
#[verifier::opaque]
pub open spec fn wait_thread_solo_statement_at<'s>(
    items: Seq<TokenItem<'s>>,
    at: int,
) -> Parsed<StatementType<'s>>
    decreases grammar::left(items, at), 1nat,
{
    if grammar::has_terminal(items, at, TerminalToken::WaitThreadSolo) {
        match grammar::took(items, at + 1, expression::expression_at(items, at + 1)) {
            Ok((after_value, value)) => {
                Ok((after_value, StatementType::WaitThreadSolo(value)))
            },
            Err(error) => Err(error),
        }
    } else {
        grammar::missing(TerminalToken::WaitThreadSolo, at)
    }
}

/// Reads a call on a thread of its own that the caller alone waits for.
pub(crate) fn wait_thread_solo_statement<'s>(
    items: &'s [TokenItem<'s>],
    at: usize,
) -> (found: Result<(usize, StatementType<'s>), ParseError>)
    requires
        at <= items.len(),
    ensures
        grammar::agrees(found, wait_thread_solo_statement_at(items@, at as int)),
        found matches Ok((next, _)) ==> at < next <= items.len(),
    decreases grammar::left(items@, at as int), 1nat,
{
    proof {
        reveal(wait_thread_solo_statement_at);
    }
    grammar::expect(items, at, TerminalToken::WaitThreadSolo)?;
    let (after_value, value) = expression::expression(items, at + 1)?;
    Ok((after_value, StatementType::WaitThreadSolo(value)))
}

/// A pause.
#[verifier::opaque]
pub open spec fn wait_statement_at<'s>(
    items: Seq<TokenItem<'s>>,
    at: int,
) -> Parsed<StatementType<'s>>
    decreases grammar::left(items, at), 1nat,
{
    if grammar::has_terminal(items, at, TerminalToken::Wait) {
        match grammar::took(items, at + 1, expression::expression_at(items, at + 1)) {
            Ok((after_value, value)) => {
                Ok((after_value, StatementType::Wait(value)))
            },
            Err(error) => Err(error),
        }
    } else {
        grammar::missing(TerminalToken::Wait, at)
    }
}

/// Reads a pause.
pub(crate) fn wait_statement<'s>(items: &'s [TokenItem<'s>], at: usize) -> (found: Result<
    (usize, StatementType<'s>),
    ParseError,
>)
    requires
        at <= items.len(),
    ensures
        grammar::agrees(found, wait_statement_at(items@, at as int)),
        found matches Ok((next, _)) ==> at < next <= items.len(),
    decreases grammar::left(items@, at as int), 1nat,
{
    proof {
        reveal(wait_statement_at);
    }
    grammar::expect(items, at, TerminalToken::Wait)?;
    let (after_value, value) = expression::expression(items, at + 1)?;
    Ok((after_value, StatementType::Wait(value)))
}

/// A call that starts later.
#[verifier::opaque]
pub open spec fn delay_thread_statement_at<'s>(
    items: Seq<TokenItem<'s>>,
    at: int,
) -> Parsed<StatementType<'s>>
    decreases grammar::left(items, at), 1nat,
{
    if grammar::has_terminal(items, at, TerminalToken::DelayThread) {
        if grammar::has_terminal(items, at + 1, TerminalToken::OpenBracket) {
            match grammar::took(items, at + 2, expression::expression_at(items, at + 2)) {
                Ok((after_duration, duration)) => {
                    if grammar::has_terminal(items, after_duration, TerminalToken::CloseBracket) {
                        match grammar::took(
                            items,
                            after_duration + 1,
                            expression::expression_at(items, after_duration + 1),
                        ) {
                            Ok((after_value, value)) => {
                                Ok(
                                    (
                                        after_value,
                                        StatementType::DelayThread(
                                            DelayThreadStatement { duration, value },
                                        ),
                                    ),
                                )
                            },
                            Err(error) => Err(error),
                        }
                    } else {
                        grammar::missing(TerminalToken::CloseBracket, after_duration)
                    }
                },
                Err(error) => Err(error),
            }
        } else {
            grammar::missing(TerminalToken::OpenBracket, at + 1)
        }
    } else {
        grammar::missing(TerminalToken::DelayThread, at)
    }
}

/// Reads a call that starts later.
pub(crate) fn delay_thread_statement<'s>(items: &'s [TokenItem<'s>], at: usize) -> (found: Result<
    (usize, StatementType<'s>),
    ParseError,
>)
    requires
        at <= items.len(),
    ensures
        grammar::agrees(found, delay_thread_statement_at(items@, at as int)),
        found matches Ok((next, _)) ==> at < next <= items.len(),
    decreases grammar::left(items@, at as int), 1nat,
{
    proof {
        reveal(delay_thread_statement_at);
    }
    grammar::expect(items, at, TerminalToken::DelayThread)?;
    grammar::expect(items, at + 1, TerminalToken::OpenBracket)?;
    let (after_duration, duration) = expression::expression(items, at + 2)?;
    grammar::expect(items, after_duration, TerminalToken::CloseBracket)?;
    let (after_value, value) = expression::expression(items, after_duration + 1)?;
    Ok((after_value, StatementType::DelayThread(DelayThreadStatement { duration, value })))
}

} // verus!
