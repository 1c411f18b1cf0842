use crate::ast::{
    DelayThreadStatement, Expression, ForInitializer, ForStatement, ForeachStatement, Identifier,
    IfStatement, Statement, StatementType, SwitchCase, SwitchStatement, TryCatchStatement, Type,
    TypedName, VarDefinition, Variable, WhileStatement,
};
use crate::lexer::TokenItem;
use crate::list;
use crate::list::List;
use crate::parser::grammar::Parsed;
use crate::parser::parts::read;
use crate::parser::{control, expression, grammar, name, spelling, statement, type_, variable};
use crate::token::TerminalToken;
use vstd::prelude::*;

verus! {

/// A choice between two statements.
/// It is read if and only if its parts are, one behind the other. The first part that is not there
/// is what is wrong.
pub proof fn law_if_statement_is_read_by_its_parts<'s>(
    items: Seq<TokenItem<'s>>,
    at: int,
    next: int,
    condition: Expression<'s>,
    body: Statement<'s>,
    else_body: Option<Box<Statement<'s>>>,
)
    requires
        0 <= at <= items.len() <= usize::MAX,
    ensures
        ({
            let parsed = control::if_statement_at(items, at);
            let tree = StatementType::If(
                IfStatement { condition, body: Box::new(body), else_body },
            );
            let place1 = spelling::behind(items, Some(at), TerminalToken::If);
            let place2 = spelling::behind(items, place1, TerminalToken::OpenBracket);
            let place3 = read::expression(condition, items, place2);
            let place4 = spelling::behind(items, place3, TerminalToken::CloseBracket);
            let place5 = read::statement(body, items, place4);
            let place6 = read::else_body(else_body, items, place5);
            &&& parsed == Parsed::Ok((next, tree)) <==> place6 == Some(next)
            &&& read::needs(items, Some(at), TerminalToken::If, parsed)
            &&& read::needs(items, place1, TerminalToken::OpenBracket, parsed)
            &&& place2 is Some ==> read::passes_on(
                expression::expression_at(items, place2->0),
                parsed,
            )
            &&& read::needs(items, place3, TerminalToken::CloseBracket, parsed)
            &&& place4 is Some ==> read::passes_on(
                statement::statement_at(items, place4->0),
                parsed,
            )
            &&& place5 is Some ==> read::passes_on(control::else_body_at(items, place5->0), parsed)
        }),
{
    reveal(control::if_statement_at);
    reveal(control::else_body_at);
    if spelling::is_at(items, at, TerminalToken::If)
        && spelling::is_at(items, at + 1, TerminalToken::OpenBracket) {
        spelling::expression::lemma_expression(items, at + 2);
        if let Ok((after_condition, _)) = expression::expression_at(items, at + 2) {
            if spelling::is_at(items, after_condition, TerminalToken::CloseBracket) {
                spelling::statement::lemma_statement(items, after_condition + 1);
                if let Ok((after_body, _)) = statement::statement_at(items, after_condition + 1) {
                    spelling::control::lemma_else_body(items, after_body);
                }
            }
        }
    }
}

/// The other statement of a choice is read if and only if it stands behind `else`, and none is read
/// if and only if no `else` stands there.
pub proof fn law_else_body_is_read_by_its_parts<'s>(
    items: Seq<TokenItem<'s>>,
    at: int,
    next: int,
    tree: Option<Box<Statement<'s>>>,
)
    requires
        0 <= at <= items.len() <= usize::MAX,
    ensures
        control::else_body_at(items, at) == Parsed::Ok((next, tree)) <==> (match tree {
            Some(body) => read::statement(
                *body,
                items,
                spelling::behind(items, Some(at), TerminalToken::Else),
            ),
            None => spelling::without(items, Some(at), TerminalToken::Else),
        }) == Some(next),
        spelling::is_at(items, at, TerminalToken::Else) ==> read::passes_on(
            statement::statement_at(items, at + 1),
            control::else_body_at(items, at),
        ),
{
    reveal(control::else_body_at);
    if spelling::is_at(items, at, TerminalToken::Else) {
        spelling::statement::lemma_statement(items, at + 1);
    }
}

/// A loop with its condition before the body.
/// It is read if and only if its parts are, one behind the other. The first part that is not there
/// is what is wrong.
pub proof fn law_while_statement_is_read_by_its_parts<'s>(
    items: Seq<TokenItem<'s>>,
    at: int,
    next: int,
    condition: Expression<'s>,
    body: Statement<'s>,
)
    requires
        0 <= at <= items.len() <= usize::MAX,
    ensures
        ({
            let parsed = control::while_statement_at(items, at);
            let tree = StatementType::While(WhileStatement { condition, body: Box::new(body) });
            let place1 = spelling::behind(items, Some(at), TerminalToken::While);
            let place2 = spelling::behind(items, place1, TerminalToken::OpenBracket);
            let place3 = read::expression(condition, items, place2);
            let place4 = spelling::behind(items, place3, TerminalToken::CloseBracket);
            let place5 = read::statement(body, items, place4);
            &&& parsed == Parsed::Ok((next, tree)) <==> place5 == Some(next)
            &&& read::needs(items, Some(at), TerminalToken::While, parsed)
            &&& read::needs(items, place1, TerminalToken::OpenBracket, parsed)
            &&& place2 is Some ==> read::passes_on(
                expression::expression_at(items, place2->0),
                parsed,
            )
            &&& read::needs(items, place3, TerminalToken::CloseBracket, parsed)
            &&& place4 is Some ==> read::passes_on(
                statement::statement_at(items, place4->0),
                parsed,
            )
        }),
{
    reveal(control::while_statement_at);
    if spelling::is_at(items, at, TerminalToken::While)
        && spelling::is_at(items, at + 1, TerminalToken::OpenBracket) {
        spelling::expression::lemma_expression(items, at + 2);
        if let Ok((after_condition, _)) = expression::expression_at(items, at + 2) {
            if spelling::is_at(items, after_condition, TerminalToken::CloseBracket) {
                spelling::statement::lemma_statement(items, after_condition + 1);
            }
        }
    }
}

/// A loop with its condition behind the body.
/// It is read if and only if its parts are, one behind the other. The first part that is not there
/// is what is wrong.
pub proof fn law_do_statement_is_read_by_its_parts<'s>(
    items: Seq<TokenItem<'s>>,
    at: int,
    next: int,
    body: Statement<'s>,
    condition: Expression<'s>,
)
    requires
        0 <= at <= items.len() <= usize::MAX,
    ensures
        ({
            let parsed = control::do_statement_at(items, at);
            let tree = StatementType::DoWhile(WhileStatement { condition, body: Box::new(body) });
            let place1 = spelling::behind(items, Some(at), TerminalToken::Do);
            let place2 = read::statement(body, items, place1);
            let place3 = spelling::behind(items, place2, TerminalToken::While);
            let place4 = spelling::behind(items, place3, TerminalToken::OpenBracket);
            let place5 = read::expression(condition, items, place4);
            let place6 = spelling::behind(items, place5, TerminalToken::CloseBracket);
            &&& parsed == Parsed::Ok((next, tree)) <==> place6 == Some(next)
            &&& read::needs(items, Some(at), TerminalToken::Do, parsed)
            &&& place1 is Some ==> read::passes_on(
                statement::statement_at(items, place1->0),
                parsed,
            )
            &&& read::needs(items, place2, TerminalToken::While, parsed)
            &&& read::needs(items, place3, TerminalToken::OpenBracket, parsed)
            &&& place4 is Some ==> read::passes_on(
                expression::expression_at(items, place4->0),
                parsed,
            )
            &&& read::needs(items, place5, TerminalToken::CloseBracket, parsed)
        }),
{
    reveal(control::do_statement_at);
    if spelling::is_at(items, at, TerminalToken::Do) {
        spelling::statement::lemma_statement(items, at + 1);
        if let Ok((after_body, _)) = statement::statement_at(items, at + 1) {
            if spelling::is_at(items, after_body, TerminalToken::While)
                && spelling::is_at(items, after_body + 1, TerminalToken::OpenBracket) {
                spelling::expression::lemma_expression(items, after_body + 2);
            }
        }
    }
}

/// A loop with a first step, a condition and a step.
/// It is read if and only if its parts are, one behind the other. The first part that is not there
/// is what is wrong.
pub proof fn law_for_statement_is_read_by_its_parts<'s>(
    items: Seq<TokenItem<'s>>,
    at: int,
    next: int,
    initializer: Option<ForInitializer<'s>>,
    condition: Option<Expression<'s>>,
    increment: Option<Expression<'s>>,
    body: Statement<'s>,
)
    requires
        0 <= at <= items.len() <= usize::MAX,
    ensures
        ({
            let parsed = control::for_statement_at(items, at);
            let tree = StatementType::For(
                ForStatement { initializer, condition, increment, body: Box::new(body) },
            );
            let place1 = spelling::behind(items, Some(at), TerminalToken::For);
            let place2 = spelling::behind(items, place1, TerminalToken::OpenBracket);
            let place3 = read::for_initializer(initializer, items, place2);
            let place4 = spelling::behind(items, place3, TerminalToken::Semicolon);
            let place5 = read::for_condition(condition, items, place4);
            let place6 = spelling::behind(items, place5, TerminalToken::Semicolon);
            let place7 = read::for_increment(increment, items, place6);
            let place8 = spelling::behind(items, place7, TerminalToken::CloseBracket);
            let place9 = read::statement(body, items, place8);
            &&& parsed == Parsed::Ok((next, tree)) <==> place9 == Some(next)
            &&& read::needs(items, Some(at), TerminalToken::For, parsed)
            &&& read::needs(items, place1, TerminalToken::OpenBracket, parsed)
            &&& place2 is Some ==> read::passes_on(
                control::for_initializer_at(items, place2->0),
                parsed,
            )
            &&& read::needs(items, place3, TerminalToken::Semicolon, parsed)
            &&& place4 is Some ==> read::passes_on(
                control::for_condition_at(items, place4->0),
                parsed,
            )
            &&& read::needs(items, place5, TerminalToken::Semicolon, parsed)
            &&& place6 is Some ==> read::passes_on(
                control::for_increment_at(items, place6->0),
                parsed,
            )
            &&& read::needs(items, place7, TerminalToken::CloseBracket, parsed)
            &&& place8 is Some ==> read::passes_on(
                statement::statement_at(items, place8->0),
                parsed,
            )
        }),
{
    reveal(control::for_statement_at);
    reveal(control::for_initializer_at);
    reveal(control::for_condition_at);
    reveal(control::for_increment_at);
    if spelling::is_at(items, at, TerminalToken::For)
        && spelling::is_at(items, at + 1, TerminalToken::OpenBracket) {
        spelling::control::lemma_for_initializer(items, at + 2);
        if let Ok((after_initializer, _)) = control::for_initializer_at(items, at + 2) {
            if spelling::is_at(items, after_initializer, TerminalToken::Semicolon) {
                spelling::control::lemma_for_condition(items, after_initializer + 1);
                if let Ok(
                    (after_condition, _),
                ) = control::for_condition_at(items, after_initializer + 1) {
                    if spelling::is_at(items, after_condition, TerminalToken::Semicolon) {
                        spelling::control::lemma_for_increment(items, after_condition + 1);
                        if let Ok(
                            (after_increment, _),
                        ) = control::for_increment_at(items, after_condition + 1) {
                            if spelling::is_at(
                                items,
                                after_increment,
                                TerminalToken::CloseBracket,
                            ) {
                                spelling::statement::lemma_statement(items, after_increment + 1);
                            }
                        }
                    }
                }
            }
        }
    }
}

/// The first step of a loop is a definition if and only if it starts with `local`, or with a type
/// that has a name behind it. Otherwise it is an expression, or left out.
pub proof fn law_for_initializer_is_read_by_its_parts<'s>(
    items: Seq<TokenItem<'s>>,
    at: int,
    next: int,
    after_ty: int,
    ty: Type<'s>,
    variables: List<Variable<'s>>,
    value: Expression<'s>,
)
    requires
        0 <= at <= items.len() <= usize::MAX,
    ensures
        spelling::is_at(items, at, TerminalToken::Semicolon)
            ==> control::for_initializer_at(items, at) == Parsed::Ok(
            (at, None::<ForInitializer>),
        ),
        spelling::is_at(items, at, TerminalToken::Local)
            ==> (control::for_initializer_at(items, at) == Parsed::Ok(
            (next, Some(ForInitializer::Definition(VarDefinition { ty: None, variables }))),
        ) <==> read::variables(variables, items, Some(at + 1)) == Some(next)),
        !spelling::is_at(items, at, TerminalToken::Semicolon)
            && !spelling::is_at(items, at, TerminalToken::Local)
            && type_::type__at(items, at) == Parsed::Ok((after_ty, ty)) && grammar::has_name(
            items,
            after_ty,
        ) ==> (control::for_initializer_at(items, at) == Parsed::Ok(
            (next, Some(ForInitializer::Definition(VarDefinition { ty: Some(ty), variables }))),
        ) <==> read::variables(variables, items, Some(after_ty)) == Some(next)),
        !spelling::is_at(items, at, TerminalToken::Semicolon)
            && !spelling::is_at(items, at, TerminalToken::Local)
            && (type_::type__at(items, at) matches Ok((n, _)) ==> !grammar::has_name(items, n))
            ==> (control::for_initializer_at(items, at) == Parsed::Ok(
            (next, Some(ForInitializer::Expression(value))),
        ) <==> read::expression(value, items, Some(at)) == Some(next)),
        spelling::is_at(items, at, TerminalToken::Local) ==> read::passes_on(
            variable::variables_from(items, at + 1, Seq::empty()),
            control::for_initializer_at(items, at),
        ),
        !spelling::is_at(items, at, TerminalToken::Semicolon)
            && !spelling::is_at(items, at, TerminalToken::Local)
            && type_::type__at(items, at) == Parsed::Ok((after_ty, ty)) && grammar::has_name(
            items,
            after_ty,
        ) ==> read::passes_on(
            variable::variables_from(items, after_ty, Seq::empty()),
            control::for_initializer_at(items, at),
        ),
        !spelling::is_at(items, at, TerminalToken::Semicolon)
            && !spelling::is_at(items, at, TerminalToken::Local)
            && (type_::type__at(items, at) matches Ok((n, _)) ==> !grammar::has_name(items, n))
            ==> read::passes_on(
            expression::expression_at(items, at),
            control::for_initializer_at(items, at),
        ),
{
    reveal(control::for_initializer_at);
    reveal(control::for_expression_at);
    if spelling::is_at(items, at, TerminalToken::Local) {
        let _ = spelling::variable::lemma_variables(items, at + 1, Seq::empty());
    }
    spelling::type_::lemma_type(items, at);
    spelling::expression::lemma_expression(items, at);
    if let Ok((n, _)) = type_::type__at(items, at) {
        let _ = spelling::variable::lemma_variables(items, n, Seq::empty());
    }
}

/// The first step of a loop that is an expression.
/// It is read if and only if its parts are, one behind the other. The first part that is not there
/// is what is wrong.
pub proof fn law_for_expression_is_read_by_its_parts<'s>(
    items: Seq<TokenItem<'s>>,
    at: int,
    next: int,
    value: Expression<'s>,
)
    requires
        0 <= at <= items.len() <= usize::MAX,
    ensures
        ({
            let parsed = control::for_expression_at(items, at);
            let tree = Some(ForInitializer::Expression(value));
            let place1 = read::expression(value, items, Some(at));
            &&& parsed == Parsed::Ok((next, tree)) <==> place1 == Some(next)
            &&& read::passes_on(expression::expression_at(items, at), parsed)
        }),
{
    reveal(control::for_expression_at);
    spelling::expression::lemma_expression(items, at);
}

/// A part of the head of a loop is read if and only if it does not end before it.
pub proof fn law_for_condition_is_read_by_its_parts<'s>(
    items: Seq<TokenItem<'s>>,
    at: int,
    next: int,
    tree: Option<Expression<'s>>,
)
    requires
        0 <= at <= items.len() <= usize::MAX,
    ensures
        control::for_condition_at(items, at) == Parsed::Ok((next, tree)) <==> (match tree {
            Some(value) => read::expression(
                value,
                items,
                spelling::without(items, Some(at), TerminalToken::Semicolon),
            ),
            None => if spelling::is_at(items, at, TerminalToken::Semicolon) {
                Some(at)
            } else {
                None
            },
        }) == Some(next),
        !spelling::is_at(items, at, TerminalToken::Semicolon) ==> read::passes_on(
            expression::expression_at(items, at),
            control::for_condition_at(items, at),
        ),
{
    reveal(control::for_condition_at);
    spelling::expression::lemma_expression(items, at);
}

/// A part of the head of a loop is read if and only if it does not end before it.
pub proof fn law_for_increment_is_read_by_its_parts<'s>(
    items: Seq<TokenItem<'s>>,
    at: int,
    next: int,
    tree: Option<Expression<'s>>,
)
    requires
        0 <= at <= items.len() <= usize::MAX,
    ensures
        control::for_increment_at(items, at) == Parsed::Ok((next, tree)) <==> (match tree {
            Some(value) => read::expression(
                value,
                items,
                spelling::without(items, Some(at), TerminalToken::CloseBracket),
            ),
            None => if spelling::is_at(items, at, TerminalToken::CloseBracket) {
                Some(at)
            } else {
                None
            },
        }) == Some(next),
        !spelling::is_at(items, at, TerminalToken::CloseBracket) ==> read::passes_on(
            expression::expression_at(items, at),
            control::for_increment_at(items, at),
        ),
{
    reveal(control::for_increment_at);
    spelling::expression::lemma_expression(items, at);
}

/// A loop over the items of a value.
/// It is read if and only if its parts are, one behind the other. The first part that is not there
/// is what is wrong.
pub proof fn law_foreach_statement_is_read_by_its_parts<'s>(
    items: Seq<TokenItem<'s>>,
    at: int,
    next: int,
    names: (Option<TypedName<'s>>, TypedName<'s>),
    array: Expression<'s>,
    body: Statement<'s>,
)
    requires
        0 <= at <= items.len() <= usize::MAX,
    ensures
        ({
            let parsed = control::foreach_statement_at(items, at);
            let tree = StatementType::Foreach(
                ForeachStatement { index: names.0, value: names.1, array, body: Box::new(body) },
            );
            let place1 = spelling::behind(items, Some(at), TerminalToken::Foreach);
            let place2 = spelling::behind(items, place1, TerminalToken::OpenBracket);
            let place3 = read::foreach_names(names, items, place2);
            let place4 = spelling::behind(items, place3, TerminalToken::In);
            let place5 = read::expression(array, items, place4);
            let place6 = spelling::behind(items, place5, TerminalToken::CloseBracket);
            let place7 = read::statement(body, items, place6);
            &&& parsed == Parsed::Ok((next, tree)) <==> place7 == Some(next)
            &&& read::needs(items, Some(at), TerminalToken::Foreach, parsed)
            &&& read::needs(items, place1, TerminalToken::OpenBracket, parsed)
            &&& place2 is Some ==> read::passes_on(
                control::foreach_names_at(items, place2->0),
                parsed,
            )
            &&& read::needs(items, place3, TerminalToken::In, parsed)
            &&& place4 is Some ==> read::passes_on(
                expression::expression_at(items, place4->0),
                parsed,
            )
            &&& read::needs(items, place5, TerminalToken::CloseBracket, parsed)
            &&& place6 is Some ==> read::passes_on(
                statement::statement_at(items, place6->0),
                parsed,
            )
        }),
{
    reveal(control::foreach_statement_at);
    reveal(control::foreach_names_at);
    if spelling::is_at(items, at, TerminalToken::Foreach)
        && spelling::is_at(items, at + 1, TerminalToken::OpenBracket) {
        spelling::control::lemma_foreach_names(items, at + 2);
        if let Ok((after_names, _)) = control::foreach_names_at(items, at + 2) {
            if spelling::is_at(items, after_names, TerminalToken::In) {
                spelling::expression::lemma_expression(items, after_names + 1);
                if let Ok((after_array, _)) = expression::expression_at(items, after_names + 1) {
                    if spelling::is_at(items, after_array, TerminalToken::CloseBracket) {
                        spelling::statement::lemma_statement(items, after_array + 1);
                    }
                }
            }
        }
    }
}

/// The variables of a loop over items are one name, or two with a comma between them.
pub proof fn law_foreach_names_are_read_by_their_parts<'s>(
    items: Seq<TokenItem<'s>>,
    at: int,
    next: int,
    index: TypedName<'s>,
    value: TypedName<'s>,
)
    requires
        0 <= at <= items.len() <= usize::MAX,
    ensures
        control::foreach_names_at(items, at) == Parsed::Ok(
            (next, (None::<TypedName>, value)),
        ) <==> spelling::without(
            items,
            read::typed_name(value, items, Some(at)),
            TerminalToken::Comma,
        ) == Some(next),
        control::foreach_names_at(items, at) == Parsed::Ok(
            (next, (Some(index), value)),
        ) <==> read::typed_name(
            value,
            items,
            spelling::behind(items, read::typed_name(index, items, Some(at)), TerminalToken::Comma),
        ) == Some(next),
        read::passes_on(type_::typed_name_at(items, at), control::foreach_names_at(items, at)),
        type_::typed_name_at(items, at) matches Ok((n, _))
            ==> spelling::is_at(items, n, TerminalToken::Comma) ==> read::passes_on(
            type_::typed_name_at(items, n + 1),
            control::foreach_names_at(items, at),
        ),
{
    reveal(control::foreach_names_at);
    spelling::type_::lemma_typed_name(items, at);
    if let Ok((n, _)) = type_::typed_name_at(items, at) {
        if spelling::is_at(items, n, TerminalToken::Comma) {
            spelling::type_::lemma_typed_name(items, n + 1);
        }
    }
}

/// A choice between cases.
/// It is read if and only if its parts are, one behind the other. The first part that is not there
/// is what is wrong.
pub proof fn law_switch_statement_is_read_by_its_parts<'s>(
    items: Seq<TokenItem<'s>>,
    at: int,
    next: int,
    value: Expression<'s>,
    cases: List<SwitchCase<'s>>,
)
    requires
        0 <= at <= items.len() <= usize::MAX,
    ensures
        ({
            let parsed = control::switch_statement_at(items, at);
            let tree = StatementType::Switch(SwitchStatement { value, cases });
            let place1 = spelling::behind(items, Some(at), TerminalToken::Switch);
            let place2 = spelling::behind(items, place1, TerminalToken::OpenBracket);
            let place3 = read::expression(value, items, place2);
            let place4 = spelling::behind(items, place3, TerminalToken::CloseBracket);
            let place5 = spelling::behind(items, place4, TerminalToken::OpenBrace);
            let place6 = read::cases(cases, items, place5);
            &&& parsed == Parsed::Ok((next, tree)) <==> place6 == Some(next)
            &&& read::needs(items, Some(at), TerminalToken::Switch, parsed)
            &&& read::needs(items, place1, TerminalToken::OpenBracket, parsed)
            &&& place2 is Some ==> read::passes_on(
                expression::expression_at(items, place2->0),
                parsed,
            )
            &&& read::needs(items, place3, TerminalToken::CloseBracket, parsed)
            &&& read::needs(items, place4, TerminalToken::OpenBrace, parsed)
            &&& place5 is Some ==> read::passes_on(
                control::cases_from(items, place5->0, Seq::empty()),
                parsed,
            )
        }),
{
    reveal(control::switch_statement_at);
    reveal(control::cases_from);
    if spelling::is_at(items, at, TerminalToken::Switch)
        && spelling::is_at(items, at + 1, TerminalToken::OpenBracket) {
        spelling::expression::lemma_expression(items, at + 2);
        if let Ok((after_value, _)) = expression::expression_at(items, at + 2) {
            if spelling::is_at(items, after_value, TerminalToken::CloseBracket)
                && spelling::is_at(items, after_value + 1, TerminalToken::OpenBrace) {
                let _ = spelling::control::lemma_cases(items, after_value + 2, Seq::empty());
            }
        }
    }
}

/// The place behind cases and the mark that ends them.
/// They stand one behind the other.
pub open spec fn chain_cases<'s>(
    tree: List<SwitchCase<'s>>,
    items: Seq<TokenItem<'s>>,
    at: int,
) -> Option<int>
    decreases tree,
{
    match tree {
        List::Empty => spelling::behind(items, Some(at), TerminalToken::CloseBrace),
        List::Item(first, rest) => {
            if spelling::is_at(items, at, TerminalToken::CloseBrace) {
                None
            } else {
                match read::case(*first, items, Some(at)) {
                    Some(end) => chain_cases(*rest, items, end),
                    None => None,
                }
            }
        },
    }
}

proof fn lemma_cases<'s>(
    items: Seq<TokenItem<'s>>,
    at: int,
    next: int,
    found: Seq<SwitchCase<'s>>,
    tree: List<SwitchCase<'s>>,
)
    requires
        0 <= at <= items.len() <= usize::MAX,
        chain_cases(tree, items, at) == Some(next),
    ensures
        control::cases_from(items, at, found) == Parsed::Ok(
            (next, list::list_of(found + tree.items())),
        ),
    decreases tree,
{
    reveal(control::cases_from);
    reveal(control::case_at);
    match tree {
        List::Empty => {
            assert(found + tree.items() =~= found);
        },
        List::Item(first, rest) => {
            spelling::control::lemma_case(items, at);
            assert(found.push(*first) + rest.items() =~= found + tree.items());
            if let Ok((n, _)) = control::case_at(items, at) {
                lemma_cases(items, n, next, found.push(*first), *rest);
            }
        },
    }
}

/// A list is read if its items are, one behind the other, up to the mark that ends it.
pub proof fn law_cases_are_read_by_their_items<'s>(
    items: Seq<TokenItem<'s>>,
    at: int,
    next: int,
    tree: List<SwitchCase<'s>>,
)
    requires
        0 <= at <= items.len() <= usize::MAX,
        chain_cases(tree, items, at) == Some(next),
    ensures
        control::cases_from(items, at, Seq::empty()) == Parsed::Ok((next, tree)),
{
    lemma_cases(items, at, next, Seq::empty(), tree);
    assert(Seq::empty() + tree.items() =~= tree.items());
    list::lemma_list_of_items(tree);
}

/// A list fails as its first item that cannot be read does, and where the mark that ends it is not
/// there.
pub proof fn law_cases_fail_with_their_first_item<'s>(
    items: Seq<TokenItem<'s>>,
    at: int,
    found: Seq<SwitchCase<'s>>,
)
    requires
        0 <= at <= items.len() <= usize::MAX,
    ensures
        ({
            let parsed = control::cases_from(items, at, found);
            let read_more = at < items.len()
                && !spelling::is_at(items, at, TerminalToken::CloseBrace);
            &&& at == items.len() ==> read::needs(
                items,
                Some(at),
                TerminalToken::CloseBrace,
                parsed,
            )
            &&& read_more ==> read::passes_on(control::case_at(items, at), parsed)
            &&& read_more ==> (
                control::case_at(items, at) matches Ok((end, item))
                    ==> parsed == control::cases_from(
                    items,
                    end,
                    found.push(item),
                )
            )
        }),
{
    reveal(control::cases_from);
    reveal(control::case_at);
    spelling::control::lemma_case(items, at);
}

/// A case with a value.
/// It is read if and only if its parts are, one behind the other. The first part that is not there
/// is what is wrong.
pub proof fn law_value_case_is_read_by_its_parts<'s>(
    items: Seq<TokenItem<'s>>,
    at: int,
    next: int,
    value: Expression<'s>,
    body: List<Statement<'s>>,
)
    requires
        0 <= at <= items.len() <= usize::MAX,
    ensures
        ({
            let parsed = control::value_case_at(items, at);
            let tree = SwitchCase { value: Some(value), body };
            let place1 = spelling::behind(items, Some(at), TerminalToken::Case);
            let place2 = read::expression(value, items, place1);
            let place3 = spelling::behind(items, place2, TerminalToken::Colon);
            let place4 = read::case_body(body, items, place3);
            &&& parsed == Parsed::Ok((next, tree)) <==> place4 == Some(next)
            &&& read::needs(items, Some(at), TerminalToken::Case, parsed)
            &&& place1 is Some ==> read::passes_on(
                expression::expression_at(items, place1->0),
                parsed,
            )
            &&& read::needs(items, place2, TerminalToken::Colon, parsed)
            &&& place3 is Some ==> read::passes_on(
                control::case_body_from(items, place3->0, Seq::empty()),
                parsed,
            )
        }),
{
    reveal(control::value_case_at);
    reveal(control::case_body_from);
    if spelling::is_at(items, at, TerminalToken::Case) {
        spelling::expression::lemma_expression(items, at + 1);
        if let Ok((after_value, _)) = expression::expression_at(items, at + 1) {
            if spelling::is_at(items, after_value, TerminalToken::Colon) {
                let _ = spelling::control::lemma_case_body(items, after_value + 1, Seq::empty());
            }
        }
    }
}

/// The default case.
/// It is read if and only if its parts are, one behind the other. The first part that is not there
/// is what is wrong.
pub proof fn law_default_case_is_read_by_its_parts<'s>(
    items: Seq<TokenItem<'s>>,
    at: int,
    next: int,
    body: List<Statement<'s>>,
)
    requires
        0 <= at <= items.len() <= usize::MAX,
    ensures
        ({
            let parsed = control::default_case_at(items, at);
            let tree = SwitchCase { value: None, body };
            let place1 = spelling::behind(items, Some(at), TerminalToken::Default);
            let place2 = spelling::behind(items, place1, TerminalToken::Colon);
            let place3 = read::case_body(body, items, place2);
            &&& parsed == Parsed::Ok((next, tree)) <==> place3 == Some(next)
            &&& read::needs(items, Some(at), TerminalToken::Default, parsed)
            &&& read::needs(items, place1, TerminalToken::Colon, parsed)
            &&& place2 is Some ==> read::passes_on(
                control::case_body_from(items, place2->0, Seq::empty()),
                parsed,
            )
        }),
{
    reveal(control::default_case_at);
    reveal(control::case_body_from);
    if spelling::is_at(items, at, TerminalToken::Default)
        && spelling::is_at(items, at + 1, TerminalToken::Colon) {
        let _ = spelling::control::lemma_case_body(items, at + 2, Seq::empty());
    }
}

/// A case is the default case if and only if it starts with `default`.
pub proof fn law_case_is_chosen_by_its_first_token<'s>(
    items: Seq<TokenItem<'s>>,
    at: int,
)
    requires
        0 <= at <= items.len() <= usize::MAX,
    ensures
        control::case_at(items, at) == (if spelling::is_at(items, at, TerminalToken::Default) {
            control::default_case_at(items, at)
        } else {
            control::value_case_at(items, at)
        }),
{
    reveal(control::case_at);
    reveal(control::default_case_at);
    reveal(control::value_case_at);
}

/// The place behind statements of a case, each read at the place of the one before, up to the next
/// case or `}`.
pub open spec fn chain_case_body<'s>(
    tree: List<Statement<'s>>,
    items: Seq<TokenItem<'s>>,
    at: int,
) -> Option<int>
    decreases tree,
{
    let ends = spelling::is_at(items, at, TerminalToken::Case)
        || spelling::is_at(items, at, TerminalToken::Default)
        || spelling::is_at(items, at, TerminalToken::CloseBrace);
    match tree {
        List::Empty => if ends {
            Some(at)
        } else {
            None
        },
        List::Item(first, rest) => if ends {
            None
        } else {
            match read::statement(*first, items, Some(at)) {
                Some(end) => chain_case_body(*rest, items, end),
                None => None,
            }
        },
    }
}

proof fn lemma_case_body<'s>(
    items: Seq<TokenItem<'s>>,
    at: int,
    next: int,
    found: Seq<Statement<'s>>,
    tree: List<Statement<'s>>,
)
    requires
        0 <= at <= items.len() <= usize::MAX,
        chain_case_body(tree, items, at) == Some(next),
    ensures
        control::case_body_from(items, at, found) == Parsed::Ok(
            (next, list::list_of(found + tree.items())),
        ),
    decreases tree,
{
    reveal(control::case_body_from);
    match tree {
        List::Empty => {
            assert(found + tree.items() =~= found);
        },
        List::Item(first, rest) => {
            spelling::statement::lemma_statement(items, at);
            assert(found.push(*first) + rest.items() =~= found + tree.items());
            if let Ok((n, _)) = statement::statement_at(items, at) {
                lemma_case_body(items, n, next, found.push(*first), *rest);
            }
        },
    }
}

/// The statements of a case are read if each of them is, up to the next case or `}`.
pub proof fn law_case_bodies_are_read_by_their_items<'s>(
    items: Seq<TokenItem<'s>>,
    at: int,
    next: int,
    tree: List<Statement<'s>>,
)
    requires
        0 <= at <= items.len() <= usize::MAX,
        chain_case_body(tree, items, at) == Some(next),
    ensures
        control::case_body_from(items, at, Seq::empty()) == Parsed::Ok((next, tree)),
{
    lemma_case_body(items, at, next, Seq::empty(), tree);
    assert(Seq::empty() + tree.items() =~= tree.items());
    list::lemma_list_of_items(tree);
}


/// The statements of a case fail as the first one that cannot be read does, and where the tokens
/// end.
pub proof fn law_case_bodies_fail_with_their_first_item<'s>(
    items: Seq<TokenItem<'s>>,
    at: int,
    found: Seq<Statement<'s>>,
)
    requires
        0 <= at <= items.len() <= usize::MAX,
    ensures
        ({
            let parsed = control::case_body_from(items, at, found);
            let ends = spelling::is_at(items, at, TerminalToken::Case)
                || spelling::is_at(items, at, TerminalToken::Default)
                || spelling::is_at(items, at, TerminalToken::CloseBrace);
            &&& at == items.len() ==> read::needs(
                items,
                Some(at),
                TerminalToken::CloseBrace,
                parsed,
            )
            &&& at < items.len() && !ends ==> read::passes_on(
                statement::statement_at(items, at),
                parsed,
            )
            &&& at < items.len() && !ends ==> (statement::statement_at(items, at) matches Ok(
                (end, item),
            ) ==> parsed == control::case_body_from(items, end, found.push(item)))
        }),
{
    reveal(control::case_body_from);
    spelling::statement::lemma_statement(items, at);
}
/// A statement with one that handles what it throws.
/// It is read if and only if its parts are, one behind the other. The first part that is not there
/// is what is wrong.
pub proof fn law_try_statement_is_read_by_its_parts<'s>(
    items: Seq<TokenItem<'s>>,
    at: int,
    next: int,
    body: Statement<'s>,
    name: Identifier<'s>,
    handler: Statement<'s>,
)
    requires
        0 <= at <= items.len() <= usize::MAX,
    ensures
        ({
            let parsed = control::try_statement_at(items, at);
            let tree = StatementType::TryCatch(
                TryCatchStatement { body: Box::new(body), name, handler: Box::new(handler) },
            );
            let place1 = spelling::behind(items, Some(at), TerminalToken::Try);
            let place2 = read::statement(body, items, place1);
            let place3 = spelling::behind(items, place2, TerminalToken::Catch);
            let place4 = spelling::behind(items, place3, TerminalToken::OpenBracket);
            let place5 = spelling::end_of_name(name, items, place4);
            let place6 = spelling::behind(items, place5, TerminalToken::CloseBracket);
            let place7 = read::statement(handler, items, place6);
            &&& parsed == Parsed::Ok((next, tree)) <==> place7 == Some(next)
            &&& read::needs(items, Some(at), TerminalToken::Try, parsed)
            &&& place1 is Some ==> read::passes_on(
                statement::statement_at(items, place1->0),
                parsed,
            )
            &&& read::needs(items, place2, TerminalToken::Catch, parsed)
            &&& read::needs(items, place3, TerminalToken::OpenBracket, parsed)
            &&& place4 is Some ==> read::passes_on(name::identifier_at(items, place4->0), parsed)
            &&& read::needs(items, place5, TerminalToken::CloseBracket, parsed)
            &&& place6 is Some ==> read::passes_on(
                statement::statement_at(items, place6->0),
                parsed,
            )
        }),
{
    reveal(control::try_statement_at);
    if spelling::is_at(items, at, TerminalToken::Try) {
        spelling::statement::lemma_statement(items, at + 1);
        if let Ok((after_body, _)) = statement::statement_at(items, at + 1) {
            if spelling::is_at(items, after_body, TerminalToken::Catch)
                && spelling::is_at(items, after_body + 1, TerminalToken::OpenBracket) {
                if let Ok((after_name, _)) = name::identifier_at(items, after_body + 2) {
                    if spelling::is_at(items, after_name, TerminalToken::CloseBracket) {
                        spelling::statement::lemma_statement(items, after_name + 1);
                    }
                }
            }
        }
    }
}

/// A return from a function.
/// It is read if and only if its parts are, one behind the other. The first part that is not there
/// is what is wrong.
pub proof fn law_return_statement_is_read_by_its_parts<'s>(
    items: Seq<TokenItem<'s>>,
    at: int,
    next: int,
    value: Option<Expression<'s>>,
)
    requires
        0 <= at <= items.len() <= usize::MAX,
    ensures
        ({
            let parsed = control::return_statement_at(items, at);
            let tree = StatementType::Return(value);
            let place1 = spelling::behind(items, Some(at), TerminalToken::Return);
            let place2 = read::value(value, items, place1);
            &&& parsed == Parsed::Ok((next, tree)) <==> place2 == Some(next)
            &&& read::needs(items, Some(at), TerminalToken::Return, parsed)
            &&& place1 is Some ==> read::passes_on(control::value_at(items, place1->0), parsed)
        }),
{
    reveal(control::return_statement_at);
    reveal(control::value_at);
    if spelling::is_at(items, at, TerminalToken::Return) {
        spelling::control::lemma_value(items, at + 1);
    }
}

/// A return from a generator.
/// It is read if and only if its parts are, one behind the other. The first part that is not there
/// is what is wrong.
pub proof fn law_yield_statement_is_read_by_its_parts<'s>(
    items: Seq<TokenItem<'s>>,
    at: int,
    next: int,
    value: Option<Expression<'s>>,
)
    requires
        0 <= at <= items.len() <= usize::MAX,
    ensures
        ({
            let parsed = control::yield_statement_at(items, at);
            let tree = StatementType::Yield(value);
            let place1 = spelling::behind(items, Some(at), TerminalToken::Yield);
            let place2 = read::value(value, items, place1);
            &&& parsed == Parsed::Ok((next, tree)) <==> place2 == Some(next)
            &&& read::needs(items, Some(at), TerminalToken::Yield, parsed)
            &&& place1 is Some ==> read::passes_on(control::value_at(items, place1->0), parsed)
        }),
{
    reveal(control::yield_statement_at);
    reveal(control::value_at);
    if spelling::is_at(items, at, TerminalToken::Yield) {
        spelling::control::lemma_value(items, at + 1);
    }
}

/// The value of a `return` is read if and only if it stands on the same line and the statement does
/// not end before it.
pub proof fn law_value_is_read_by_its_parts<'s>(
    items: Seq<TokenItem<'s>>,
    at: int,
    next: int,
    tree: Option<Expression<'s>>,
)
    requires
        0 <= at <= items.len() <= usize::MAX,
    ensures
        control::value_at(items, at) == Parsed::Ok((next, tree)) <==> (match tree {
            Some(value) => if spelling::ends_before_value(items, at) {
                None
            } else {
                read::expression(value, items, Some(at))
            },
            None => if spelling::ends_before_value(items, at) {
                Some(at)
            } else {
                None
            },
        }) == Some(next),
        !spelling::ends_before_value(items, at) ==> read::passes_on(
            expression::expression_at(items, at),
            control::value_at(items, at),
        ),
{
    reveal(control::value_at);
    spelling::expression::lemma_expression(items, at);
}

/// An exception.
/// It is read if and only if its parts are, one behind the other. The first part that is not there
/// is what is wrong.
pub proof fn law_throw_statement_is_read_by_its_parts<'s>(
    items: Seq<TokenItem<'s>>,
    at: int,
    next: int,
    value: Expression<'s>,
)
    requires
        0 <= at <= items.len() <= usize::MAX,
    ensures
        ({
            let parsed = control::throw_statement_at(items, at);
            let tree = StatementType::Throw(value);
            let place1 = spelling::behind(items, Some(at), TerminalToken::Throw);
            let place2 = read::expression(value, items, place1);
            &&& parsed == Parsed::Ok((next, tree)) <==> place2 == Some(next)
            &&& read::needs(items, Some(at), TerminalToken::Throw, parsed)
            &&& place1 is Some ==> read::passes_on(
                expression::expression_at(items, place1->0),
                parsed,
            )
        }),
{
    reveal(control::throw_statement_at);
    if spelling::is_at(items, at, TerminalToken::Throw) {
        spelling::expression::lemma_expression(items, at + 1);
    }
}

/// A call that runs beside the caller.
/// It is read if and only if its parts are, one behind the other. The first part that is not there
/// is what is wrong.
pub proof fn law_thread_statement_is_read_by_its_parts<'s>(
    items: Seq<TokenItem<'s>>,
    at: int,
    next: int,
    value: Expression<'s>,
)
    requires
        0 <= at <= items.len() <= usize::MAX,
    ensures
        ({
            let parsed = control::thread_statement_at(items, at);
            let tree = StatementType::Thread(value);
            let place1 = spelling::behind(items, Some(at), TerminalToken::Thread);
            let place2 = read::expression(value, items, place1);
            &&& parsed == Parsed::Ok((next, tree)) <==> place2 == Some(next)
            &&& read::needs(items, Some(at), TerminalToken::Thread, parsed)
            &&& place1 is Some ==> read::passes_on(
                expression::expression_at(items, place1->0),
                parsed,
            )
        }),
{
    reveal(control::thread_statement_at);
    if spelling::is_at(items, at, TerminalToken::Thread) {
        spelling::expression::lemma_expression(items, at + 1);
    }
}

/// A call on a thread of its own that the caller waits for.
/// It is read if and only if its parts are, one behind the other. The first part that is not there
/// is what is wrong.
pub proof fn law_wait_thread_statement_is_read_by_its_parts<'s>(
    items: Seq<TokenItem<'s>>,
    at: int,
    next: int,
    value: Expression<'s>,
)
    requires
        0 <= at <= items.len() <= usize::MAX,
    ensures
        ({
            let parsed = control::wait_thread_statement_at(items, at);
            let tree = StatementType::WaitThread(value);
            let place1 = spelling::behind(items, Some(at), TerminalToken::WaitThread);
            let place2 = read::expression(value, items, place1);
            &&& parsed == Parsed::Ok((next, tree)) <==> place2 == Some(next)
            &&& read::needs(items, Some(at), TerminalToken::WaitThread, parsed)
            &&& place1 is Some ==> read::passes_on(
                expression::expression_at(items, place1->0),
                parsed,
            )
        }),
{
    reveal(control::wait_thread_statement_at);
    if spelling::is_at(items, at, TerminalToken::WaitThread) {
        spelling::expression::lemma_expression(items, at + 1);
    }
}

/// A call on a thread of its own that the caller alone waits for.
/// It is read if and only if its parts are, one behind the other. The first part that is not there
/// is what is wrong.
pub proof fn law_wait_thread_solo_statement_is_read_by_its_parts<'s>(
    items: Seq<TokenItem<'s>>,
    at: int,
    next: int,
    value: Expression<'s>,
)
    requires
        0 <= at <= items.len() <= usize::MAX,
    ensures
        ({
            let parsed = control::wait_thread_solo_statement_at(items, at);
            let tree = StatementType::WaitThreadSolo(value);
            let place1 = spelling::behind(items, Some(at), TerminalToken::WaitThreadSolo);
            let place2 = read::expression(value, items, place1);
            &&& parsed == Parsed::Ok((next, tree)) <==> place2 == Some(next)
            &&& read::needs(items, Some(at), TerminalToken::WaitThreadSolo, parsed)
            &&& place1 is Some ==> read::passes_on(
                expression::expression_at(items, place1->0),
                parsed,
            )
        }),
{
    reveal(control::wait_thread_solo_statement_at);
    if spelling::is_at(items, at, TerminalToken::WaitThreadSolo) {
        spelling::expression::lemma_expression(items, at + 1);
    }
}

/// A pause.
/// It is read if and only if its parts are, one behind the other. The first part that is not there
/// is what is wrong.
pub proof fn law_wait_statement_is_read_by_its_parts<'s>(
    items: Seq<TokenItem<'s>>,
    at: int,
    next: int,
    value: Expression<'s>,
)
    requires
        0 <= at <= items.len() <= usize::MAX,
    ensures
        ({
            let parsed = control::wait_statement_at(items, at);
            let tree = StatementType::Wait(value);
            let place1 = spelling::behind(items, Some(at), TerminalToken::Wait);
            let place2 = read::expression(value, items, place1);
            &&& parsed == Parsed::Ok((next, tree)) <==> place2 == Some(next)
            &&& read::needs(items, Some(at), TerminalToken::Wait, parsed)
            &&& place1 is Some ==> read::passes_on(
                expression::expression_at(items, place1->0),
                parsed,
            )
        }),
{
    reveal(control::wait_statement_at);
    if spelling::is_at(items, at, TerminalToken::Wait) {
        spelling::expression::lemma_expression(items, at + 1);
    }
}

/// A call that starts later.
/// It is read if and only if its parts are, one behind the other. The first part that is not there
/// is what is wrong.
pub proof fn law_delay_thread_statement_is_read_by_its_parts<'s>(
    items: Seq<TokenItem<'s>>,
    at: int,
    next: int,
    duration: Expression<'s>,
    value: Expression<'s>,
)
    requires
        0 <= at <= items.len() <= usize::MAX,
    ensures
        ({
            let parsed = control::delay_thread_statement_at(items, at);
            let tree = StatementType::DelayThread(DelayThreadStatement { duration, value });
            let place1 = spelling::behind(items, Some(at), TerminalToken::DelayThread);
            let place2 = spelling::behind(items, place1, TerminalToken::OpenBracket);
            let place3 = read::expression(duration, items, place2);
            let place4 = spelling::behind(items, place3, TerminalToken::CloseBracket);
            let place5 = read::expression(value, items, place4);
            &&& parsed == Parsed::Ok((next, tree)) <==> place5 == Some(next)
            &&& read::needs(items, Some(at), TerminalToken::DelayThread, parsed)
            &&& read::needs(items, place1, TerminalToken::OpenBracket, parsed)
            &&& place2 is Some ==> read::passes_on(
                expression::expression_at(items, place2->0),
                parsed,
            )
            &&& read::needs(items, place3, TerminalToken::CloseBracket, parsed)
            &&& place4 is Some ==> read::passes_on(
                expression::expression_at(items, place4->0),
                parsed,
            )
        }),
{
    reveal(control::delay_thread_statement_at);
    if spelling::is_at(items, at, TerminalToken::DelayThread)
        && spelling::is_at(items, at + 1, TerminalToken::OpenBracket) {
        spelling::expression::lemma_expression(items, at + 2);
        if let Ok((after_duration, _)) = expression::expression_at(items, at + 2) {
            if spelling::is_at(items, after_duration, TerminalToken::CloseBracket) {
                spelling::expression::lemma_expression(items, after_duration + 1);
            }
        }
    }
}

} // verus!
