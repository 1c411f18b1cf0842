use crate::ast::{Expression, FunctionDefinition, FunctionParams, Identifier, TableEntry, Type};
use crate::lexer::TokenItem;
use crate::list::List;
use crate::parser::error::ParseErrorType;
use crate::parser::grammar::Parsed;
use crate::parser::parts::read;
use crate::parser::{expression, function, grammar, name, spelling, type_};
use crate::token::TerminalToken;
use vstd::prelude::*;

verus! {

/// A name of the root table.
/// It is read if and only if its parts are, one behind the other. The first part that is not there
/// is what is wrong.
pub proof fn law_root_var_is_read_by_its_parts<'s>(
    items: Seq<TokenItem<'s>>,
    at: int,
    next: int,
    name: Identifier<'s>,
)
    requires
        0 <= at <= items.len() <= usize::MAX,
    ensures
        ({
            let parsed = expression::root_var_at(items, at);
            let tree = Expression::RootVar(name);
            let place1 = spelling::behind(items, Some(at), TerminalToken::Namespace);
            let place2 = spelling::end_of_name(name, items, place1);
            &&& parsed == Parsed::Ok((next, tree)) <==> place2 == Some(next)
            &&& read::needs(items, Some(at), TerminalToken::Namespace, parsed)
            &&& place1 is Some ==> read::passes_on(name::identifier_at(items, place1->0), parsed)
        }),
{
    reveal(expression::root_var_at);
}

/// An expression in brackets.
/// It is read if and only if its parts are, one behind the other. The first part that is not there
/// is what is wrong.
pub proof fn law_parens_is_read_by_its_parts<'s>(
    items: Seq<TokenItem<'s>>,
    at: int,
    next: int,
    value: Expression<'s>,
)
    requires
        0 <= at <= items.len() <= usize::MAX,
    ensures
        ({
            let parsed = expression::parens_at(items, at);
            let tree = Expression::Parens(Box::new(value));
            let place1 = spelling::behind(items, Some(at), TerminalToken::OpenBracket);
            let place2 = read::expression(value, items, place1);
            let place3 = spelling::behind(items, place2, TerminalToken::CloseBracket);
            &&& parsed == Parsed::Ok((next, tree)) <==> place3 == Some(next)
            &&& read::needs(items, Some(at), TerminalToken::OpenBracket, parsed)
            &&& place1 is Some ==> read::passes_on(
                expression::expression_at(items, place1->0),
                parsed,
            )
            &&& read::needs(items, place2, TerminalToken::CloseBracket, parsed)
        }),
{
    reveal(expression::parens_at);
    if spelling::is_at(items, at, TerminalToken::OpenBracket) {
        spelling::expression::lemma_expression(items, at + 1);
    }
}

/// An array.
/// It is read if and only if its parts are, one behind the other. The first part that is not there
/// is what is wrong.
pub proof fn law_array_is_read_by_its_parts<'s>(
    items: Seq<TokenItem<'s>>,
    at: int,
    next: int,
    elements: List<Expression<'s>>,
)
    requires
        0 <= at <= items.len() <= usize::MAX,
    ensures
        ({
            let parsed = expression::array_at(items, at);
            let tree = Expression::Array(elements);
            let place1 = spelling::behind(items, Some(at), TerminalToken::OpenSquare);
            let place2 = read::elements(elements, items, place1);
            &&& parsed == Parsed::Ok((next, tree)) <==> place2 == Some(next)
            &&& read::needs(items, Some(at), TerminalToken::OpenSquare, parsed)
            &&& place1 is Some ==> read::passes_on(
                expression::elements_from(items, place1->0, Seq::empty()),
                parsed,
            )
        }),
{
    reveal(expression::array_at);
    if spelling::is_at(items, at, TerminalToken::OpenSquare) {
        let _ = spelling::entry::lemma_elements(items, at + 1, Seq::empty());
    }
}

/// A table.
/// It is read if and only if its parts are, one behind the other. The first part that is not there
/// is what is wrong.
pub proof fn law_table_is_read_by_its_parts<'s>(
    items: Seq<TokenItem<'s>>,
    at: int,
    next: int,
    entries: List<TableEntry<'s>>,
)
    requires
        0 <= at <= items.len() <= usize::MAX,
    ensures
        ({
            let parsed = expression::table_at(items, at);
            let tree = Expression::Table(entries);
            let place1 = spelling::behind(items, Some(at), TerminalToken::OpenBrace);
            let place2 = read::entries(entries, items, place1);
            &&& parsed == Parsed::Ok((next, tree)) <==> place2 == Some(next)
            &&& read::needs(items, Some(at), TerminalToken::OpenBrace, parsed)
            &&& place1 is Some ==> read::passes_on(
                expression::entries_from(items, place1->0, Seq::empty()),
                parsed,
            )
        }),
{
    reveal(expression::table_at);
    if spelling::is_at(items, at, TerminalToken::OpenBrace) {
        let _ = spelling::entry::lemma_entries(items, at + 1, Seq::empty());
    }
}

/// A vector, whose parts hold no operator that compares.
/// It is read if and only if its parts are, one behind the other. The first part that is not there
/// is what is wrong.
pub proof fn law_vector_is_read_by_its_parts<'s>(
    items: Seq<TokenItem<'s>>,
    at: int,
    next: int,
    x: Expression<'s>,
    y: Expression<'s>,
    z: Expression<'s>,
)
    requires
        0 <= at <= items.len() <= usize::MAX,
    ensures
        ({
            let parsed = expression::vector_at(items, at);
            let tree = Expression::Vector(Box::new(x), Box::new(y), Box::new(z));
            let place1 = spelling::behind(items, Some(at), TerminalToken::Less);
            let place2 = read::sum(x, items, place1);
            let place3 = spelling::behind(items, place2, TerminalToken::Comma);
            let place4 = read::sum(y, items, place3);
            let place5 = spelling::behind(items, place4, TerminalToken::Comma);
            let place6 = read::sum(z, items, place5);
            let place7 = spelling::behind(items, place6, TerminalToken::Greater);
            &&& parsed == Parsed::Ok((next, tree)) <==> place7 == Some(next)
            &&& read::needs(items, Some(at), TerminalToken::Less, parsed)
            &&& place1 is Some ==> read::passes_on(expression::sum_at(items, place1->0), parsed)
            &&& read::needs(items, place2, TerminalToken::Comma, parsed)
            &&& place3 is Some ==> read::passes_on(expression::sum_at(items, place3->0), parsed)
            &&& read::needs(items, place4, TerminalToken::Comma, parsed)
            &&& place5 is Some ==> read::passes_on(expression::sum_at(items, place5->0), parsed)
            &&& read::needs(items, place6, TerminalToken::Greater, parsed)
        }),
{
    reveal(expression::vector_at);
    if spelling::is_at(items, at, TerminalToken::Less) {
        spelling::expression::lemma_sum(items, at + 1);
        if let Ok((after_x, _)) = expression::sum_at(items, at + 1) {
            if spelling::is_at(items, after_x, TerminalToken::Comma) {
                spelling::expression::lemma_sum(items, after_x + 1);
                if let Ok((after_y, _)) = expression::sum_at(items, after_x + 1) {
                    if spelling::is_at(items, after_y, TerminalToken::Comma) {
                        spelling::expression::lemma_sum(items, after_y + 1);
                    }
                }
            }
        }
    }
}

/// A function without a name.
/// It is read if and only if its parts are, one behind the other. The first part that is not there
/// is what is wrong.
pub proof fn law_function_value_is_read_by_its_parts<'s>(
    items: Seq<TokenItem<'s>>,
    at: int,
    next: int,
    function: FunctionDefinition<'s>,
)
    requires
        0 <= at <= items.len() <= usize::MAX,
    ensures
        ({
            let parsed = expression::function_value_at(items, at);
            let tree = Expression::Function(None, function);
            let place1 = spelling::behind(items, Some(at), TerminalToken::Function);
            let place2 = read::definition(function, items, place1);
            &&& parsed == Parsed::Ok((next, tree)) <==> place2 == Some(next)
            &&& read::needs(items, Some(at), TerminalToken::Function, parsed)
            &&& place1 is Some ==> read::passes_on(
                function::definition_at(items, place1->0),
                parsed,
            )
        }),
{
    reveal(expression::function_value_at);
    if spelling::is_at(items, at, TerminalToken::Function) {
        spelling::function::lemma_definition(items, at + 1);
    }
}

/// A function without a name, behind the name of the type that it returns.
/// It is read if and only if its parts are, one behind the other. The first part that is not there
/// is what is wrong.
pub proof fn law_typed_function_is_read_by_its_parts<'s>(
    items: Seq<TokenItem<'s>>,
    at: int,
    next: int,
    ty: Identifier<'s>,
    function: FunctionDefinition<'s>,
)
    requires
        0 <= at <= items.len() <= usize::MAX,
    ensures
        ({
            let parsed = expression::typed_function_at(items, at);
            let tree = Expression::Function(Some(ty), function);
            let place1 = spelling::end_of_name(ty, items, Some(at));
            let place2 = spelling::behind(items, place1, TerminalToken::Function);
            let place3 = read::definition(function, items, place2);
            &&& parsed == Parsed::Ok((next, tree)) <==> place3 == Some(next)
            &&& read::passes_on(name::identifier_at(items, at), parsed)
            &&& read::needs(items, place1, TerminalToken::Function, parsed)
            &&& place2 is Some ==> read::passes_on(
                function::definition_at(items, place2->0),
                parsed,
            )
        }),
{
    reveal(expression::typed_function_at);
    if let Ok((after_ty, _)) = name::identifier_at(items, at) {
        if spelling::is_at(items, after_ty, TerminalToken::Function) {
            spelling::function::lemma_definition(items, after_ty + 1);
        }
    }
}

/// A function that returns an expression.
/// It is read if and only if its parts are, one behind the other. The first part that is not there
/// is what is wrong.
pub proof fn law_lambda_is_read_by_its_parts<'s>(
    items: Seq<TokenItem<'s>>,
    at: int,
    next: int,
    params: FunctionParams<'s>,
    value: Expression<'s>,
)
    requires
        0 <= at <= items.len() <= usize::MAX,
    ensures
        ({
            let parsed = expression::lambda_at(items, at);
            let tree = Expression::Lambda(params, Box::new(value));
            let place1 = spelling::behind(items, Some(at), TerminalToken::At);
            let place2 = read::params(params, items, place1);
            let place3 = read::expression(value, items, place2);
            &&& parsed == Parsed::Ok((next, tree)) <==> place3 == Some(next)
            &&& read::needs(items, Some(at), TerminalToken::At, parsed)
            &&& place1 is Some ==> read::passes_on(function::params_at(items, place1->0), parsed)
            &&& place2 is Some ==> read::passes_on(
                expression::expression_at(items, place2->0),
                parsed,
            )
        }),
{
    reveal(expression::lambda_at);
    if spelling::is_at(items, at, TerminalToken::At) {
        spelling::function::lemma_params(items, at + 1);
        if let Ok((after_params, _)) = function::params_at(items, at + 1) {
            spelling::expression::lemma_expression(items, after_params);
        }
    }
}

/// An expression that has a given type.
/// It is read if and only if its parts are, one behind the other. The first part that is not there
/// is what is wrong.
pub proof fn law_expect_type_is_read_by_its_parts<'s>(
    items: Seq<TokenItem<'s>>,
    at: int,
    next: int,
    ty: Type<'s>,
    value: Expression<'s>,
)
    requires
        0 <= at <= items.len() <= usize::MAX,
    ensures
        ({
            let parsed = expression::expect_type_at(items, at);
            let tree = Expression::Expect(ty, Box::new(value));
            let place1 = spelling::behind(items, Some(at), TerminalToken::Expect);
            let place2 = read::type_(ty, items, place1);
            let place3 = spelling::behind(items, place2, TerminalToken::OpenBracket);
            let place4 = read::expression(value, items, place3);
            let place5 = spelling::behind(items, place4, TerminalToken::CloseBracket);
            &&& parsed == Parsed::Ok((next, tree)) <==> place5 == Some(next)
            &&& read::needs(items, Some(at), TerminalToken::Expect, parsed)
            &&& place1 is Some ==> read::passes_on(type_::type__at(items, place1->0), parsed)
            &&& read::needs(items, place2, TerminalToken::OpenBracket, parsed)
            &&& place3 is Some ==> read::passes_on(
                expression::expression_at(items, place3->0),
                parsed,
            )
            &&& read::needs(items, place4, TerminalToken::CloseBracket, parsed)
        }),
{
    reveal(expression::expect_type_at);
    if spelling::is_at(items, at, TerminalToken::Expect) {
        spelling::type_::lemma_type(items, at + 1);
        if let Ok((after_ty, _)) = type_::type__at(items, at + 1) {
            if spelling::is_at(items, after_ty, TerminalToken::OpenBracket) {
                spelling::expression::lemma_expression(items, after_ty + 1);
            }
        }
    }
}

/// What operand is read is chosen by its first tokens.
pub proof fn law_operand_is_chosen_by_its_first_tokens<'s>(
    items: Seq<TokenItem<'s>>,
    at: int,
    name: Identifier<'s>,
)
    requires
        0 <= at <= items.len() <= usize::MAX,
    ensures
        at < items.len() && items[at].token.ty is Literal ==> expression::primary_at(items, at)
            == Parsed::Ok((at + 1, Expression::Literal(&items[at].token))),
        spelling::end_of_name(
            name,
            items,
            Some(at),
        ) is Some
            && !(spelling::is_at(items, at + 1, TerminalToken::Function)
            && spelling::is_at(items, at + 2, TerminalToken::OpenBracket))
            ==> expression::primary_at(
            items,
            at,
        ) == Parsed::Ok((at + 1, Expression::Var(name))),
        grammar::has_name(items, at) && spelling::is_at(items, at + 1, TerminalToken::Function)
            && spelling::is_at(items, at + 2, TerminalToken::OpenBracket)
            ==> expression::primary_at(items, at)
            == expression::typed_function_at(items, at),
        spelling::is_at(items, at, TerminalToken::True)
            ==> expression::primary_at(items, at) == Parsed::Ok((at + 1, Expression::True)),
        spelling::is_at(items, at, TerminalToken::False)
            ==> expression::primary_at(items, at) == Parsed::Ok((at + 1, Expression::False)),
        spelling::is_at(items, at, TerminalToken::Null)
            ==> expression::primary_at(items, at) == Parsed::Ok((at + 1, Expression::Null)),
        spelling::is_at(items, at, TerminalToken::This)
            ==> expression::primary_at(items, at) == Parsed::Ok((at + 1, Expression::This)),
        spelling::is_at(items, at, TerminalToken::Base)
            ==> expression::primary_at(items, at) == Parsed::Ok((at + 1, Expression::Base)),
        spelling::is_at(items, at, TerminalToken::Namespace)
            ==> expression::primary_at(items, at) == expression::root_var_at(items, at),
        spelling::is_at(items, at, TerminalToken::OpenBracket)
            ==> expression::primary_at(items, at) == expression::parens_at(items, at),
        spelling::is_at(items, at, TerminalToken::OpenSquare)
            ==> expression::primary_at(items, at) == expression::array_at(items, at),
        spelling::is_at(items, at, TerminalToken::OpenBrace)
            ==> expression::primary_at(items, at) == expression::table_at(items, at),
        spelling::is_at(items, at, TerminalToken::Less)
            ==> expression::primary_at(items, at) == expression::vector_at(items, at),
        spelling::is_at(items, at, TerminalToken::Function)
            ==> expression::primary_at(items, at) == expression::function_value_at(items, at),
        spelling::is_at(items, at, TerminalToken::At)
            ==> expression::primary_at(items, at) == expression::lambda_at(items, at),
        spelling::is_at(items, at, TerminalToken::Expect)
            ==> expression::primary_at(items, at) == expression::expect_type_at(items, at),
        at == items.len() || !spelling::starts_operand(items[at].token.ty) ==> read::fails_at(
            expression::primary_at(items, at),
            ParseErrorType::ExpectedExpression,
            at,
        ),
{
    reveal(expression::primary_at);
    reveal(expression::typed_function_at);
    reveal(expression::root_var_at);
    reveal(expression::parens_at);
    reveal(expression::array_at);
    reveal(expression::table_at);
    reveal(expression::vector_at);
    reveal(expression::function_value_at);
    reveal(expression::lambda_at);
    reveal(expression::expect_type_at);
}

} // verus!
