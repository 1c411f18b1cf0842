use crate::lexer::TokenItem;
use crate::parser::{expression, function, grammar, name, spelling, type_};
use crate::token::TerminalToken;
use vstd::prelude::*;

verus! {

pub(crate) proof fn lemma_root_var<'s>(items: Seq<TokenItem<'s>>, at: int)
    requires
        0 <= at <= items.len() <= usize::MAX,
    ensures
        match expression::root_var_at(items, at) {
            Ok((next, tree)) => {
                &&& at < next <= items.len()
                &&& spelling::end_of_expression(tree, items, Some(at)) == Some(next)
                &&& spelling::tightness(tree) == 14
            },
            Err(error) => spelling::is_wrong(items, at, error),
        },
    decreases grammar::left(items, at), 1nat,
{
    reveal(expression::root_var_at);
    reveal(spelling::end_of_expression);
}

pub(crate) proof fn lemma_parens<'s>(items: Seq<TokenItem<'s>>, at: int)
    requires
        0 <= at <= items.len() <= usize::MAX,
    ensures
        match expression::parens_at(items, at) {
            Ok((next, tree)) => {
                &&& at < next <= items.len()
                &&& spelling::end_of_expression(tree, items, Some(at)) == Some(next)
                &&& spelling::tightness(tree) == 14
            },
            Err(error) => spelling::is_wrong(items, at, error),
        },
    decreases grammar::left(items, at), 1nat,
{
    reveal(expression::parens_at);
    reveal(spelling::end_of_expression);
    if spelling::is_at(items, at, TerminalToken::OpenBracket) {
        super::expression::lemma_expression(items, at + 1);
    }
}

pub(crate) proof fn lemma_array<'s>(items: Seq<TokenItem<'s>>, at: int)
    requires
        0 <= at <= items.len() <= usize::MAX,
    ensures
        match expression::array_at(items, at) {
            Ok((next, tree)) => {
                &&& at < next <= items.len()
                &&& spelling::end_of_expression(tree, items, Some(at)) == Some(next)
                &&& spelling::tightness(tree) == 14
            },
            Err(error) => spelling::is_wrong(items, at, error),
        },
    decreases grammar::left(items, at), 1nat,
{
    reveal(expression::array_at);
    reveal(spelling::end_of_expression);
    if spelling::is_at(items, at, TerminalToken::OpenSquare) {
        let _ = super::entry::lemma_elements(items, at + 1, Seq::empty());
    }
}

pub(crate) proof fn lemma_table<'s>(items: Seq<TokenItem<'s>>, at: int)
    requires
        0 <= at <= items.len() <= usize::MAX,
    ensures
        match expression::table_at(items, at) {
            Ok((next, tree)) => {
                &&& at < next <= items.len()
                &&& spelling::end_of_expression(tree, items, Some(at)) == Some(next)
                &&& spelling::tightness(tree) == 14
            },
            Err(error) => spelling::is_wrong(items, at, error),
        },
    decreases grammar::left(items, at), 1nat,
{
    reveal(expression::table_at);
    reveal(spelling::end_of_expression);
    if spelling::is_at(items, at, TerminalToken::OpenBrace) {
        let _ = super::entry::lemma_entries(items, at + 1, Seq::empty());
    }
}

pub(crate) proof fn lemma_vector<'s>(items: Seq<TokenItem<'s>>, at: int)
    requires
        0 <= at <= items.len() <= usize::MAX,
    ensures
        match expression::vector_at(items, at) {
            Ok((next, tree)) => {
                &&& at < next <= items.len()
                &&& spelling::end_of_expression(tree, items, Some(at)) == Some(next)
                &&& spelling::tightness(tree) == 14
            },
            Err(error) => spelling::is_wrong(items, at, error),
        },
    decreases grammar::left(items, at), 1nat,
{
    reveal(expression::vector_at);
    reveal(spelling::end_of_expression);
    if spelling::is_at(items, at, TerminalToken::Less) {
        super::expression::lemma_sum(items, at + 1);
        if let Ok((after_x, _)) = expression::sum_at(items, at + 1) {
            if spelling::is_at(items, after_x, TerminalToken::Comma) {
                super::expression::lemma_sum(items, after_x + 1);
                if let Ok((after_y, _)) = expression::sum_at(items, after_x + 1) {
                    if spelling::is_at(items, after_y, TerminalToken::Comma) {
                        super::expression::lemma_sum(items, after_y + 1);
                    }
                }
            }
        }
    }
}

pub(crate) proof fn lemma_function_value<'s>(items: Seq<TokenItem<'s>>, at: int)
    requires
        0 <= at <= items.len() <= usize::MAX,
    ensures
        match expression::function_value_at(items, at) {
            Ok((next, tree)) => {
                &&& at < next <= items.len()
                &&& spelling::end_of_expression(tree, items, Some(at)) == Some(next)
                &&& spelling::tightness(tree) == 14
            },
            Err(error) => spelling::is_wrong(items, at, error),
        },
    decreases grammar::left(items, at), 1nat,
{
    reveal(expression::function_value_at);
    reveal(spelling::end_of_expression);
    if spelling::is_at(items, at, TerminalToken::Function) {
        super::function::lemma_definition(items, at + 1);
    }
}

pub(crate) proof fn lemma_typed_function<'s>(items: Seq<TokenItem<'s>>, at: int)
    requires
        0 <= at <= items.len() <= usize::MAX,
    ensures
        match expression::typed_function_at(items, at) {
            Ok((next, tree)) => {
                &&& at < next <= items.len()
                &&& spelling::end_of_expression(tree, items, Some(at)) == Some(next)
                &&& spelling::tightness(tree) == 14
            },
            Err(error) => spelling::is_wrong(items, at, error),
        },
    decreases grammar::left(items, at), 1nat,
{
    reveal(expression::typed_function_at);
    reveal(spelling::end_of_expression);
    if let Ok((after_ty, _)) = name::identifier_at(items, at) {
        if spelling::is_at(items, after_ty, TerminalToken::Function) {
            super::function::lemma_definition(items, after_ty + 1);
        }
    }
}

pub(crate) proof fn lemma_lambda<'s>(items: Seq<TokenItem<'s>>, at: int)
    requires
        0 <= at <= items.len() <= usize::MAX,
    ensures
        match expression::lambda_at(items, at) {
            Ok((next, tree)) => {
                &&& at < next <= items.len()
                &&& spelling::end_of_expression(tree, items, Some(at)) == Some(next)
                &&& spelling::tightness(tree) == 14
            },
            Err(error) => spelling::is_wrong(items, at, error),
        },
    decreases grammar::left(items, at), 1nat,
{
    reveal(expression::lambda_at);
    reveal(spelling::end_of_expression);
    if spelling::is_at(items, at, TerminalToken::At) {
        super::function::lemma_params(items, at + 1);
        if let Ok((after_params, _)) = function::params_at(items, at + 1) {
            super::expression::lemma_expression(items, after_params);
        }
    }
}

pub(crate) proof fn lemma_expect_type<'s>(items: Seq<TokenItem<'s>>, at: int)
    requires
        0 <= at <= items.len() <= usize::MAX,
    ensures
        match expression::expect_type_at(items, at) {
            Ok((next, tree)) => {
                &&& at < next <= items.len()
                &&& spelling::end_of_expression(tree, items, Some(at)) == Some(next)
                &&& spelling::tightness(tree) == 14
            },
            Err(error) => spelling::is_wrong(items, at, error),
        },
    decreases grammar::left(items, at), 1nat,
{
    reveal(expression::expect_type_at);
    reveal(spelling::end_of_expression);
    if spelling::is_at(items, at, TerminalToken::Expect) {
        super::type_::lemma_type(items, at + 1);
        if let Ok((after_ty, _)) = type_::type__at(items, at + 1) {
            if spelling::is_at(items, after_ty, TerminalToken::OpenBracket) {
                super::expression::lemma_expression(items, after_ty + 1);
            }
        }
    }
}

} // verus!
