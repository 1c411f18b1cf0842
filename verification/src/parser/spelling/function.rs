use crate::ast::FunctionParam;
use crate::lexer::TokenItem;
use crate::list;
use crate::parser::{function, grammar, spelling, type_};
use crate::token::TerminalToken;
use vstd::prelude::*;

verus! {

pub(crate) proof fn lemma_param<'s>(items: Seq<TokenItem<'s>>, at: int)
    requires
        0 <= at <= items.len() <= usize::MAX,
    ensures
        match function::param_at(items, at) {
            Ok((next, tree)) => {
                &&& at < next <= items.len()
                &&& spelling::end_of_param(tree, items, Some(at)) == Some(next)
            },
            Err(error) => spelling::is_wrong(items, at, error),
        },
    decreases grammar::left(items, at), 6nat,
{
    reveal(function::param_at);
    reveal(spelling::end_of_param);
    super::type_::lemma_typed_name(items, at);
    if let Ok((after_named, _)) = type_::typed_name_at(items, at) {
        super::variable::lemma_initializer(items, after_named);
    }
}

pub(crate) proof fn lemma_param_list<'s>(
    items: Seq<TokenItem<'s>>,
    at: int,
    found: Seq<FunctionParam<'s>>,
) -> (read: Seq<FunctionParam<'s>>)
    requires
        0 <= at <= items.len() <= usize::MAX,
    ensures
        match function::param_list_from(items, at, found) {
            Ok((next, tree)) => {
                let end = spelling::end_of_param_list(list::list_of(read), items, Some(at));
                &&& at < next <= items.len()
                &&& tree.params == list::list_of(found + read)
                &&& found.len() == 0 ==> tree.params == list::list_of(read)
                &&& spelling::behind(
                    items,
                    if tree.is_vararg {
                        spelling::behind(items, end, TerminalToken::Vararg)
                    } else {
                        end
                    },
                    TerminalToken::CloseBracket,
                ) == Some(next)
            },
            Err(error) => spelling::is_wrong(items, at, error),
        },
    decreases grammar::left(items, at), 7nat,
{
    reveal(function::param_list_from);
    reveal(function::param_at);
    reveal(spelling::end_of_param_list);
    reveal(spelling::end_of_param);
    if at >= items.len() || spelling::is_at(items, at, TerminalToken::CloseBracket)
        || spelling::is_at(items, at, TerminalToken::Vararg) {
        assert(found + Seq::empty() =~= found);
        Seq::empty()
    } else {
        lemma_param(items, at);
        match function::param_at(items, at) {
            Ok((next, item)) => {
                if spelling::is_at(items, next, TerminalToken::Comma) {
                    let rest = lemma_param_list(items, next + 1, found.push(item));
                    let read = seq![item] + rest;
                    assert(found.push(item) + rest =~= found + read);
                    assert(found.len() == 0 ==> found + read =~= read);
                    assert(read.drop_first() =~= rest);
                    read
                } else {
                    let read = seq![item];
                    assert(list::list_of(Seq::<FunctionParam<'s>>::empty()) is Empty);
                    assert(found.push(item) =~= found + read);
                    assert(found.len() == 0 ==> found + read =~= read);
                    assert(read.drop_first() =~= Seq::empty());
                    read
                }
            },
            Err(_) => Seq::empty(),
        }
    }
}

pub(crate) proof fn lemma_params<'s>(items: Seq<TokenItem<'s>>, at: int)
    requires
        0 <= at <= items.len() <= usize::MAX,
    ensures
        match function::params_at(items, at) {
            Ok((next, tree)) => {
                &&& at < next <= items.len()
                &&& spelling::end_of_params(tree, items, Some(at)) == Some(next)
            },
            Err(error) => spelling::is_wrong(items, at, error),
        },
    decreases grammar::left(items, at), 0nat,
{
    reveal(function::params_at);
    reveal(function::param_list_from);
    reveal(spelling::end_of_params);
    reveal(spelling::end_of_param_list);
    if spelling::is_at(items, at, TerminalToken::OpenBracket) {
        let _ = lemma_param_list(items, at + 1, Seq::empty());
    }
}

pub(crate) proof fn lemma_definition<'s>(items: Seq<TokenItem<'s>>, at: int)
    requires
        0 <= at <= items.len() <= usize::MAX,
    ensures
        match function::definition_at(items, at) {
            Ok((next, tree)) => {
                &&& at < next <= items.len()
                &&& spelling::end_of_function(tree, items, Some(at)) == Some(next)
            },
            Err(error) => spelling::is_wrong(items, at, error),
        },
    decreases grammar::left(items, at), 1nat,
{
    reveal(function::definition_at);
    reveal(function::param_list_from);
    reveal(spelling::end_of_function);
    reveal(spelling::end_of_param_list);
    if spelling::is_at(items, at, TerminalToken::OpenBracket) {
        let _ = lemma_param_list(items, at + 1, Seq::empty());
        if let Ok((after_params, _)) = function::param_list_from(items, at + 1, Seq::empty()) {
            super::statement::lemma_statement(items, after_params);
        }
    }
}

} // verus!
