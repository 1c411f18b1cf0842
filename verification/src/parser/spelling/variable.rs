use crate::ast::Variable;
use crate::lexer::TokenItem;
use crate::list;
use crate::parser::{grammar, name, spelling, variable};
use crate::token::TerminalToken;
use vstd::prelude::*;

verus! {

pub(crate) proof fn lemma_initializer<'s>(items: Seq<TokenItem<'s>>, at: int)
    requires
        0 <= at <= items.len() <= usize::MAX,
    ensures
        match variable::initializer_at(items, at) {
            Ok((next, tree)) => {
                &&& at <= next <= items.len()
                &&& spelling::end_of_initializer(tree, items, Some(at)) == Some(next)
            },
            Err(error) => spelling::is_wrong(items, at, error),
        },
    decreases grammar::left(items, at), 0nat,
{
    reveal(variable::initializer_at);
    reveal(spelling::end_of_initializer);
    if spelling::is_at(items, at, TerminalToken::Assign) {
        super::expression::lemma_expression(items, at + 1);
    }
}

pub(crate) proof fn lemma_variable<'s>(items: Seq<TokenItem<'s>>, at: int)
    requires
        0 <= at <= items.len() <= usize::MAX,
    ensures
        match variable::variable_at(items, at) {
            Ok((next, tree)) => {
                &&& at < next <= items.len()
                &&& spelling::end_of_variable(tree, items, Some(at)) == Some(next)
            },
            Err(error) => spelling::is_wrong(items, at, error),
        },
    decreases grammar::left(items, at), 1nat,
{
    reveal(variable::variable_at);
    reveal(variable::initializer_at);
    reveal(spelling::end_of_variable);
    reveal(spelling::end_of_initializer);
    if let Ok((after_name, _)) = name::identifier_at(items, at) {
        lemma_initializer(items, after_name);
    }
}

pub(crate) proof fn lemma_variables<'s>(
    items: Seq<TokenItem<'s>>,
    at: int,
    found: Seq<Variable<'s>>,
) -> (read: Seq<Variable<'s>>)
    requires
        0 <= at <= items.len() <= usize::MAX,
    ensures
        match variable::variables_from(items, at, found) {
            Ok((next, tree)) => {
                &&& at < next <= items.len()
                &&& read.len() > 0
                &&& tree == list::list_of(found + read)
                &&& found.len() == 0 ==> tree == list::list_of(read)
                &&& spelling::end_of_variables(list::list_of(read), items, Some(at)) == Some(next)
            },
            Err(error) => spelling::is_wrong(items, at, error),
        },
    decreases grammar::left(items, at), 2nat,
{
    reveal(variable::variables_from);
    reveal(variable::variable_at);
    reveal(spelling::end_of_variables);
    reveal(spelling::end_of_variable);
    lemma_variable(items, at);
    match variable::variable_at(items, at) {
        Ok((next, item)) => {
            if spelling::is_at(items, next, TerminalToken::Comma) {
                let rest = lemma_variables(items, next + 1, found.push(item));
                let read = seq![item] + rest;
                assert(found.push(item) + rest =~= found + read);
                assert(found.len() == 0 ==> found + read =~= read);
                assert(read.drop_first() =~= rest);
                read
            } else {
                let read = seq![item];
                assert(list::list_of(Seq::<Variable<'s>>::empty()) is Empty);
                assert(found.push(item) =~= found + read);
                assert(found.len() == 0 ==> found + read =~= read);
                assert(read.drop_first() =~= Seq::empty());
                read
            }
        },
        Err(_) => Seq::empty(),
    }
}

} // verus!
