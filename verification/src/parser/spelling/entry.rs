use crate::ast::{Expression, TableEntry};
use crate::lexer::TokenItem;
use crate::list;
use crate::parser::{expression, grammar, name, spelling};
use crate::token::TerminalToken;
use vstd::prelude::*;

verus! {

pub(crate) proof fn lemma_elements<'s>(
    items: Seq<TokenItem<'s>>,
    at: int,
    found: Seq<Expression<'s>>,
) -> (read: Seq<Expression<'s>>)
    requires
        0 <= at <= items.len() <= usize::MAX,
    ensures
        match expression::elements_from(items, at, found) {
            Ok((next, tree)) => {
                &&& at < next <= items.len()
                &&& tree == list::list_of(found + read)
                &&& found.len() == 0 ==> tree == list::list_of(read)
                &&& spelling::behind(
                    items,
                    spelling::end_of_elements(list::list_of(read), items, Some(at)),
                    TerminalToken::CloseSquare,
                ) == Some(next)
            },
            Err(error) => spelling::is_wrong(items, at, error),
        },
    decreases grammar::left(items, at), 17nat,
{
    reveal(expression::elements_from);
    reveal(spelling::end_of_elements);
    if spelling::is_at(items, at, TerminalToken::CloseSquare) || at >= items.len() {
        assert(found + Seq::empty() =~= found);
        Seq::empty()
    } else {
        super::expression::lemma_expression(items, at);
        match expression::expression_at(items, at) {
            Ok((next, item)) => {
                let behind = if spelling::is_at(items, next, TerminalToken::Comma) {
                    next + 1
                } else {
                    next
                };
                let rest = lemma_elements(items, behind, found.push(item));
                let read = seq![item] + rest;
                assert(found.push(item) + rest =~= found + read);
                assert(found.len() == 0 ==> found + read =~= read);
                assert(read.drop_first() =~= rest);
                read
            },
            Err(_) => Seq::empty(),
        }
    }
}

pub(crate) proof fn lemma_arguments<'s>(
    items: Seq<TokenItem<'s>>,
    at: int,
    found: Seq<Expression<'s>>,
) -> (read: Seq<Expression<'s>>)
    requires
        0 <= at <= items.len() <= usize::MAX,
    ensures
        match expression::arguments_from(items, at, found) {
            Ok((next, tree)) => {
                &&& at < next <= items.len()
                &&& tree == list::list_of(found + read)
                &&& found.len() == 0 ==> tree == list::list_of(read)
                &&& spelling::behind(
                    items,
                    spelling::end_of_arguments(list::list_of(read), items, Some(at)),
                    TerminalToken::CloseBracket,
                ) == Some(next)
            },
            Err(error) => spelling::is_wrong(items, at, error),
        },
    decreases grammar::left(items, at), 17nat,
{
    reveal(expression::arguments_from);
    reveal(spelling::end_of_arguments);
    if spelling::is_at(items, at, TerminalToken::CloseBracket) || at >= items.len() {
        assert(found + Seq::empty() =~= found);
        Seq::empty()
    } else {
        super::expression::lemma_expression(items, at);
        match expression::expression_at(items, at) {
            Ok((next, item)) => {
                if spelling::is_at(items, next, TerminalToken::Comma) {
                    let rest = lemma_arguments(items, next + 1, found.push(item));
                    let read = seq![item] + rest;
                    assert(found.push(item) + rest =~= found + read);
                    assert(found.len() == 0 ==> found + read =~= read);
                    assert(read.drop_first() =~= rest);
                    read
                } else {
                    let read = seq![item];
                    assert(list::list_of(Seq::<Expression<'s>>::empty()) is Empty);
                    assert(found.push(item) =~= found + read);
                    assert(found.len() == 0 ==> found + read =~= read);
                    assert(read.drop_first() =~= Seq::empty());
                    read
                }
            },
            Err(_) => Seq::empty(),
        }
    }
}

pub(crate) proof fn lemma_entries<'s>(
    items: Seq<TokenItem<'s>>,
    at: int,
    found: Seq<TableEntry<'s>>,
) -> (read: Seq<TableEntry<'s>>)
    requires
        0 <= at <= items.len() <= usize::MAX,
    ensures
        match expression::entries_from(items, at, found) {
            Ok((next, tree)) => {
                &&& at < next <= items.len()
                &&& tree == list::list_of(found + read)
                &&& found.len() == 0 ==> tree == list::list_of(read)
                &&& spelling::behind(
                    items,
                    spelling::end_of_entries(list::list_of(read), items, Some(at)),
                    TerminalToken::CloseBrace,
                ) == Some(next)
            },
            Err(error) => spelling::is_wrong(items, at, error),
        },
    decreases grammar::left(items, at), 18nat,
{
    reveal(expression::entries_from);
    reveal(expression::entry_at);
    reveal(spelling::end_of_entries);
    reveal(spelling::end_of_entry);
    if spelling::is_at(items, at, TerminalToken::CloseBrace) || at >= items.len() {
        assert(found + Seq::empty() =~= found);
        Seq::empty()
    } else {
        lemma_entry(items, at);
        match expression::entry_at(items, at) {
            Ok((next, item)) => {
                let behind = if spelling::is_at(items, next, TerminalToken::Comma) {
                    next + 1
                } else {
                    next
                };
                let rest = lemma_entries(items, behind, found.push(item));
                let read = seq![item] + rest;
                assert(found.push(item) + rest =~= found + read);
                assert(found.len() == 0 ==> found + read =~= read);
                assert(read.drop_first() =~= rest);
                read
            },
            Err(_) => Seq::empty(),
        }
    }
}

pub(crate) proof fn lemma_property_entry<'s>(items: Seq<TokenItem<'s>>, at: int)
    requires
        0 <= at <= items.len() <= usize::MAX,
    ensures
        match expression::property_entry_at(items, at) {
            Ok((next, tree)) => {
                &&& at < next <= items.len()
                &&& spelling::end_of_entry(tree, items, Some(at)) == Some(next)
            },
            Err(error) => spelling::is_wrong(items, at, error),
        },
    decreases grammar::left(items, at), 16nat,
{
    reveal(expression::property_entry_at);
    reveal(spelling::end_of_entry);
    if let Ok((after_name, _)) = name::identifier_at(items, at) {
        if spelling::is_at(items, after_name, TerminalToken::Assign) {
            super::expression::lemma_expression(items, after_name + 1);
        }
    }
}

pub(crate) proof fn lemma_index_entry<'s>(items: Seq<TokenItem<'s>>, at: int)
    requires
        0 <= at <= items.len() <= usize::MAX,
    ensures
        match expression::index_entry_at(items, at) {
            Ok((next, tree)) => {
                &&& at < next <= items.len()
                &&& spelling::end_of_entry(tree, items, Some(at)) == Some(next)
            },
            Err(error) => spelling::is_wrong(items, at, error),
        },
    decreases grammar::left(items, at), 16nat,
{
    reveal(expression::index_entry_at);
    reveal(spelling::end_of_entry);
    if spelling::is_at(items, at, TerminalToken::OpenSquare) {
        super::expression::lemma_expression(items, at + 1);
        if let Ok((after_key, _)) = expression::expression_at(items, at + 1) {
            if spelling::is_at(items, after_key, TerminalToken::CloseSquare)
                && spelling::is_at(items, after_key + 1, TerminalToken::Assign) {
                super::expression::lemma_expression(items, after_key + 2);
            }
        }
    }
}

pub(crate) proof fn lemma_function_entry<'s>(items: Seq<TokenItem<'s>>, at: int)
    requires
        0 <= at <= items.len() <= usize::MAX,
    ensures
        match expression::function_entry_at(items, at) {
            Ok((next, tree)) => {
                &&& at < next <= items.len()
                &&& spelling::end_of_entry(tree, items, Some(at)) == Some(next)
            },
            Err(error) => spelling::is_wrong(items, at, error),
        },
    decreases grammar::left(items, at), 16nat,
{
    reveal(expression::function_entry_at);
    reveal(spelling::end_of_entry);
    if spelling::is_at(items, at, TerminalToken::Function) {
        if let Ok((after_name, _)) = name::identifier_at(items, at + 1) {
            super::function::lemma_definition(items, after_name);
        }
    }
}

pub(crate) proof fn lemma_entry<'s>(items: Seq<TokenItem<'s>>, at: int)
    requires
        0 <= at <= items.len() <= usize::MAX,
    ensures
        match expression::entry_at(items, at) {
            Ok((next, tree)) => {
                &&& at < next <= items.len()
                &&& spelling::end_of_entry(tree, items, Some(at)) == Some(next)
            },
            Err(error) => spelling::is_wrong(items, at, error),
        },
    decreases grammar::left(items, at), 17nat,
{
    reveal(expression::entry_at);
    reveal(expression::index_entry_at);
    reveal(expression::function_entry_at);
    reveal(expression::property_entry_at);
    reveal(spelling::end_of_entry);
    if spelling::is_at(items, at, TerminalToken::OpenSquare) {
        lemma_index_entry(items, at);
    } else if spelling::is_at(items, at, TerminalToken::Function) {
        lemma_function_entry(items, at);
    } else {
        lemma_property_entry(items, at);
    }
}

} // verus!
