use crate::ast::{Identifier, Statement};
use crate::lexer::TokenItem;
use crate::list;
use crate::parser::{grammar, spelling, statement};
use crate::token::TerminalToken;
use vstd::prelude::*;

verus! {

pub(crate) proof fn lemma_statements<'s>(
    items: Seq<TokenItem<'s>>,
    at: int,
    found: Seq<Statement<'s>>,
) -> (read: Seq<Statement<'s>>)
    requires
        0 <= at <= items.len() <= usize::MAX,
    ensures
        match statement::statements_from(items, at, found) {
            Ok((next, tree)) => {
                &&& at < next <= items.len()
                &&& tree == list::list_of(found + read)
                &&& found.len() == 0 ==> tree == list::list_of(read)
                &&& spelling::behind(
                    items,
                    spelling::end_of_statements(list::list_of(read), items, Some(at)),
                    TerminalToken::CloseBrace,
                ) == Some(next)
            },
            Err(error) => spelling::is_wrong(items, at, error),
        },
    decreases grammar::left(items, at), 31nat,
{
    reveal(statement::statements_from);
    reveal(statement::statement_at);
    reveal(spelling::end_of_statements);
    reveal(spelling::end_of_statement);
    if spelling::is_at(items, at, TerminalToken::CloseBrace) || at >= items.len() {
        assert(found + Seq::empty() =~= found);
        Seq::empty()
    } else {
        lemma_statement(items, at);
        match statement::statement_at(items, at) {
            Ok((next, item)) => {
                let behind = next;
                let rest = lemma_statements(items, behind, found.push(item));
                let read = seq![item] + rest;
                assert(found.push(item) + rest =~= found + read);
                assert(found.len() == 0 ==> found + read =~= read);
                assert(read.drop_first() =~= rest);
                read
            },
            Err(_) => Seq::empty(),
        }
    }
}

pub(crate) proof fn lemma_block<'s>(items: Seq<TokenItem<'s>>, at: int)
    requires
        0 <= at <= items.len() <= usize::MAX,
    ensures
        match statement::block_at(items, at) {
            Ok((next, tree)) => {
                &&& at < next <= items.len()
                &&& spelling::end_of_statement_type(tree, items, Some(at)) == Some(next)
            },
            Err(error) => spelling::is_wrong(items, at, error),
        },
    decreases grammar::left(items, at), 1nat,
{
    reveal(statement::block_at);
    reveal(statement::statements_from);
    reveal(spelling::end_of_statement_type);
    reveal(spelling::end_of_statements);
    if spelling::is_at(items, at, TerminalToken::OpenBrace) {
        let _ = lemma_statements(items, at + 1, Seq::empty());
    }
}

pub(crate) proof fn lemma_statement_type<'s>(items: Seq<TokenItem<'s>>, at: int)
    requires
        0 <= at <= items.len() <= usize::MAX,
    ensures
        match statement::statement_type_at(items, at) {
            Ok((next, tree)) => {
                &&& at < next <= items.len()
                &&& spelling::end_of_statement_type(tree, items, Some(at)) == Some(next)
            },
            Err(error) => spelling::is_wrong(items, at, error),
        },
    decreases grammar::left(items, at), 29nat,
{
    reveal(statement::statement_type_at);
    reveal(statement::block_at);
    reveal(spelling::end_of_statement_type);
    if at < items.len() {
        if items[at].token.ty is Identifier
            || spelling::is_at(items, at, TerminalToken::FunctionRef) {
            super::definition::lemma_typed_definition(items, at);
        } else if spelling::is_at(items, at, TerminalToken::OpenBrace) {
            lemma_block(items, at);
        } else if spelling::is_at(items, at, TerminalToken::If) {
            super::control::lemma_if_statement(items, at);
        } else if spelling::is_at(items, at, TerminalToken::While) {
            super::control::lemma_while_statement(items, at);
        } else if spelling::is_at(items, at, TerminalToken::Do) {
            super::control::lemma_do_statement(items, at);
        } else if spelling::is_at(items, at, TerminalToken::For) {
            super::control::lemma_for_statement(items, at);
        } else if spelling::is_at(items, at, TerminalToken::Foreach) {
            super::control::lemma_foreach_statement(items, at);
        } else if spelling::is_at(items, at, TerminalToken::Switch) {
            super::control::lemma_switch_statement(items, at);
        } else if spelling::is_at(items, at, TerminalToken::Return) {
            super::control::lemma_return_statement(items, at);
        } else if spelling::is_at(items, at, TerminalToken::Yield) {
            super::control::lemma_yield_statement(items, at);
        } else if spelling::is_at(items, at, TerminalToken::Throw) {
            super::control::lemma_throw_statement(items, at);
        } else if spelling::is_at(items, at, TerminalToken::Try) {
            super::control::lemma_try_statement(items, at);
        } else if spelling::is_at(items, at, TerminalToken::Const) {
            super::definition::lemma_const_statement(items, at);
        } else if spelling::is_at(items, at, TerminalToken::Enum) {
            super::definition::lemma_enum_definition(items, at);
        } else if spelling::is_at(items, at, TerminalToken::Typedef) {
            super::definition::lemma_type_definition(items, at);
        } else if spelling::is_at(items, at, TerminalToken::Class) {
            super::definition::lemma_class_definition(items, at);
        } else if spelling::is_at(items, at, TerminalToken::Local) {
            super::definition::lemma_local_definition(items, at);
        } else if spelling::is_at(items, at, TerminalToken::Thread) {
            super::control::lemma_thread_statement(items, at);
        } else if spelling::is_at(items, at, TerminalToken::WaitThread) {
            super::control::lemma_wait_thread_statement(items, at);
        } else if spelling::is_at(items, at, TerminalToken::WaitThreadSolo) {
            super::control::lemma_wait_thread_solo_statement(items, at);
        } else if spelling::is_at(items, at, TerminalToken::DelayThread) {
            super::control::lemma_delay_thread_statement(items, at);
        } else if spelling::is_at(items, at, TerminalToken::Wait) {
            super::control::lemma_wait_statement(items, at);
        } else if spelling::is_at(items, at, TerminalToken::Struct) {
            super::definition::lemma_struct_var_definition(items, at);
            super::definition::lemma_struct_definition(items, at);
        } else if spelling::is_at(items, at, TerminalToken::Function) {
            super::definition::lemma_expression_statement(items, at);
            super::definition::lemma_function_definition(items, at);
        } else if spelling::is_at(items, at, TerminalToken::Global) {
            super::definition::lemma_global_function(items, at);
            super::definition::lemma_global_definition(items, at);
        } else {
            super::definition::lemma_expression_statement(items, at);
        }
    }
}

pub(crate) proof fn lemma_statement<'s>(items: Seq<TokenItem<'s>>, at: int)
    requires
        0 <= at <= items.len() <= usize::MAX,
    ensures
        match statement::statement_at(items, at) {
            Ok((next, tree)) => {
                &&& at < next <= items.len()
                &&& spelling::end_of_statement(tree, items, Some(at)) == Some(next)
            },
            Err(error) => spelling::is_wrong(items, at, error),
        },
    decreases grammar::left(items, at), 30nat,
{
    reveal(statement::statement_at);
    reveal(statement::statement_type_at);
    reveal(spelling::end_of_statement);
    reveal(spelling::end_of_statement_type);
    if !spelling::is_at(items, at, TerminalToken::Semicolon) {
        lemma_statement_type(items, at);
    }
}

} // verus!
