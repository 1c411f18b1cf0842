use crate::ast::{Statement, SwitchCase};
use crate::lexer::TokenItem;
use crate::list;
use crate::parser::{control, expression, grammar, name, spelling, statement, type_};
use crate::token::TerminalToken;
use vstd::prelude::*;

verus! {

pub(crate) proof fn lemma_if_statement<'s>(items: Seq<TokenItem<'s>>, at: int)
    requires
        0 <= at <= items.len() <= usize::MAX,
    ensures
        match control::if_statement_at(items, at) {
            Ok((next, tree)) => {
                &&& at < next <= items.len()
                &&& spelling::end_of_statement_type(tree, items, Some(at)) == Some(next)
            },
            Err(error) => spelling::is_wrong(items, at, error),
        },
    decreases grammar::left(items, at), 1nat,
{
    reveal(control::if_statement_at);
    reveal(control::else_body_at);
    reveal(spelling::end_of_statement_type);
    reveal(spelling::end_of_else);
    if spelling::is_at(items, at, TerminalToken::If)
        && spelling::is_at(items, at + 1, TerminalToken::OpenBracket) {
        super::expression::lemma_expression(items, at + 2);
        if let Ok((after_condition, _)) = expression::expression_at(items, at + 2) {
            if spelling::is_at(items, after_condition, TerminalToken::CloseBracket) {
                super::statement::lemma_statement(items, after_condition + 1);
                if let Ok((after_body, _)) = statement::statement_at(items, after_condition + 1) {
                    lemma_else_body(items, after_body);
                }
            }
        }
    }
}

pub(crate) proof fn lemma_else_body<'s>(items: Seq<TokenItem<'s>>, at: int)
    requires
        0 <= at <= items.len() <= usize::MAX,
    ensures
        match control::else_body_at(items, at) {
            Ok((next, tree)) => {
                &&& at <= next <= items.len()
                &&& spelling::end_of_else(tree, items, Some(at)) == Some(next)
            },
            Err(error) => spelling::is_wrong(items, at, error),
        },
    decreases grammar::left(items, at), 0nat,
{
    reveal(control::else_body_at);
    reveal(spelling::end_of_else);
    if spelling::is_at(items, at, TerminalToken::Else) {
        super::statement::lemma_statement(items, at + 1);
    }
}

pub(crate) proof fn lemma_while_statement<'s>(items: Seq<TokenItem<'s>>, at: int)
    requires
        0 <= at <= items.len() <= usize::MAX,
    ensures
        match control::while_statement_at(items, at) {
            Ok((next, tree)) => {
                &&& at < next <= items.len()
                &&& spelling::end_of_statement_type(tree, items, Some(at)) == Some(next)
            },
            Err(error) => spelling::is_wrong(items, at, error),
        },
    decreases grammar::left(items, at), 1nat,
{
    reveal(control::while_statement_at);
    reveal(spelling::end_of_statement_type);
    if spelling::is_at(items, at, TerminalToken::While)
        && spelling::is_at(items, at + 1, TerminalToken::OpenBracket) {
        super::expression::lemma_expression(items, at + 2);
        if let Ok((after_condition, _)) = expression::expression_at(items, at + 2) {
            if spelling::is_at(items, after_condition, TerminalToken::CloseBracket) {
                super::statement::lemma_statement(items, after_condition + 1);
            }
        }
    }
}

pub(crate) proof fn lemma_do_statement<'s>(items: Seq<TokenItem<'s>>, at: int)
    requires
        0 <= at <= items.len() <= usize::MAX,
    ensures
        match control::do_statement_at(items, at) {
            Ok((next, tree)) => {
                &&& at < next <= items.len()
                &&& spelling::end_of_statement_type(tree, items, Some(at)) == Some(next)
            },
            Err(error) => spelling::is_wrong(items, at, error),
        },
    decreases grammar::left(items, at), 1nat,
{
    reveal(control::do_statement_at);
    reveal(spelling::end_of_statement_type);
    if spelling::is_at(items, at, TerminalToken::Do) {
        super::statement::lemma_statement(items, at + 1);
        if let Ok((after_body, _)) = statement::statement_at(items, at + 1) {
            if spelling::is_at(items, after_body, TerminalToken::While)
                && spelling::is_at(items, after_body + 1, TerminalToken::OpenBracket) {
                super::expression::lemma_expression(items, after_body + 2);
            }
        }
    }
}

pub(crate) proof fn lemma_for_statement<'s>(items: Seq<TokenItem<'s>>, at: int)
    requires
        0 <= at <= items.len() <= usize::MAX,
    ensures
        match control::for_statement_at(items, at) {
            Ok((next, tree)) => {
                &&& at < next <= items.len()
                &&& spelling::end_of_statement_type(tree, items, Some(at)) == Some(next)
            },
            Err(error) => spelling::is_wrong(items, at, error),
        },
    decreases grammar::left(items, at), 1nat,
{
    reveal(control::for_statement_at);
    reveal(control::for_initializer_at);
    reveal(control::for_condition_at);
    reveal(control::for_increment_at);
    reveal(spelling::end_of_statement_type);
    reveal(spelling::end_of_for_initializer);
    reveal(spelling::end_of_option);
    if spelling::is_at(items, at, TerminalToken::For)
        && spelling::is_at(items, at + 1, TerminalToken::OpenBracket) {
        lemma_for_initializer(items, at + 2);
        if let Ok((after_initializer, _)) = control::for_initializer_at(items, at + 2) {
            if spelling::is_at(items, after_initializer, TerminalToken::Semicolon) {
                lemma_for_condition(items, after_initializer + 1);
                if let Ok(
                    (after_condition, _),
                ) = control::for_condition_at(items, after_initializer + 1) {
                    if spelling::is_at(items, after_condition, TerminalToken::Semicolon) {
                        lemma_for_increment(items, after_condition + 1);
                        if let Ok(
                            (after_increment, _),
                        ) = control::for_increment_at(items, after_condition + 1) {
                            if spelling::is_at(
                                items,
                                after_increment,
                                TerminalToken::CloseBracket,
                            ) {
                                super::statement::lemma_statement(items, after_increment + 1);
                            }
                        }
                    }
                }
            }
        }
    }
}

pub(crate) proof fn lemma_for_initializer<'s>(items: Seq<TokenItem<'s>>, at: int)
    requires
        0 <= at <= items.len() <= usize::MAX,
    ensures
        match control::for_initializer_at(items, at) {
            Ok((next, tree)) => {
                &&& at <= next <= items.len()
                &&& spelling::end_of_for_initializer(tree, items, Some(at)) == Some(next)
            },
            Err(error) => spelling::is_wrong(items, at, error),
        },
    decreases grammar::left(items, at), 18nat,
{
    reveal(control::for_initializer_at);
    reveal(control::for_expression_at);
    reveal(spelling::end_of_for_initializer);
    reveal(spelling::end_of_definition);
    if spelling::is_at(items, at, TerminalToken::Semicolon) {
    } else if spelling::is_at(items, at, TerminalToken::Local) {
        let _ = super::variable::lemma_variables(items, at + 1, Seq::empty());
    } else {
        super::type_::lemma_type(items, at);
        lemma_for_expression(items, at);
        if let Ok((next, _)) = type_::type__at(items, at) {
            let _ = super::variable::lemma_variables(items, next, Seq::empty());
        }
    }
}

pub(crate) proof fn lemma_for_expression<'s>(items: Seq<TokenItem<'s>>, at: int)
    requires
        0 <= at <= items.len() <= usize::MAX,
    ensures
        match control::for_expression_at(items, at) {
            Ok((next, tree)) => {
                &&& at < next <= items.len()
                &&& spelling::end_of_for_initializer(tree, items, Some(at)) == Some(next)
            },
            Err(error) => spelling::is_wrong(items, at, error),
        },
    decreases grammar::left(items, at), 17nat,
{
    reveal(control::for_expression_at);
    reveal(spelling::end_of_for_initializer);
    super::expression::lemma_expression(items, at);
}

pub(crate) proof fn lemma_for_condition<'s>(items: Seq<TokenItem<'s>>, at: int)
    requires
        0 <= at <= items.len() <= usize::MAX,
    ensures
        match control::for_condition_at(items, at) {
            Ok((next, tree)) => {
                &&& at <= next <= items.len()
                &&& spelling::end_of_option(tree, items, Some(at)) == Some(next)
            },
            Err(error) => spelling::is_wrong(items, at, error),
        },
    decreases grammar::left(items, at), 17nat,
{
    reveal(control::for_condition_at);
    reveal(spelling::end_of_option);
    super::expression::lemma_expression(items, at);
}

pub(crate) proof fn lemma_for_increment<'s>(items: Seq<TokenItem<'s>>, at: int)
    requires
        0 <= at <= items.len() <= usize::MAX,
    ensures
        match control::for_increment_at(items, at) {
            Ok((next, tree)) => {
                &&& at <= next <= items.len()
                &&& spelling::end_of_option(tree, items, Some(at)) == Some(next)
            },
            Err(error) => spelling::is_wrong(items, at, error),
        },
    decreases grammar::left(items, at), 17nat,
{
    reveal(control::for_increment_at);
    reveal(spelling::end_of_option);
    super::expression::lemma_expression(items, at);
}

pub(crate) proof fn lemma_foreach_statement<'s>(items: Seq<TokenItem<'s>>, at: int)
    requires
        0 <= at <= items.len() <= usize::MAX,
    ensures
        match control::foreach_statement_at(items, at) {
            Ok((next, tree)) => {
                &&& at < next <= items.len()
                &&& spelling::end_of_statement_type(tree, items, Some(at)) == Some(next)
            },
            Err(error) => spelling::is_wrong(items, at, error),
        },
    decreases grammar::left(items, at), 1nat,
{
    reveal(control::foreach_statement_at);
    reveal(control::foreach_names_at);
    reveal(spelling::end_of_statement_type);
    if spelling::is_at(items, at, TerminalToken::Foreach)
        && spelling::is_at(items, at + 1, TerminalToken::OpenBracket) {
        lemma_foreach_names(items, at + 2);
        if let Ok((after_names, _)) = control::foreach_names_at(items, at + 2) {
            if spelling::is_at(items, after_names, TerminalToken::In) {
                super::expression::lemma_expression(items, after_names + 1);
                if let Ok((after_array, _)) = expression::expression_at(items, after_names + 1) {
                    if spelling::is_at(items, after_array, TerminalToken::CloseBracket) {
                        super::statement::lemma_statement(items, after_array + 1);
                    }
                }
            }
        }
    }
}

pub(crate) proof fn lemma_foreach_names<'s>(items: Seq<TokenItem<'s>>, at: int)
    requires
        0 <= at <= items.len() <= usize::MAX,
    ensures
        match control::foreach_names_at(items, at) {
            Ok((next, tree)) => {
                let start = match tree.0 {
                    Some(index) => spelling::behind(
                        items,
                        spelling::end_of_typed_name(index.ty, index.name, items, Some(at)),
                        TerminalToken::Comma,
                    ),
                    None => Some(at),
                };
                &&& at < next <= items.len()
                &&& spelling::end_of_typed_name(tree.1.ty, tree.1.name, items, start) == Some(next)
            },
            Err(error) => spelling::is_wrong(items, at, error),
        },
    decreases grammar::left(items, at), 6nat,
{
    reveal(control::foreach_names_at);
    super::type_::lemma_typed_name(items, at);
    if let Ok((next, _)) = type_::typed_name_at(items, at) {
        if spelling::is_at(items, next, TerminalToken::Comma) {
            super::type_::lemma_typed_name(items, next + 1);
        }
    }
}

pub(crate) proof fn lemma_switch_statement<'s>(items: Seq<TokenItem<'s>>, at: int)
    requires
        0 <= at <= items.len() <= usize::MAX,
    ensures
        match control::switch_statement_at(items, at) {
            Ok((next, tree)) => {
                &&& at < next <= items.len()
                &&& spelling::end_of_statement_type(tree, items, Some(at)) == Some(next)
            },
            Err(error) => spelling::is_wrong(items, at, error),
        },
    decreases grammar::left(items, at), 1nat,
{
    reveal(control::switch_statement_at);
    reveal(control::cases_from);
    reveal(spelling::end_of_statement_type);
    reveal(spelling::end_of_cases);
    if spelling::is_at(items, at, TerminalToken::Switch)
        && spelling::is_at(items, at + 1, TerminalToken::OpenBracket) {
        super::expression::lemma_expression(items, at + 2);
        if let Ok((after_value, _)) = expression::expression_at(items, at + 2) {
            if spelling::is_at(items, after_value, TerminalToken::CloseBracket)
                && spelling::is_at(items, after_value + 1, TerminalToken::OpenBrace) {
                let _ = lemma_cases(items, after_value + 2, Seq::empty());
            }
        }
    }
}

pub(crate) proof fn lemma_cases<'s>(
    items: Seq<TokenItem<'s>>,
    at: int,
    found: Seq<SwitchCase<'s>>,
) -> (read: Seq<SwitchCase<'s>>)
    requires
        0 <= at <= items.len() <= usize::MAX,
    ensures
        match control::cases_from(items, at, found) {
            Ok((next, tree)) => {
                &&& at < next <= items.len()
                &&& tree == list::list_of(found + read)
                &&& found.len() == 0 ==> tree == list::list_of(read)
                &&& spelling::behind(
                    items,
                    spelling::end_of_cases(list::list_of(read), items, Some(at)),
                    TerminalToken::CloseBrace,
                ) == Some(next)
            },
            Err(error) => spelling::is_wrong(items, at, error),
        },
    decreases grammar::left(items, at), 2nat,
{
    reveal(control::cases_from);
    reveal(control::case_at);
    reveal(spelling::end_of_cases);
    reveal(spelling::end_of_case);
    if spelling::is_at(items, at, TerminalToken::CloseBrace) || at >= items.len() {
        assert(found + Seq::empty() =~= found);
        Seq::empty()
    } else {
        lemma_case(items, at);
        match control::case_at(items, at) {
            Ok((next, item)) => {
                let behind = next;
                let rest = lemma_cases(items, behind, found.push(item));
                let read = seq![item] + rest;
                assert(found.push(item) + rest =~= found + read);
                assert(found.len() == 0 ==> found + read =~= read);
                assert(read.drop_first() =~= rest);
                read
            },
            Err(_) => Seq::empty(),
        }
    }
}

pub(crate) proof fn lemma_value_case<'s>(items: Seq<TokenItem<'s>>, at: int)
    requires
        0 <= at <= items.len() <= usize::MAX,
    ensures
        match control::value_case_at(items, at) {
            Ok((next, tree)) => {
                &&& at < next <= items.len()
                &&& spelling::end_of_case(tree, items, Some(at)) == Some(next)
            },
            Err(error) => spelling::is_wrong(items, at, error),
        },
    decreases grammar::left(items, at), 0nat,
{
    reveal(control::value_case_at);
    reveal(control::case_body_from);
    reveal(spelling::end_of_case);
    reveal(spelling::end_of_statements);
    if spelling::is_at(items, at, TerminalToken::Case) {
        super::expression::lemma_expression(items, at + 1);
        if let Ok((after_value, _)) = expression::expression_at(items, at + 1) {
            if spelling::is_at(items, after_value, TerminalToken::Colon) {
                let _ = lemma_case_body(items, after_value + 1, Seq::empty());
            }
        }
    }
}

pub(crate) proof fn lemma_default_case<'s>(items: Seq<TokenItem<'s>>, at: int)
    requires
        0 <= at <= items.len() <= usize::MAX,
    ensures
        match control::default_case_at(items, at) {
            Ok((next, tree)) => {
                &&& at < next <= items.len()
                &&& spelling::end_of_case(tree, items, Some(at)) == Some(next)
            },
            Err(error) => spelling::is_wrong(items, at, error),
        },
    decreases grammar::left(items, at), 0nat,
{
    reveal(control::default_case_at);
    reveal(control::case_body_from);
    reveal(spelling::end_of_case);
    reveal(spelling::end_of_statements);
    if spelling::is_at(items, at, TerminalToken::Default)
        && spelling::is_at(items, at + 1, TerminalToken::Colon) {
        let _ = lemma_case_body(items, at + 2, Seq::empty());
    }
}

pub(crate) proof fn lemma_case<'s>(items: Seq<TokenItem<'s>>, at: int)
    requires
        0 <= at <= items.len() <= usize::MAX,
    ensures
        match control::case_at(items, at) {
            Ok((next, tree)) => {
                &&& at < next <= items.len()
                &&& spelling::end_of_case(tree, items, Some(at)) == Some(next)
            },
            Err(error) => spelling::is_wrong(items, at, error),
        },
    decreases grammar::left(items, at), 1nat,
{
    reveal(control::case_at);
    reveal(control::default_case_at);
    reveal(control::value_case_at);
    reveal(spelling::end_of_case);
    if spelling::is_at(items, at, TerminalToken::Default) {
        lemma_default_case(items, at);
    } else {
        lemma_value_case(items, at);
    }
}

pub(crate) proof fn lemma_case_body<'s>(
    items: Seq<TokenItem<'s>>,
    at: int,
    found: Seq<Statement<'s>>,
) -> (read: Seq<Statement<'s>>)
    requires
        0 <= at <= items.len() <= usize::MAX,
    ensures
        match control::case_body_from(items, at, found) {
            Ok((next, tree)) => {
                &&& at <= next <= items.len()
                &&& tree == list::list_of(found + read)
                &&& found.len() == 0 ==> tree == list::list_of(read)
                &&& spelling::end_of_statements(list::list_of(read), items, Some(at)) == Some(next)
            },
            Err(error) => spelling::is_wrong(items, at, error),
        },
    decreases grammar::left(items, at), 31nat,
{
    reveal(control::case_body_from);
    reveal(spelling::end_of_statements);
    if at >= items.len() || spelling::is_at(items, at, TerminalToken::Case) || spelling::is_at(
        items,
        at,
        TerminalToken::Default,
    ) || spelling::is_at(items, at, TerminalToken::CloseBrace) {
        assert(found + Seq::empty() =~= found);
        Seq::empty()
    } else {
        super::statement::lemma_statement(items, at);
        match statement::statement_at(items, at) {
            Ok((next, item)) => {
                let rest = lemma_case_body(items, next, found.push(item));
                let read = seq![item] + rest;
                assert(found.push(item) + rest =~= found + read);
                assert(found.len() == 0 ==> found + read =~= read);
                assert(read.drop_first() =~= rest);
                read
            },
            Err(_) => Seq::empty(),
        }
    }
}

pub(crate) proof fn lemma_try_statement<'s>(items: Seq<TokenItem<'s>>, at: int)
    requires
        0 <= at <= items.len() <= usize::MAX,
    ensures
        match control::try_statement_at(items, at) {
            Ok((next, tree)) => {
                &&& at < next <= items.len()
                &&& spelling::end_of_statement_type(tree, items, Some(at)) == Some(next)
            },
            Err(error) => spelling::is_wrong(items, at, error),
        },
    decreases grammar::left(items, at), 1nat,
{
    reveal(control::try_statement_at);
    reveal(spelling::end_of_statement_type);
    if spelling::is_at(items, at, TerminalToken::Try) {
        super::statement::lemma_statement(items, at + 1);
        if let Ok((after_body, _)) = statement::statement_at(items, at + 1) {
            if spelling::is_at(items, after_body, TerminalToken::Catch)
                && spelling::is_at(items, after_body + 1, TerminalToken::OpenBracket) {
                if let Ok((after_name, _)) = name::identifier_at(items, after_body + 2) {
                    if spelling::is_at(items, after_name, TerminalToken::CloseBracket) {
                        super::statement::lemma_statement(items, after_name + 1);
                    }
                }
            }
        }
    }
}

pub(crate) proof fn lemma_return_statement<'s>(items: Seq<TokenItem<'s>>, at: int)
    requires
        0 <= at <= items.len() <= usize::MAX,
    ensures
        match control::return_statement_at(items, at) {
            Ok((next, tree)) => {
                &&& at < next <= items.len()
                &&& spelling::end_of_statement_type(tree, items, Some(at)) == Some(next)
            },
            Err(error) => spelling::is_wrong(items, at, error),
        },
    decreases grammar::left(items, at), 1nat,
{
    reveal(control::return_statement_at);
    reveal(control::value_at);
    reveal(spelling::end_of_statement_type);
    reveal(spelling::end_of_value);
    if spelling::is_at(items, at, TerminalToken::Return) {
        lemma_value(items, at + 1);
    }
}

pub(crate) proof fn lemma_yield_statement<'s>(items: Seq<TokenItem<'s>>, at: int)
    requires
        0 <= at <= items.len() <= usize::MAX,
    ensures
        match control::yield_statement_at(items, at) {
            Ok((next, tree)) => {
                &&& at < next <= items.len()
                &&& spelling::end_of_statement_type(tree, items, Some(at)) == Some(next)
            },
            Err(error) => spelling::is_wrong(items, at, error),
        },
    decreases grammar::left(items, at), 1nat,
{
    reveal(control::yield_statement_at);
    reveal(control::value_at);
    reveal(spelling::end_of_statement_type);
    reveal(spelling::end_of_value);
    if spelling::is_at(items, at, TerminalToken::Yield) {
        lemma_value(items, at + 1);
    }
}

pub(crate) proof fn lemma_value<'s>(items: Seq<TokenItem<'s>>, at: int)
    requires
        0 <= at <= items.len() <= usize::MAX,
    ensures
        match control::value_at(items, at) {
            Ok((next, tree)) => {
                &&& at <= next <= items.len()
                &&& spelling::end_of_value(tree, items, Some(at)) == Some(next)
            },
            Err(error) => spelling::is_wrong(items, at, error),
        },
    decreases grammar::left(items, at), 17nat,
{
    reveal(control::value_at);
    reveal(spelling::end_of_value);
    super::expression::lemma_expression(items, at);
}

pub(crate) proof fn lemma_throw_statement<'s>(items: Seq<TokenItem<'s>>, at: int)
    requires
        0 <= at <= items.len() <= usize::MAX,
    ensures
        match control::throw_statement_at(items, at) {
            Ok((next, tree)) => {
                &&& at < next <= items.len()
                &&& spelling::end_of_statement_type(tree, items, Some(at)) == Some(next)
            },
            Err(error) => spelling::is_wrong(items, at, error),
        },
    decreases grammar::left(items, at), 1nat,
{
    reveal(control::throw_statement_at);
    reveal(spelling::end_of_statement_type);
    if spelling::is_at(items, at, TerminalToken::Throw) {
        super::expression::lemma_expression(items, at + 1);
    }
}

pub(crate) proof fn lemma_thread_statement<'s>(items: Seq<TokenItem<'s>>, at: int)
    requires
        0 <= at <= items.len() <= usize::MAX,
    ensures
        match control::thread_statement_at(items, at) {
            Ok((next, tree)) => {
                &&& at < next <= items.len()
                &&& spelling::end_of_statement_type(tree, items, Some(at)) == Some(next)
            },
            Err(error) => spelling::is_wrong(items, at, error),
        },
    decreases grammar::left(items, at), 1nat,
{
    reveal(control::thread_statement_at);
    reveal(spelling::end_of_statement_type);
    if spelling::is_at(items, at, TerminalToken::Thread) {
        super::expression::lemma_expression(items, at + 1);
    }
}

pub(crate) proof fn lemma_wait_thread_statement<'s>(items: Seq<TokenItem<'s>>, at: int)
    requires
        0 <= at <= items.len() <= usize::MAX,
    ensures
        match control::wait_thread_statement_at(items, at) {
            Ok((next, tree)) => {
                &&& at < next <= items.len()
                &&& spelling::end_of_statement_type(tree, items, Some(at)) == Some(next)
            },
            Err(error) => spelling::is_wrong(items, at, error),
        },
    decreases grammar::left(items, at), 1nat,
{
    reveal(control::wait_thread_statement_at);
    reveal(spelling::end_of_statement_type);
    if spelling::is_at(items, at, TerminalToken::WaitThread) {
        super::expression::lemma_expression(items, at + 1);
    }
}

pub(crate) proof fn lemma_wait_thread_solo_statement<'s>(items: Seq<TokenItem<'s>>, at: int)
    requires
        0 <= at <= items.len() <= usize::MAX,
    ensures
        match control::wait_thread_solo_statement_at(items, at) {
            Ok((next, tree)) => {
                &&& at < next <= items.len()
                &&& spelling::end_of_statement_type(tree, items, Some(at)) == Some(next)
            },
            Err(error) => spelling::is_wrong(items, at, error),
        },
    decreases grammar::left(items, at), 1nat,
{
    reveal(control::wait_thread_solo_statement_at);
    reveal(spelling::end_of_statement_type);
    if spelling::is_at(items, at, TerminalToken::WaitThreadSolo) {
        super::expression::lemma_expression(items, at + 1);
    }
}

pub(crate) proof fn lemma_wait_statement<'s>(items: Seq<TokenItem<'s>>, at: int)
    requires
        0 <= at <= items.len() <= usize::MAX,
    ensures
        match control::wait_statement_at(items, at) {
            Ok((next, tree)) => {
                &&& at < next <= items.len()
                &&& spelling::end_of_statement_type(tree, items, Some(at)) == Some(next)
            },
            Err(error) => spelling::is_wrong(items, at, error),
        },
    decreases grammar::left(items, at), 1nat,
{
    reveal(control::wait_statement_at);
    reveal(spelling::end_of_statement_type);
    if spelling::is_at(items, at, TerminalToken::Wait) {
        super::expression::lemma_expression(items, at + 1);
    }
}

pub(crate) proof fn lemma_delay_thread_statement<'s>(items: Seq<TokenItem<'s>>, at: int)
    requires
        0 <= at <= items.len() <= usize::MAX,
    ensures
        match control::delay_thread_statement_at(items, at) {
            Ok((next, tree)) => {
                &&& at < next <= items.len()
                &&& spelling::end_of_statement_type(tree, items, Some(at)) == Some(next)
            },
            Err(error) => spelling::is_wrong(items, at, error),
        },
    decreases grammar::left(items, at), 1nat,
{
    reveal(control::delay_thread_statement_at);
    reveal(spelling::end_of_statement_type);
    if spelling::is_at(items, at, TerminalToken::DelayThread)
        && spelling::is_at(items, at + 1, TerminalToken::OpenBracket) {
        super::expression::lemma_expression(items, at + 2);
        if let Ok((after_duration, _)) = expression::expression_at(items, at + 2) {
            if spelling::is_at(items, after_duration, TerminalToken::CloseBracket) {
                super::expression::lemma_expression(items, after_duration + 1);
            }
        }
    }
}

} // verus!
