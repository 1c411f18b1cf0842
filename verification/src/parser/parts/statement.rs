use crate::ast::{Statement, StatementType};
use crate::lexer::TokenItem;
use crate::list;
use crate::list::List;
use crate::parser::error::ParseErrorType;
use crate::parser::grammar::Parsed;
use crate::parser::parts::read;
use crate::parser::{control, definition, grammar, spelling, statement};
use crate::token::{TerminalToken, TokenType};
use vstd::prelude::*;

verus! {

/// The place behind statements and the mark that ends them.
/// They stand one behind the other.
pub open spec fn chain_statements<'s>(
    tree: List<Statement<'s>>,
    items: Seq<TokenItem<'s>>,
    at: int,
) -> Option<int>
    decreases tree,
{
    match tree {
        List::Empty => spelling::behind(items, Some(at), TerminalToken::CloseBrace),
        List::Item(first, rest) => {
            if spelling::is_at(items, at, TerminalToken::CloseBrace) {
                None
            } else {
                match read::statement(*first, items, Some(at)) {
                    Some(end) => chain_statements(*rest, items, end),
                    None => None,
                }
            }
        },
    }
}

proof fn lemma_statements<'s>(
    items: Seq<TokenItem<'s>>,
    at: int,
    next: int,
    found: Seq<Statement<'s>>,
    tree: List<Statement<'s>>,
)
    requires
        0 <= at <= items.len() <= usize::MAX,
        chain_statements(tree, items, at) == Some(next),
    ensures
        statement::statements_from(items, at, found) == Parsed::Ok(
            (next, list::list_of(found + tree.items())),
        ),
    decreases tree,
{
    reveal(statement::statements_from);
    reveal(statement::statement_at);
    match tree {
        List::Empty => {
            assert(found + tree.items() =~= found);
        },
        List::Item(first, rest) => {
            spelling::statement::lemma_statement(items, at);
            assert(found.push(*first) + rest.items() =~= found + tree.items());
            if let Ok((n, _)) = statement::statement_at(items, at) {
                lemma_statements(items, n, next, found.push(*first), *rest);
            }
        },
    }
}

/// A list is read if its items are, one behind the other, up to the mark that ends it.
pub proof fn law_statements_are_read_by_their_items<'s>(
    items: Seq<TokenItem<'s>>,
    at: int,
    next: int,
    tree: List<Statement<'s>>,
)
    requires
        0 <= at <= items.len() <= usize::MAX,
        chain_statements(tree, items, at) == Some(next),
    ensures
        statement::statements_from(items, at, Seq::empty()) == Parsed::Ok((next, tree)),
{
    lemma_statements(items, at, next, Seq::empty(), tree);
    assert(Seq::empty() + tree.items() =~= tree.items());
    list::lemma_list_of_items(tree);
}

/// A list fails as its first item that cannot be read does, and where the mark that ends it is not
/// there.
pub proof fn law_statements_fail_with_their_first_item<'s>(
    items: Seq<TokenItem<'s>>,
    at: int,
    found: Seq<Statement<'s>>,
)
    requires
        0 <= at <= items.len() <= usize::MAX,
    ensures
        ({
            let parsed = statement::statements_from(items, at, found);
            let read_more = at < items.len()
                && !spelling::is_at(items, at, TerminalToken::CloseBrace);
            &&& at == items.len() ==> read::needs(
                items,
                Some(at),
                TerminalToken::CloseBrace,
                parsed,
            )
            &&& read_more ==> read::passes_on(statement::statement_at(items, at), parsed)
            &&& read_more ==> (
                statement::statement_at(items, at) matches Ok((end, item))
                    ==> parsed == statement::statements_from(
                    items,
                    end,
                    found.push(item),
                )
            )
        }),
{
    reveal(statement::statements_from);
    reveal(statement::statement_at);
    spelling::statement::lemma_statement(items, at);
}

/// Statements in braces.
/// It is read if and only if its parts are, one behind the other. The first part that is not there
/// is what is wrong.
pub proof fn law_block_is_read_by_its_parts<'s>(
    items: Seq<TokenItem<'s>>,
    at: int,
    next: int,
    statements: List<Statement<'s>>,
)
    requires
        0 <= at <= items.len() <= usize::MAX,
    ensures
        ({
            let parsed = statement::block_at(items, at);
            let tree = StatementType::Block(statements);
            let place1 = spelling::behind(items, Some(at), TerminalToken::OpenBrace);
            let place2 = read::statements(statements, items, place1);
            &&& parsed == Parsed::Ok((next, tree)) <==> place2 == Some(next)
            &&& read::needs(items, Some(at), TerminalToken::OpenBrace, parsed)
            &&& place1 is Some ==> read::passes_on(
                statement::statements_from(items, place1->0, Seq::empty()),
                parsed,
            )
        }),
{
    reveal(statement::block_at);
    reveal(statement::statements_from);
    if spelling::is_at(items, at, TerminalToken::OpenBrace) {
        let _ = spelling::statement::lemma_statements(items, at + 1, Seq::empty());
    }
}

/// Whether a terminal starts an expression and no other statement.
pub open spec fn starts_only_expressions(ty: TokenType<'_>) -> bool {
    ty matches TokenType::Terminal(terminal) && {
        ||| terminal == TerminalToken::True
        ||| terminal == TerminalToken::False
        ||| terminal == TerminalToken::Null
        ||| terminal == TerminalToken::This
        ||| terminal == TerminalToken::Base
        ||| terminal == TerminalToken::Namespace
        ||| terminal == TerminalToken::OpenBracket
        ||| terminal == TerminalToken::OpenSquare
        ||| terminal == TerminalToken::Less
        ||| terminal == TerminalToken::At
        ||| terminal == TerminalToken::Expect
        ||| terminal == TerminalToken::Subtract
        ||| terminal == TerminalToken::LogicalNot
        ||| terminal == TerminalToken::BitwiseNot
        ||| terminal == TerminalToken::Typeof
        ||| terminal == TerminalToken::Clone
        ||| terminal == TerminalToken::Delete
        ||| terminal == TerminalToken::Resume
        ||| terminal == TerminalToken::Increment
        ||| terminal == TerminalToken::Decrement
    }
}

/// What statement is read is chosen by its first tokens.
pub proof fn law_statement_is_chosen_by_its_first_tokens<'s>(
    items: Seq<TokenItem<'s>>,
    at: int,
)
    requires
        0 <= at <= items.len() <= usize::MAX,
    ensures
        spelling::is_at(items, at, TerminalToken::OpenBrace)
            ==> statement::statement_type_at(items, at) == statement::block_at(items, at),
        spelling::is_at(items, at, TerminalToken::If)
            ==> statement::statement_type_at(items, at) == control::if_statement_at(items, at),
        spelling::is_at(items, at, TerminalToken::While)
            ==> statement::statement_type_at(items, at) == control::while_statement_at(items, at),
        spelling::is_at(items, at, TerminalToken::Do)
            ==> statement::statement_type_at(items, at) == control::do_statement_at(items, at),
        spelling::is_at(items, at, TerminalToken::For)
            ==> statement::statement_type_at(items, at) == control::for_statement_at(items, at),
        spelling::is_at(items, at, TerminalToken::Foreach)
            ==> statement::statement_type_at(items, at) == control::foreach_statement_at(items, at),
        spelling::is_at(items, at, TerminalToken::Switch)
            ==> statement::statement_type_at(items, at) == control::switch_statement_at(items, at),
        spelling::is_at(items, at, TerminalToken::Return)
            ==> statement::statement_type_at(items, at) == control::return_statement_at(items, at),
        spelling::is_at(items, at, TerminalToken::Yield)
            ==> statement::statement_type_at(items, at) == control::yield_statement_at(items, at),
        spelling::is_at(items, at, TerminalToken::Throw)
            ==> statement::statement_type_at(items, at) == control::throw_statement_at(items, at),
        spelling::is_at(items, at, TerminalToken::Try)
            ==> statement::statement_type_at(items, at) == control::try_statement_at(items, at),
        spelling::is_at(items, at, TerminalToken::Const)
            ==> statement::statement_type_at(items, at)
            == definition::const_statement_at(items, at),
        spelling::is_at(items, at, TerminalToken::Enum)
            ==> statement::statement_type_at(items, at)
            == definition::enum_definition_at(items, at),
        spelling::is_at(items, at, TerminalToken::Typedef)
            ==> statement::statement_type_at(items, at)
            == definition::type_definition_at(items, at),
        spelling::is_at(items, at, TerminalToken::Class)
            ==> statement::statement_type_at(items, at)
            == definition::class_definition_at(items, at),
        spelling::is_at(items, at, TerminalToken::Local)
            ==> statement::statement_type_at(items, at)
            == definition::local_definition_at(items, at),
        spelling::is_at(items, at, TerminalToken::Thread)
            ==> statement::statement_type_at(items, at) == control::thread_statement_at(items, at),
        spelling::is_at(items, at, TerminalToken::WaitThread)
            ==> statement::statement_type_at(items, at)
            == control::wait_thread_statement_at(items, at),
        spelling::is_at(items, at, TerminalToken::WaitThreadSolo)
            ==> statement::statement_type_at(items, at)
            == control::wait_thread_solo_statement_at(items, at),
        spelling::is_at(items, at, TerminalToken::DelayThread)
            ==> statement::statement_type_at(items, at)
            == control::delay_thread_statement_at(items, at),
        spelling::is_at(items, at, TerminalToken::Wait)
            ==> statement::statement_type_at(items, at) == control::wait_statement_at(items, at),
        spelling::is_at(items, at, TerminalToken::Break)
            ==> statement::statement_type_at(items, at)
            == Parsed::Ok((at + 1, StatementType::Break)),
        spelling::is_at(items, at, TerminalToken::Continue)
            ==> statement::statement_type_at(items, at)
            == Parsed::Ok((at + 1, StatementType::Continue)),
        spelling::is_at(items, at, TerminalToken::GlobalizeAllFunctions)
            ==> statement::statement_type_at(items, at)
            == Parsed::Ok((at + 1, StatementType::GlobalizeAllFunctions)),
        spelling::is_at(items, at, TerminalToken::Untyped)
            ==> statement::statement_type_at(items, at)
            == Parsed::Ok((at + 1, StatementType::Untyped)),
        spelling::is_at(items, at, TerminalToken::Struct)
            ==> statement::statement_type_at(items, at)
            == (if spelling::is_at(items, at + 1, TerminalToken::OpenBrace) {
            definition::struct_var_definition_at(items, at)
        } else {
            definition::struct_definition_at(items, at)
        }),
        spelling::is_at(items, at, TerminalToken::Function)
            ==> statement::statement_type_at(items, at)
            == (if spelling::is_at(items, at + 1, TerminalToken::OpenBracket) {
            definition::expression_statement_at(items, at)
        } else {
            definition::function_definition_at(items, at)
        }),
        spelling::is_at(items, at, TerminalToken::Global)
            ==> statement::statement_type_at(items, at)
            == (if spelling::is_at(items, at + 1, TerminalToken::Function) {
            definition::global_function_at(items, at)
        } else {
            definition::global_definition_at(items, at)
        }),
        spelling::is_at(items, at, TerminalToken::FunctionRef) || grammar::has_name(items, at)
            ==> statement::statement_type_at(items, at)
            == definition::typed_definition_at(items, at),
        at < items.len() && (
            items[at].token.ty is Literal || starts_only_expressions(items[at].token.ty)
        ) ==> statement::statement_type_at(items, at)
            == definition::expression_statement_at(items, at),
{
    reveal(statement::statement_type_at);
    reveal(statement::block_at);
}

/// A statement takes the semicolon behind it. Without one it is read if and only if it can end
/// where it does.
pub proof fn law_statement_ends_where_it_can<'s>(
    items: Seq<TokenItem<'s>>,
    at: int,
    next: int,
    ty: StatementType<'s>,
)
    requires
        0 <= at <= items.len() <= usize::MAX,
    ensures
        spelling::is_at(items, at, TerminalToken::Semicolon)
            ==> statement::statement_at(items, at) == Parsed::Ok(
            (at + 1, Statement { ty: StatementType::Empty, semicolon: Some(&items[at].token) }),
        ),
        !spelling::is_at(items, at, TerminalToken::Semicolon)
            && statement::statement_type_at(items, at) == Parsed::Ok((next, ty)) ==> {
            &&& spelling::is_at(items, next, TerminalToken::Semicolon)
                ==> statement::statement_at(items, at) == Parsed::Ok(
                (next + 1, Statement { ty, semicolon: Some(&items[next].token) }),
            )
            &&& !spelling::is_at(items, next, TerminalToken::Semicolon)
                ==> (statement::statement_at(items, at) == Parsed::Ok(
                (next, Statement { ty, semicolon: None }),
            ) <==> spelling::can_end(ty, items, next))
        },
        !spelling::is_at(items, at, TerminalToken::Semicolon) ==> read::passes_on(
            statement::statement_type_at(items, at),
            statement::statement_at(items, at),
        ),
        !spelling::is_at(items, at, TerminalToken::Semicolon)
            && statement::statement_type_at(items, at) == Parsed::Ok((next, ty))
            && statement::statement_at(items, at) is Err ==> read::fails_at(
            statement::statement_at(items, at),
            ParseErrorType::ExpectedEndOfStatement,
            next,
        ),
{
    reveal(statement::statement_at);
    reveal(statement::statement_type_at);
    spelling::statement::lemma_statement_type(items, at);
}

} // verus!
