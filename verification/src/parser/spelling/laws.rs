use crate::ast::{BinaryOperator, Expression, PrefixOperator, Statement};
use crate::flavor::Flavor;
use crate::lexer;
use crate::lexer::TokenItem;
use crate::list;
use crate::parser;
use crate::parser::error::ParseError;
use crate::parser::{expression, grammar, laws, operator, spelling, statement};
use vstd::prelude::*;

verus! {

/// A statement that is read from tokens is written as exactly those tokens, and an error is about
/// a token that is not what the error asks for.
pub proof fn law_statements_are_written_as_their_tokens<'s>(
    items: Seq<TokenItem<'s>>,
    flavor: Flavor,
    at: int,
)
    requires
        0 <= at <= items.len() <= usize::MAX,
    ensures
        match statement::statement_of(items, flavor, at) {
            Ok((next, tree)) => {
                &&& at < next <= items.len()
                &&& spelling::end_of_statement(tree, items, Some(at)) == Some(next)
            },
            Err(error) => spelling::is_wrong(items, at, error),
        },
{
    super::statement::lemma_statement(items, at);
}

/// An expression that is read from tokens is written as exactly those tokens, and takes all tokens
/// that can belong to it: no operator, call, index or member stands behind it.
pub proof fn law_expressions_are_written_as_their_tokens<'s>(items: Seq<TokenItem<'s>>, at: int)
    requires
        0 <= at <= items.len() <= usize::MAX,
    ensures
        match expression::expression_at(items, at) {
            Ok((next, tree)) => {
                &&& at < next <= items.len()
                &&& spelling::end_of_expression(tree, items, Some(at)) == Some(next)
                &&& !spelling::goes_on(items, next)
            },
            Err(error) => spelling::is_wrong(items, at, error),
        },
{
    super::expression::lemma_expression(items, at);
}

proof fn lemma_statements<'s>(
    items: Seq<TokenItem<'s>>,
    flavor: Flavor,
    at: int,
    found: Seq<Statement<'s>>,
) -> (read: Seq<Statement<'s>>)
    requires
        0 <= at <= items.len() <= usize::MAX,
    ensures
        match parser::statements_from(items, flavor, at, found) {
            Ok(tree) => {
                &&& tree == found + read
                &&& spelling::end_of_statements(list::list_of(read), items, Some(at)) == Some(
                    items.len() as int,
                )
            },
            Err(error) => spelling::is_wrong(items, at, error),
        },
    decreases grammar::left(items, at),
{
    reveal(spelling::end_of_statements);
    if at >= items.len() {
        assert(found + Seq::empty() =~= found);
        Seq::empty()
    } else {
        law_statements_are_written_as_their_tokens(items, flavor, at);
        match statement::statement_of(items, flavor, at) {
            Ok((next, item)) => {
                let rest = lemma_statements(items, flavor, next, found.push(item));
                let read = seq![item] + rest;
                assert(found.push(item) + rest =~= found + read);
                assert(read.drop_first() =~= rest);
                read
            },
            Err(_) => Seq::empty(),
        }
    }
}

/// The syntax tree of tokens is written as all of those tokens, in their order: no token is
/// ignored, and none is made up. If there is none, the error is about a token that is not what the
/// error asks for.
pub proof fn law_programs_are_written_as_their_tokens<'s>(
    items: Seq<TokenItem<'s>>,
    flavor: Flavor,
)
    requires
        items.len() <= usize::MAX,
    ensures
        match parser::statements_from(items, flavor, 0, Seq::empty()) {
            Ok(tree) => spelling::end_of_statements(list::list_of(tree), items, Some(0)) == Some(
                items.len() as int,
            ),
            Err(error) => spelling::is_wrong(items, 0, error),
        },
{
    let read = lemma_statements(items, flavor, 0, Seq::empty());
    assert(Seq::empty() + read =~= read);
}

/// Each statement of a partial parse is written as exactly the tokens of its range, and each error
/// is about a token of what is dropped or behind it that is not what the error asks for.
pub proof fn law_partial_statements_are_written_as_their_tokens<'s>(
    items: Seq<TokenItem<'s>>,
    flavor: Flavor,
)
    requires
        lexer::indices_wf(items),
        items.len() <= usize::MAX,
    ensures
        forall|i: int|
            0 <= i < parser::partial_of(items, flavor).statements.len() ==> {
                let parsed = #[trigger] parser::partial_of(items, flavor).statements[i];
                spelling::end_of_statement(parsed.statement, items, Some(parsed.start)) == Some(
                    parsed.end,
                )
            },
        forall|i: int|
            0 <= i < parser::partial_of(items, flavor).errors.len() ==> {
                let dropped = #[trigger] parser::partial_of(items, flavor).errors[i];
                spelling::is_wrong(items, dropped.start, dropped.error)
            },
{
    laws::law_partial_comes_from_the_tokens(items, flavor);
    laws::law_partial_accounts_for_every_token(items, flavor);
    let partial = parser::partial_of(items, flavor);
    assert forall|i: int| 0 <= i < partial.statements.len() implies {
        let parsed = #[trigger] partial.statements[i];
        spelling::end_of_statement(parsed.statement, items, Some(parsed.start)) == Some(parsed.end)
    } by {
        law_statements_are_written_as_their_tokens(items, flavor, partial.statements[i].start);
    }
    assert forall|i: int| 0 <= i < partial.errors.len() implies {
        let dropped = #[trigger] partial.errors[i];
        spelling::is_wrong(items, dropped.start, dropped.error)
    } by {
        law_statements_are_written_as_their_tokens(items, flavor, partial.errors[i].start);
    }
}

/// An operator between operands is read if and only if the tokens that it is written as stand at a
/// place, as the longest operator there. So no two operators are read from the same tokens.
pub proof fn law_operators_are_read_from_their_tokens(
    items: Seq<TokenItem<'_>>,
    at: int,
    infix: BinaryOperator,
    next: int,
)
    requires
        0 <= at <= items.len(),
    ensures
        spelling::precedence(infix) > 0 ==> (operator::infix_at(items, at) == Some((infix, next))
            <==> spelling::end_of_operator(infix, items, Some(at)) == Some(next)),
        spelling::precedence(infix) == 0 ==> (operator::assign_at(items, at) == Some(infix) && next
            == at + 1 <==> spelling::end_of_operator(infix, items, Some(at)) == Some(next)),
{
    super::operator::lemma_only_infix(items, at, infix);
    super::operator::lemma_assign(items, at);
    super::operator::lemma_infix(items, at);
}

/// A prefix operator is read if and only if the token that it is written as stands at a place.
pub proof fn law_prefix_operators_are_read_from_their_tokens(
    items: Seq<TokenItem<'_>>,
    at: int,
    prefix: PrefixOperator,
)
    ensures
        operator::prefix_at(items, at) == Some(prefix) <==> spelling::is_at(
            items,
            at,
            spelling::prefix_token(prefix),
        ),
{
}

/// Operators bind in the usual order: products before sums, sums before shifts, shifts before
/// comparisons, comparisons before equality, equality before `&`, `^`, `|`, `&&` and `||` in this
/// order, and assignments last.
pub proof fn law_operators_bind_by_their_precedence(left: BinaryOperator, right: BinaryOperator)
    requires
        spelling::precedence(left) > 0,
        spelling::precedence(right) > 0,
    ensures
        operator::level_of(left) < operator::level_of(right) <==> spelling::precedence(left)
            < spelling::precedence(right),
        1 <= operator::level_of(left),
{
}

} // verus!
