use crate::lexer;
use crate::lexer::TokenItem;
use crate::parser::error::ParseError;
use crate::parser::grammar;
use crate::token::{TerminalToken, TokenType};
use vstd::prelude::*;

verus! {

/// The last token of the tree that starts at a token, or that token if it starts none.
pub open spec fn tree_end(items: Seq<TokenItem<'_>>, at: int) -> int {
    match items[at].close_index {
        Some(close) => if at < close {
            close as int
        } else {
            at
        },
        None => at,
    }
}

/// Whether a place lies in no tree that starts at or behind another place: going from tree to tree
/// leads from one to the other.
pub open spec fn is_top_level(items: Seq<TokenItem<'_>>, from: int, target: int) -> bool
    decreases target - from,
{
    if from >= target {
        true
    } else {
        tree_end(items, from) < target && is_top_level(items, tree_end(items, from) + 1, target)
    }
}

/// Whether a statement can end with a token, whatever follows.
pub open spec fn is_boundary(item: TokenItem<'_>) -> bool {
    ||| item.token.new_line is Some
    ||| item.token.ty == TokenType::Terminal(TerminalToken::Semicolon)
    ||| item.token.ty == TokenType::Terminal(TerminalToken::CloseBrace)
}

/// The place behind the first tree that a statement can end with, of those that end at or behind
/// an error.
pub open spec fn boundary_from(items: Seq<TokenItem<'_>>, at: int, error_end: int) -> int
    decreases grammar::left(items, at),
{
    if at >= items.len() {
        items.len() as int
    } else {
        let last = tree_end(items, at);
        if last + 1 >= error_end && is_boundary(items[last]) {
            last + 1
        } else {
            boundary_from(items, last + 1, error_end)
        }
    }
}

/// Where parsing resumes behind a statement that cannot be parsed.
///
/// If the token with the error is the first one of a line outside of any tree, this is that token.
/// Otherwise it is the next place behind the error where a statement can end.
pub open spec fn resume_at(items: Seq<TokenItem<'_>>, start: int, error: ParseError) -> int {
    let at = error.token_index as int;
    if start < at <= items.len() && items[at - 1].token.new_line is Some && is_top_level(
        items,
        start,
        at,
    ) {
        at
    } else {
        boundary_from(
            items,
            start,
            if at < items.len() {
                at + 1
            } else {
                items.len() as int
            },
        )
    }
}

proof fn lemma_boundary_progress(items: Seq<TokenItem<'_>>, at: int, error_end: int)
    ensures
        at < items.len() ==> at < boundary_from(items, at, error_end),
    decreases grammar::left(items, at),
{
    if at < items.len() {
        let next = tree_end(items, at) + 1;
        lemma_boundary_progress(items, next, error_end);
        assert(next >= items.len() ==> boundary_from(items, next, error_end) == items.len());
    }
}

/// At least one token is dropped.
pub proof fn lemma_resume_progress(items: Seq<TokenItem<'_>>, start: int, error: ParseError)
    requires
        start < items.len(),
    ensures
        start < resume_at(items, start, error),
{
    let at = error.token_index as int;
    lemma_boundary_progress(
        items,
        start,
        if at < items.len() {
            at + 1
        } else {
            items.len() as int
        },
    );
}

proof fn lemma_boundary_bound(items: Seq<TokenItem<'_>>, at: int, error_end: int)
    requires
        lexer::indices_wf(items),
        0 <= at <= items.len(),
    ensures
        boundary_from(items, at, error_end) <= items.len(),
    decreases grammar::left(items, at),
{
    if at < items.len() {
        assert(items[at].close_index is Some ==> at < items[at].close_index->0 < items.len());
        lemma_boundary_bound(items, tree_end(items, at) + 1, error_end);
    }
}

/// No more tokens are dropped than there are.
pub proof fn lemma_resume_bound(items: Seq<TokenItem<'_>>, start: int, error: ParseError)
    requires
        lexer::indices_wf(items),
        0 <= start < items.len(),
    ensures
        resume_at(items, start, error) <= items.len(),
{
    let at = error.token_index as int;
    lemma_boundary_bound(
        items,
        start,
        if at < items.len() {
            at + 1
        } else {
            items.len() as int
        },
    );
}

/// Tests whether a statement can end with a token.
fn is_recovery_boundary(item: &TokenItem<'_>) -> (ends: bool)
    ensures
        ends == is_boundary(*item),
{
    item.token.new_line.is_some() || matches!(
        item.token.ty,
        TokenType::Terminal(TerminalToken::Semicolon | TerminalToken::CloseBrace)
    )
}

/// Tests whether a place lies in no tree that starts at or behind another place.
fn is_top_level_index(items: &[TokenItem<'_>], start: usize, target: usize) -> (found: bool)
    requires
        lexer::indices_wf(items@),
        target <= items.len(),
    ensures
        found == is_top_level(items@, start as int, target as int),
{
    let mut index = start;
    while index < target
        invariant
            lexer::indices_wf(items@),
            target <= items.len(),
            is_top_level(items@, index as int, target as int) == is_top_level(
                items@,
                start as int,
                target as int,
            ),
        decreases target - index,
    {
        assert(items@[index as int].close_index is Some ==> index
            < items@[index as int].close_index->0 < items@.len());
        if let Some(close_index) = items[index].close_index {
            if close_index >= target {
                return false;
            }
            index = close_index + 1;
        } else {
            index += 1;
        }
    }
    true
}

/// Finds where parsing resumes behind a statement that cannot be parsed.
pub fn recovery_end(items: &[TokenItem<'_>], start: usize, error: &ParseError) -> (end: usize)
    requires
        lexer::indices_wf(items@),
        start < items.len(),
    ensures
        end == resume_at(items@, start as int, *error),
        start < end <= items.len(),
{
    if error.token_index > start && error.token_index <= items.len() && items[error.token_index
        - 1].token.new_line.is_some() && is_top_level_index(items, start, error.token_index) {
        return error.token_index;
    }
    let error_end = if error.token_index < items.len() {
        error.token_index + 1
    } else {
        items.len()
    };
    let mut index = start;
    while index < items.len()
        invariant
            lexer::indices_wf(items@),
            start <= index <= items.len(),
            start < items.len(),
            resume_at(items@, start as int, *error) == boundary_from(
                items@,
                index as int,
                error_end as int,
            ),
        decreases items.len() - index,
    {
        assert(items@[index as int].close_index is Some ==> index
            < items@[index as int].close_index->0 < items@.len());
        let consumed = if let Some(close_index) = items[index].close_index {
            close_index
        } else {
            index
        };
        index = consumed + 1;
        if index >= error_end && is_recovery_boundary(&items[consumed]) {
            return index;
        }
    }
    items.len()
}

} // verus!
