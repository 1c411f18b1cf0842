use crate::ast::Statement;
use crate::flavor::Flavor;
use crate::lexer;
use crate::lexer::TokenItem;
use crate::parser;
use crate::parser::error::ParseError;
use crate::parser::{grammar, recovery, statement};
use crate::parser::{PartialView, RecoveryView, StatementView};
use crate::token::{TerminalToken, TokenType};
use vstd::prelude::*;

verus! {

/// Where nothing is found yet.
spec fn nothing<'s>() -> PartialView<'s> {
    PartialView { statements: Seq::empty(), errors: Seq::empty() }
}

/// Whether what is recovered from tokens up to a place comes from those tokens.
pub open spec fn comes_from<'s>(
    partial: PartialView<'s>,
    items: Seq<TokenItem<'s>>,
    flavor: Flavor,
) -> bool {
    &&& forall|i: int|
        0 <= i < partial.statements.len() ==> {
            let parsed = #[trigger] partial.statements[i];
            statement::statement_of(items, flavor, parsed.start) == Ok::<
                (int, Statement<'s>),
                ParseError,
            >((parsed.end, parsed.statement))
        }
    &&& forall|i: int|
        0 <= i < partial.errors.len() ==> {
            let dropped = #[trigger] partial.errors[i];
            &&& statement::statement_of(items, flavor, dropped.start) == Err::<
                (int, Statement<'s>),
                ParseError,
            >(dropped.error)
            &&& dropped.end == recovery::resume_at(items, dropped.start, dropped.error)
        }
}

proof fn lemma_comes_from<'s>(
    items: Seq<TokenItem<'s>>,
    flavor: Flavor,
    at: int,
    found: PartialView<'s>,
)
    requires
        comes_from(found, items, flavor),
    ensures
        comes_from(parser::partial_from(items, flavor, at, found), items, flavor),
    decreases grammar::left(items, at),
{
    if at < items.len() {
        match statement::statement_of(items, flavor, at) {
            Ok((next, statement)) => {
                let longer = PartialView {
                    statements: found.statements.push(
                        StatementView { statement, start: at, end: next },
                    ),
                    ..found
                };
                lemma_comes_from(items, flavor, next, longer);
            },
            Err(error) => {
                let next = recovery::resume_at(items, at, error);
                let longer = PartialView {
                    errors: found.errors.push(RecoveryView { error, start: at, end: next }),
                    ..found
                };
                recovery::lemma_resume_progress(items, at, error);
                lemma_comes_from(items, flavor, next, longer);
            },
        }
    }
}

/// Every statement that partial parsing returns is what the grammar makes of the tokens of its
/// range. Every error is what the grammar makes of the tokens that are dropped with it.
pub proof fn law_partial_comes_from_the_tokens<'s>(items: Seq<TokenItem<'s>>, flavor: Flavor)
    ensures
        comes_from(parser::partial_of(items, flavor), items, flavor),
{
    lemma_comes_from(items, flavor, 0, nothing());
}

/// Whether a statement takes a token.
pub open spec fn is_parsed(partial: PartialView<'_>, index: int) -> bool {
    exists|i: int|
        0 <= i < partial.statements.len() && (#[trigger] partial.statements[i]).start <= index
            < partial.statements[i].end
}

/// Whether a token is dropped with an error.
pub open spec fn is_dropped(partial: PartialView<'_>, index: int) -> bool {
    exists|i: int|
        0 <= i < partial.errors.len() && (#[trigger] partial.errors[i]).start <= index
            < partial.errors[i].end
}

/// Whether statements and errors take all tokens up to a place, each one once and in order.
pub open spec fn tiles(partial: PartialView<'_>, len: int) -> bool {
    &&& forall|i: int|
        0 <= i < partial.statements.len() ==> 0 <= (#[trigger] partial.statements[i]).start
            < partial.statements[i].end <= len
    &&& forall|i: int|
        0 <= i < partial.errors.len() ==> 0 <= (#[trigger] partial.errors[i]).start
            < partial.errors[i].end <= len
    &&& forall|i: int, j: int|
        0 <= i < j < partial.statements.len() ==> (#[trigger] partial.statements[i]).end <= (
        #[trigger] partial.statements[j]).start
    &&& forall|i: int, j: int|
        0 <= i < j < partial.errors.len() ==> (#[trigger] partial.errors[i]).end <= (
        #[trigger] partial.errors[j]).start
    &&& forall|k: int|
        0 <= k < len ==> (#[trigger] is_parsed(partial, k)) != is_dropped(partial, k)
}

proof fn lemma_tiles_statement<'s>(found: PartialView<'s>, piece: StatementView<'s>)
    requires
        tiles(found, piece.start),
        0 <= piece.start < piece.end,
    ensures
        tiles(
            PartialView { statements: found.statements.push(piece), ..found },
            piece.end,
        ),
{
    let longer = PartialView { statements: found.statements.push(piece), ..found };
    assert forall|k: int| 0 <= k < piece.end implies (#[trigger] is_parsed(longer, k))
        != is_dropped(longer, k) by {
        assert(is_dropped(longer, k) == is_dropped(found, k));
        if k < piece.start {
            if is_parsed(found, k) {
                let i = choose|i: int|
                    0 <= i < found.statements.len() && (#[trigger] found.statements[i]).start <= k
                        < found.statements[i].end;
                assert(longer.statements[i] == found.statements[i]);
            } else {
                assert(is_dropped(found, k));
                if is_parsed(longer, k) {
                    let i = choose|i: int|
                        0 <= i < longer.statements.len() && (
                        #[trigger] longer.statements[i]).start <= k < longer.statements[i].end;
                    assert(longer.statements[i] == found.statements[i]);
                }
            }
        } else {
            assert(longer.statements[found.statements.len() as int] == piece);
        }
    }
}

proof fn lemma_tiles_error<'s>(found: PartialView<'s>, piece: RecoveryView)
    requires
        tiles(found, piece.start),
        0 <= piece.start < piece.end,
    ensures
        tiles(PartialView { errors: found.errors.push(piece), ..found }, piece.end),
{
    let longer = PartialView { errors: found.errors.push(piece), ..found };
    assert forall|k: int| 0 <= k < piece.end implies (#[trigger] is_parsed(longer, k))
        != is_dropped(longer, k) by {
        assert(is_parsed(longer, k) == is_parsed(found, k));
        if k < piece.start {
            if is_dropped(found, k) {
                let i = choose|i: int|
                    0 <= i < found.errors.len() && (#[trigger] found.errors[i]).start <= k
                        < found.errors[i].end;
                assert(longer.errors[i] == found.errors[i]);
            } else {
                assert(is_parsed(found, k));
                if is_dropped(longer, k) {
                    let i = choose|i: int|
                        0 <= i < longer.errors.len() && (#[trigger] longer.errors[i]).start <= k
                            < longer.errors[i].end;
                    assert(longer.errors[i] == found.errors[i]);
                }
            }
        } else {
            assert(longer.errors[found.errors.len() as int] == piece);
        }
    }
}

proof fn lemma_tiles<'s>(
    items: Seq<TokenItem<'s>>,
    flavor: Flavor,
    at: int,
    found: PartialView<'s>,
)
    requires
        lexer::indices_wf(items),
        0 <= at <= items.len(),
        tiles(found, at),
    ensures
        tiles(parser::partial_from(items, flavor, at, found), items.len() as int),
    decreases grammar::left(items, at),
{
    if at < items.len() {
        match statement::statement_of(items, flavor, at) {
            Ok((next, statement)) => {
                let piece = StatementView { statement, start: at, end: next };
                lemma_tiles_statement(found, piece);
                lemma_tiles(
                    items,
                    flavor,
                    next,
                    PartialView { statements: found.statements.push(piece), ..found },
                );
            },
            Err(error) => {
                let next = recovery::resume_at(items, at, error);
                let piece = RecoveryView { error, start: at, end: next };
                recovery::lemma_resume_progress(items, at, error);
                recovery::lemma_resume_bound(items, at, error);
                lemma_tiles_error(found, piece);
                lemma_tiles(
                    items,
                    flavor,
                    next,
                    PartialView { errors: found.errors.push(piece), ..found },
                );
            },
        }
    }
}

/// Partial parsing accounts for every token exactly once: it belongs to one statement or is dropped
/// with one error. No range is empty, and ranges stand in the order of the tokens.
pub proof fn law_partial_accounts_for_every_token<'s>(items: Seq<TokenItem<'s>>, flavor: Flavor)
    requires
        lexer::indices_wf(items),
    ensures
        tiles(parser::partial_of(items, flavor), items.len() as int),
{
    lemma_tiles(items, flavor, 0, nothing());
}

/// The statements of a partial parse, without their ranges.
pub open spec fn statements_of<'s>(partial: PartialView<'s>) -> Seq<Statement<'s>> {
    Seq::new(partial.statements.len(), |i: int| partial.statements[i].statement)
}

proof fn lemma_errors_stay<'s>(
    items: Seq<TokenItem<'s>>,
    flavor: Flavor,
    at: int,
    found: PartialView<'s>,
)
    requires
        found.errors.len() > 0,
    ensures
        parser::partial_from(items, flavor, at, found).errors.len() > 0,
        parser::partial_from(items, flavor, at, found).errors[0] == found.errors[0],
    decreases grammar::left(items, at),
{
    if at < items.len() {
        match statement::statement_of(items, flavor, at) {
            Ok((next, statement)) => {
                lemma_errors_stay(
                    items,
                    flavor,
                    next,
                    PartialView {
                        statements: found.statements.push(
                            StatementView { statement, start: at, end: next },
                        ),
                        ..found
                    },
                );
            },
            Err(error) => {
                let next = recovery::resume_at(items, at, error);
                recovery::lemma_resume_progress(items, at, error);
                lemma_errors_stay(
                    items,
                    flavor,
                    next,
                    PartialView {
                        errors: found.errors.push(RecoveryView { error, start: at, end: next }),
                        ..found
                    },
                );
            },
        }
    }
}

proof fn lemma_strict_agrees<'s>(
    items: Seq<TokenItem<'s>>,
    flavor: Flavor,
    at: int,
    found: PartialView<'s>,
)
    requires
        found.errors.len() == 0,
    ensures
        match parser::statements_from(items, flavor, at, statements_of(found)) {
            Ok(statements) => {
                let partial = parser::partial_from(items, flavor, at, found);
                partial.errors.len() == 0 && statements_of(partial) == statements
            },
            Err(error) => {
                let partial = parser::partial_from(items, flavor, at, found);
                partial.errors.len() > 0 && partial.errors[0].error == error
            },
        },
    decreases grammar::left(items, at),
{
    if at < items.len() {
        match statement::statement_of(items, flavor, at) {
            Ok((next, statement)) => {
                let longer = PartialView {
                    statements: found.statements.push(
                        StatementView { statement, start: at, end: next },
                    ),
                    ..found
                };
                assert(statements_of(longer) =~= statements_of(found).push(statement));
                lemma_strict_agrees(items, flavor, next, longer);
            },
            Err(error) => {
                let next = recovery::resume_at(items, at, error);
                recovery::lemma_resume_progress(items, at, error);
                lemma_errors_stay(
                    items,
                    flavor,
                    next,
                    PartialView {
                        errors: found.errors.push(RecoveryView { error, start: at, end: next }),
                        ..found
                    },
                );
            },
        }
    }
}

/// Partial parsing of tokens without errors gives the statements that strict parsing gives.
pub proof fn law_partial_matches_strict<'s>(items: Seq<TokenItem<'s>>, flavor: Flavor)
    ensures
        parser::statements_from(items, flavor, 0, Seq::empty()) matches Ok(statements) ==> {
            &&& parser::partial_of(items, flavor).errors.len() == 0
            &&& statements_of(parser::partial_of(items, flavor)) == statements
        },
{
    assert(statements_of(nothing()) =~= Seq::<Statement<'s>>::empty());
    lemma_strict_agrees(items, flavor, 0, nothing());
}

/// Strict parsing returns the first error that partial parsing finds, and succeeds if and only if
/// partial parsing finds none.
pub proof fn law_strict_returns_first_error<'s>(items: Seq<TokenItem<'s>>, flavor: Flavor)
    ensures
        parser::statements_from(items, flavor, 0, Seq::empty()) is Err <==> parser::partial_of(
            items,
            flavor,
        ).errors.len() > 0,
        parser::statements_from(items, flavor, 0, Seq::empty()) matches Err(error)
            ==> parser::partial_of(items, flavor).errors[0].error == error,
{
    assert(statements_of(nothing()) =~= Seq::<Statement<'s>>::empty());
    lemma_strict_agrees(items, flavor, 0, nothing());
}

proof fn lemma_boundary_top_level(items: Seq<TokenItem<'_>>, at: int, error_end: int)
    requires
        lexer::indices_wf(items),
        0 <= at <= items.len(),
    ensures
        recovery::is_top_level(items, at, recovery::boundary_from(items, at, error_end)),
        at <= recovery::boundary_from(items, at, error_end) <= items.len(),
    decreases grammar::left(items, at),
{
    if at < items.len() {
        assert(items[at].close_index is Some ==> at < items[at].close_index->0 < items.len());
        let next = recovery::tree_end(items, at) + 1;
        lemma_boundary_top_level(items, next, error_end);
        assert(recovery::is_top_level(items, next, next));
    }
}

/// Parsing never resumes inside of a tree that starts in what is dropped, so that no statement of a
/// malformed tree is taken for one at the top level.
pub proof fn law_parsing_resumes_at_the_top_level(
    items: Seq<TokenItem<'_>>,
    start: int,
    error: ParseError,
)
    requires
        lexer::indices_wf(items),
        0 <= start < items.len(),
    ensures
        recovery::is_top_level(items, start, recovery::resume_at(items, start, error)),
        start < recovery::resume_at(items, start, error) <= items.len(),
{
    let at = error.token_index as int;
    recovery::lemma_resume_progress(items, start, error);
    lemma_boundary_top_level(
        items,
        start,
        if at < items.len() {
            at + 1
        } else {
            items.len() as int
        },
    );
}

/// Whether no tree that starts between two places reaches over the second one.
pub open spec fn crosses_no_tree(items: Seq<TokenItem<'_>>, from: int, target: int) -> bool {
    forall|i: int|
        from <= i < target && (#[trigger] items[i]).close_index is Some
            ==> items[i].close_index->0 < target
}

/// Where trees do not overlap, a place is at the top level if and only if no tree that starts
/// before it reaches over it.
pub proof fn law_top_level_crosses_no_tree(items: Seq<TokenItem<'_>>, from: int, target: int)
    requires
        lexer::indices_wf(items),
        lexer::trees_nest(items),
        0 <= from <= target <= items.len(),
    ensures
        recovery::is_top_level(items, from, target) <==> crosses_no_tree(items, from, target),
    decreases target - from,
{
    if from < target {
        let last = recovery::tree_end(items, from);
        assert(items[from].close_index is Some ==> from < items[from].close_index->0
            < items.len());
        if last < target {
            law_top_level_crosses_no_tree(items, last + 1, target);
            if crosses_no_tree(items, last + 1, target) {
                assert forall|i: int|
                    from <= i < target && (#[trigger] items[i]).close_index is Some implies
                    items[i].close_index->0 < target by {
                    if from < i <= last {
                        assert(items[from].close_index is Some);
                    }
                }
            }
        } else {
            assert(items[from].close_index->0 >= target);
        }
    }
}

/// Whether a token ends a line, or is one that a statement can end with.
pub open spec fn ends_line_or_statement(item: TokenItem<'_>) -> bool {
    ||| item.token.new_line is Some
    ||| item.token.ty == TokenType::Terminal(TerminalToken::Semicolon)
    ||| item.token.ty == TokenType::Terminal(TerminalToken::CloseBrace)
}

proof fn lemma_boundary_least(items: Seq<TokenItem<'_>>, at: int, error_end: int)
    requires
        lexer::indices_wf(items),
        0 <= at <= items.len(),
        error_end <= items.len(),
    ensures
        ({
            let end = recovery::boundary_from(items, at, error_end);
            &&& at <= end <= items.len()
            &&& end >= error_end
            &&& end < items.len() ==> at < end && ends_line_or_statement(items[end - 1])
            &&& forall|p: int|
                at < p < end && error_end <= p && #[trigger] recovery::is_top_level(items, at, p)
                    ==> !ends_line_or_statement(items[p - 1])
        }),
    decreases items.len() - at,
{
    if at < items.len() {
        assert(items[at].close_index is Some ==> at < items[at].close_index->0 < items.len());
        let next = recovery::tree_end(items, at) + 1;
        let end = recovery::boundary_from(items, at, error_end);
        lemma_boundary_least(items, next, error_end);
        assert forall|p: int|
            at < p < end && error_end <= p && #[trigger] recovery::is_top_level(
                items,
                at,
                p,
            ) implies !ends_line_or_statement(items[p - 1]) by {
            assert(next <= p);
            assert(recovery::is_top_level(items, next, p));
        }
    }
}

/// Behind a statement that cannot be parsed, parsing never resumes before the token of the error.
/// It resumes at that token if and only if the token is the first one of a line outside of all
/// trees that start in what is dropped. Otherwise it resumes at the first place behind that token,
/// outside of all those trees, that stands behind the end of a line, a semicolon or a closing
/// brace, or at the end.
pub proof fn law_parsing_resumes_at_the_first_place_behind_the_error(
    items: Seq<TokenItem<'_>>,
    start: int,
    error: ParseError,
)
    requires
        lexer::indices_wf(items),
        lexer::trees_nest(items),
        0 <= start < items.len(),
        error.token_index <= items.len(),
    ensures
        ({
            let at = error.token_index as int;
            let end = recovery::resume_at(items, start, error);
            let starts_line = start < at && items[at - 1].token.new_line is Some
                && crosses_no_tree(items, start, at);
            &&& start < end <= items.len()
            &&& at <= end
            &&& crosses_no_tree(items, start, end)
            &&& starts_line ==> end == at
            &&& end == at && at < items.len() ==> starts_line
            &&& at < end < items.len() ==> ends_line_or_statement(items[end - 1])
            &&& !starts_line ==> forall|p: int|
                start < p < end && at < p && #[trigger] crosses_no_tree(items, start, p)
                    ==> !ends_line_or_statement(items[p - 1])
        }),
{
    let at = error.token_index as int;
    let end = recovery::resume_at(items, start, error);
    let error_end = if at < items.len() {
        at + 1
    } else {
        items.len() as int
    };
    law_parsing_resumes_at_the_top_level(items, start, error);
    lemma_boundary_least(items, start, error_end);
    law_top_level_crosses_no_tree(items, start, end);
    if start < at {
        law_top_level_crosses_no_tree(items, start, at);
    }
    assert forall|p: int|
        start < p < recovery::boundary_from(items, start, error_end) && at < p
            && #[trigger] crosses_no_tree(items, start, p) implies !ends_line_or_statement(
        items[p - 1],
    ) by {
        law_top_level_crosses_no_tree(items, start, p);
    }
}

} // verus!
