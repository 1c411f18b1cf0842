use crate::lexer::delimiter::{ItemView, LayerView, Nest};
use crate::lexer::error::{ErrorTypeView, ErrorView};
use crate::lexer::recovery::{Recovered, Recovery, RegionView};
use crate::lexer::token_iter::Lexed;
use crate::lexer::{delimiter, laws, recovery};
use crate::token::{TerminalToken, TokenView, TypeView};
use vstd::prelude::*;

verus! {

/// The state behind a run of tokens and errors.
pub open spec fn after_all(state: Recovery, run: Seq<Lexed>) -> Recovery
    decreases run.len(),
{
    if run.len() == 0 {
        state
    } else {
        after_all(recovery::after(state, run[0]), run.drop_first())
    }
}

/// What is recovered from two texts that stand one behind the other.
pub open spec fn joined(first: Recovered, second: Recovered) -> Recovered {
    Recovered {
        regions: first.regions + second.regions,
        errors: first.errors + second.errors,
    }
}

/// What is recovered from a run of tokens that is a region on its own, with an error behind it.
pub open spec fn region_and_error(items: Seq<ItemView>, error: ErrorView) -> Recovered {
    Recovered {
        regions: recovery::with_region(Seq::empty(), items, true),
        errors: seq![error],
    }
}

pub(crate) proof fn lemma_after_all_joined(state: Recovery, first: Seq<Lexed>, second: Seq<Lexed>)
    ensures
        after_all(state, first + second) == after_all(after_all(state, first), second),
    decreases first.len(),
{
    if first.len() == 0 {
        assert(first + second =~= second);
    } else {
        assert((first + second).drop_first() =~= first.drop_first() + second);
        lemma_after_all_joined(recovery::after(state, first[0]), first.drop_first(), second);
    }
}

pub(crate) proof fn lemma_recovered_behind(state: Recovery, run: Seq<Lexed>, rest: Seq<Lexed>)
    ensures
        recovery::recovered_from(state, run + rest) == recovery::recovered_from(
            after_all(state, run),
            rest,
        ),
    decreases run.len(),
{
    if run.len() == 0 {
        assert(run + rest =~= rest);
    } else {
        assert((run + rest).drop_first() =~= run.drop_first() + rest);
        lemma_recovered_behind(recovery::after(state, run[0]), run.drop_first(), rest);
    }
}

/// A state with more before it.
spec fn behind(found: Recovered, state: Recovery) -> Recovery {
    Recovery {
        regions: found.regions + state.regions,
        errors: found.errors + state.errors,
        ..state
    }
}

proof fn lemma_with_region_behind(
    first: Seq<RegionView>,
    second: Seq<RegionView>,
    tokens: Seq<ItemView>,
    ends_at_error: bool,
)
    ensures
        recovery::with_region(first + second, tokens, ends_at_error) == first
            + recovery::with_region(second, tokens, ends_at_error),
{
    assert((first + second).push(RegionView { tokens, ends_at_error }) =~= first + second.push(
        RegionView { tokens, ends_at_error },
    ));
}

proof fn lemma_recovered_joined(found: Recovered, state: Recovery, rest: Seq<Lexed>)
    ensures
        recovery::recovered_from(behind(found, state), rest) == joined(
            found,
            recovery::recovered_from(state, rest),
        ),
    decreases rest.len(),
{
    let before = recovery::before_open(state.nest);
    lemma_with_region_behind(found.regions, state.regions, before, true);
    lemma_with_region_behind(found.regions, state.regions, before, false);
    if rest.len() == 0 {
        let openers = recovery::unmatched_openers(state.nest, 0);
        assert((found.errors + state.errors) + openers =~= found.errors + (state.errors + openers));
    } else {
        let next = recovery::after(state, rest[0]);
        match rest[0] {
            Ok(token) => {
                if let Err(error) = delimiter::add_token(state.nest, token) {
                    assert((found.errors + state.errors).push(error) =~= found.errors
                        + state.errors.push(error));
                }
            },
            Err(error) => {
                assert((found.errors + state.errors).push(error) =~= found.errors
                    + state.errors.push(error));
            },
        }
        assert(recovery::after(behind(found, state), rest[0]) == behind(found, next));
        lemma_recovered_joined(found, next, rest.drop_first());
    }
}

/// Where nothing is open and nothing is dropped, what is recovered from the rest of a text does not
/// depend on what stands before it.
pub(crate) proof fn lemma_fresh_start(found: Recovered, rest: Seq<Lexed>)
    ensures
        recovery::recovered_from(
            Recovery { regions: found.regions, errors: found.errors, ..recovery::start() },
            rest,
        ) == joined(found, recovery::recovered(rest)),
{
    assert(found.regions + Seq::empty() =~= found.regions);
    assert(found.errors + Seq::empty() =~= found.errors);
    lemma_recovered_joined(found, recovery::start(), rest);
}

/// A run with another one behind it, whose indices count from the start of the first.
pub(crate) open spec fn stacked(base: Nest, nest: Nest) -> Nest {
    let n = base.items.len();
    Nest {
        items: base.items + Seq::new(
            nest.items.len(),
            |i: int|
                ItemView {
                    token: nest.items[i].token,
                    close_index: match nest.items[i].close_index {
                        Some(close) => Some(close + n),
                        None => None,
                    },
                },
        ),
        layers: base.layers + Seq::new(
            nest.layers.len(),
            |k: int|
                LayerView {
                    open_index: nest.layers[k].open_index + n,
                    close_ty: nest.layers[k].close_ty,
                },
        ),
    }
}

proof fn lemma_stacked_step(base: Nest, nest: Nest, token: TokenView)
    requires
        delimiter::layers_wf(nest),
        delimiter::add_token(nest, token) is Ok,
    ensures
        delimiter::add_token(stacked(base, nest), token) == Ok::<Nest, ErrorView>(
            stacked(base, delimiter::add_token(nest, token)->Ok_0),
        ),
{
    let full = stacked(base, nest);
    let next = delimiter::add_token(nest, token)->Ok_0;
    if delimiter::is_close(token.ty) {
        let top = nest.layers.last();
        assert(nest.layers[nest.layers.len() - 1] == top);
        assert(full.layers.last().open_index == top.open_index + base.items.len());
        assert(full.layers.last().close_ty == top.close_ty);
        let added = delimiter::with_close(full, token);
        assert(added.items =~= stacked(base, next).items);
        assert(added.layers =~= stacked(base, next).layers);
    } else {
        let added = delimiter::with_token(full, token);
        assert(added.items =~= stacked(base, next).items);
        assert(added.layers =~= stacked(base, next).layers);
    }
}

/// The state behind a run whose delimiters are paired, where nothing is dropped: the run is kept
/// behind what was kept before, and the same delimiters are open.
pub(crate) proof fn lemma_kept_from(state: Recovery, base: Nest, nest: Nest, rest: Seq<Lexed>)
    requires
        delimiter::nest_wf(nest),
        state.quarantine is None,
        !state.discarding,
        state.nest == stacked(base, nest),
        delimiter::strict_from(nest, rest) is Ok,
    ensures
        after_all(state, rest) == (Recovery {
            nest: stacked(
                base,
                Nest {
                    items: delimiter::strict_from(nest, rest)->Ok_0,
                    layers: Seq::empty(),
                },
            ),
            ..state
        }),
    decreases rest.len(),
{
    if rest.len() == 0 {
        assert(nest.layers =~= Seq::empty());
    } else {
        let token = rest[0]->Ok_0;
        lemma_stacked_step(base, nest, token);
        delimiter::lemma_add_token_wf(nest, token);
        let next = delimiter::add_token(nest, token)->Ok_0;
        lemma_kept_from(recovery::after(state, rest[0]), base, next, rest.drop_first());
    }
}

proof fn lemma_dropped_from(
    state: Recovery,
    closes: Seq<TerminalToken>,
    nest: Nest,
    rest: Seq<Lexed>,
)
    requires
        delimiter::nest_wf(nest),
        closes.len() > 0,
        state.quarantine == Some(closes + recovery::expected_closes(nest.layers)),
        delimiter::strict_from(nest, rest) is Ok,
    ensures
        after_all(state, rest) == (Recovery { quarantine: Some(closes), ..state }),
    decreases rest.len(),
{
    let all = closes + recovery::expected_closes(nest.layers);
    if rest.len() == 0 {
        assert(all =~= closes);
    } else {
        let token = rest[0]->Ok_0;
        let next = delimiter::add_token(nest, token)->Ok_0;
        let expected = closes + recovery::expected_closes(next.layers);
        if delimiter::is_close(token.ty) {
            assert(all.last() == nest.layers.last().close_ty);
            assert(all.take(all.len() - 1) =~= expected);
        } else {
            match delimiter::closing_of(token.ty) {
                Some(close_ty) => {
                    assert(all.push(close_ty) =~= expected);
                },
                None => {
                    assert(all =~= expected);
                },
            }
        }
        delimiter::lemma_add_token_wf(nest, token);
        lemma_dropped_from(recovery::after(state, rest[0]), closes, next, rest.drop_first());
    }
}

/// While a tree is dropped, a run of tokens whose delimiters are paired changes nothing: the
/// delimiters in it neither end what is dropped nor make it longer.
pub proof fn law_paired_runs_are_dropped_whole(
    state: Recovery,
    run: Seq<Lexed>,
    items: Seq<ItemView>,
)
    requires
        recovery::recovery_wf(state),
        state.quarantine is Some,
        laws::is_paired(items),
        laws::spells(run, items),
    ensures
        after_all(state, run) == state,
{
    laws::law_strict_finds_every_pairing(run, items);
    delimiter::lemma_empty_nest();
    let closes = state.quarantine->0;
    assert(closes + recovery::expected_closes(delimiter::empty_nest().layers) =~= closes);
    lemma_dropped_from(state, closes, delimiter::empty_nest(), run);
}

/// While a tree is dropped, an opening delimiter has to be closed before anything that was open
/// before it. A closing delimiter closes the innermost delimiter that it fits, and with it all
/// that are open inside.
pub proof fn law_delimiters_are_counted_while_a_tree_is_dropped(
    state: Recovery,
    token: TokenView,
    outer: Seq<TerminalToken>,
    inner: Seq<TerminalToken>,
    close: TerminalToken,
)
    requires
        recovery::recovery_wf(state),
        state.quarantine is Some,
    ensures
        delimiter::closing_of(token.ty) == Some(close) ==> recovery::after_token(state, token)
            == (Recovery { quarantine: Some(state.quarantine->0.push(close)), ..state }),
        delimiter::is_close(token.ty) && token.ty == TypeView::Terminal(close)
            && state.quarantine->0 == outer.push(close) + inner && !inner.contains(close)
            ==> recovery::after_token(state, token) == (Recovery {
            quarantine: if outer.len() == 0 {
                None
            } else {
                Some(outer)
            },
            ..state
        }),
        delimiter::closing_of(token.ty) is None && !delimiter::is_close(token.ty)
            ==> recovery::after_token(state, token) == state,
{
    let closes = state.quarantine->0;
    if delimiter::is_close(token.ty) && token.ty == TypeView::Terminal(close) && closes
        == outer.push(close) + inner && !inner.contains(close) {
        lemma_last_place_split(outer, inner, close);
        assert(closes.take(outer.len() as int) =~= outer);
    }
}

proof fn lemma_last_place_split(
    outer: Seq<TerminalToken>,
    inner: Seq<TerminalToken>,
    close: TerminalToken,
)
    requires
        !inner.contains(close),
    ensures
        recovery::last_place(outer.push(close) + inner, close) == Some(outer.len() as int),
    decreases inner.len(),
{
    let closes = outer.push(close) + inner;
    if inner.len() == 0 {
        assert(closes =~= outer.push(close));
    } else {
        assert(closes.last() == inner.last());
        assert(inner.contains(inner.last()));
        assert(closes.drop_last() =~= outer.push(close) + inner.drop_last());
        assert forall|k: int| 0 <= k < inner.drop_last().len() implies inner.drop_last()[k]
            != close by {
            assert(inner.contains(inner[k]));
        }
        lemma_last_place_split(outer, inner.drop_last(), close);
    }
}

/// The state behind paired tokens at the start of a text.
pub(crate) proof fn lemma_first_kept(first: Seq<Lexed>, items: Seq<ItemView>)
    requires
        laws::is_paired(items),
        laws::spells(first, items),
    ensures
        after_all(recovery::start(), first) == (Recovery {
            nest: Nest { items, layers: Seq::empty() },
            ..recovery::start()
        }),
{
    laws::law_strict_finds_every_pairing(first, items);
    delimiter::lemma_empty_nest();
    let empty = delimiter::empty_nest();
    let whole = Nest { items, layers: Seq::empty() };
    assert(stacked(empty, empty).items =~= empty.items);
    assert(stacked(empty, empty).layers =~= empty.layers);
    lemma_kept_from(recovery::start(), empty, empty, first);
    assert(stacked(empty, whole).items =~= whole.items) by {
        assert forall|i: int| 0 <= i < items.len() implies stacked(empty, whole).items[i]
            == items[i] by {}
    }
    assert(stacked(empty, whole).layers =~= whole.layers);
}

/// A closing delimiter where none is open splits a text: what stands before it is a region, and
/// what stands behind it is tokenized as if it were a text on its own.
pub proof fn law_unmatched_close_splits_the_text(
    first: Seq<Lexed>,
    items: Seq<ItemView>,
    close: TokenView,
    rest: Seq<Lexed>,
)
    requires
        laws::is_paired(items),
        laws::spells(first, items),
        delimiter::is_close(close.ty),
    ensures
        recovery::recovered(first + seq![Lexed::Ok(close)] + rest) == joined(
            region_and_error(items, delimiter::unmatched_close(close)),
            recovery::recovered(rest),
        ),
{
    let start = recovery::start();
    let error = delimiter::unmatched_close(close);
    let found = region_and_error(items, error);
    lemma_first_kept(first, items);
    let kept = after_all(start, first);
    let one = seq![Lexed::Ok(close)];
    assert(first + one + rest =~= first + (one + rest));
    lemma_recovered_behind(start, first, one + rest);
    lemma_recovered_behind(kept, one, rest);
    assert(one.drop_first() =~= Seq::empty());
    let next = recovery::after(kept, one[0]);
    assert(after_all(kept, one) == next) by {
        assert(after_all(next, one.drop_first()) == next);
    }
    assert(Seq::<ErrorView>::empty().push(error) =~= seq![error]);
    assert(recovery::expected_closes(kept.nest.layers) =~= Seq::empty());
    assert(next == (Recovery { regions: found.regions, errors: found.errors, ..start })) by {
        assert(recovery::unwound(recovery::expected_closes(kept.nest.layers), close.ty)
            =~= Seq::empty());
    }
    lemma_fresh_start(found, rest);
}

/// Whether a run holds only tokens of one line, none of which ends its statement.
pub open spec fn is_inside_statement(run: Seq<Lexed>) -> bool {
    forall|i: int|
        0 <= i < run.len() ==> (#[trigger] run[i] matches Ok(token) && token.before_lines.len() == 0
            && token.new_line is None && token.ty != TypeView::Terminal(TerminalToken::Semicolon))
}

proof fn lemma_discarded(state: Recovery, run: Seq<Lexed>)
    requires
        state.quarantine is None,
        state.discarding,
        is_inside_statement(run),
    ensures
        after_all(state, run) == state,
    decreases run.len(),
{
    if run.len() > 0 {
        let token = run[0]->Ok_0;
        assert(recovery::after(state, run[0]) == state);
        assert(is_inside_statement(run.drop_first())) by {
            assert forall|i: int| 0 <= i < run.drop_first().len() implies (
            #[trigger] run.drop_first()[i] matches Ok(token) && token.before_lines.len() == 0
                && token.new_line is None && token.ty != TypeView::Terminal(
                TerminalToken::Semicolon,
            )) by {
                assert(run.drop_first()[i] == run[i + 1]);
            }
        }
        lemma_discarded(state, run.drop_first());
    }
}

/// Text outside of all trees that is not a token drops the rest of its statement and no more: what
/// stands before it is a region, and what stands behind the line or the semicolon is tokenized as
/// if it were a text on its own.
pub proof fn law_errors_drop_the_rest_of_their_statement(
    first: Seq<Lexed>,
    items: Seq<ItemView>,
    error: ErrorView,
    run: Seq<Lexed>,
    last: TokenView,
    rest: Seq<Lexed>,
)
    requires
        laws::is_paired(items),
        laws::spells(first, items),
        is_inside_statement(run),
        last.before_lines.len() == 0,
        last.new_line is Some || last.ty == TypeView::Terminal(TerminalToken::Semicolon),
    ensures
        recovery::recovered(
            first + seq![Lexed::Err(error)] + run + seq![Lexed::Ok(last)] + rest,
        ) == joined(region_and_error(items, error), recovery::recovered(rest)),
{
    let start = recovery::start();
    let found = region_and_error(items, error);
    let one = seq![Lexed::Err(error)];
    let end = seq![Lexed::Ok(last)];
    lemma_first_kept(first, items);
    let kept = after_all(start, first);
    assert(first + one + run + end + rest =~= first + (one + (run + (end + rest))));
    lemma_recovered_behind(start, first, one + (run + (end + rest)));
    lemma_recovered_behind(kept, one, run + (end + rest));
    assert(one.drop_first() =~= Seq::empty());
    let dropping = recovery::after(kept, one[0]);
    assert(after_all(kept, one) == dropping) by {
        assert(after_all(dropping, one.drop_first()) == dropping);
    }
    assert(recovery::expected_closes(kept.nest.layers) =~= Seq::empty());
    lemma_recovered_behind(dropping, run, end + rest);
    lemma_discarded(dropping, run);
    lemma_recovered_behind(dropping, end, rest);
    assert(end.drop_first() =~= Seq::empty());
    let next = recovery::after(dropping, end[0]);
    assert(after_all(dropping, end) == next) by {
        assert(after_all(next, end.drop_first()) == next);
    }
    assert(Seq::<ErrorView>::empty().push(error) =~= seq![error]);
    assert(next == (Recovery { regions: found.regions, errors: found.errors, ..start }));
    lemma_fresh_start(found, rest);
}

/// As above, where the statement ends because the next token stands on a later line. That token is
/// kept.
pub proof fn law_errors_drop_nothing_of_the_next_line(
    first: Seq<Lexed>,
    items: Seq<ItemView>,
    error: ErrorView,
    run: Seq<Lexed>,
    rest: Seq<Lexed>,
)
    requires
        laws::is_paired(items),
        laws::spells(first, items),
        is_inside_statement(run),
        rest.len() > 0,
        rest[0] matches Ok(token) && token.before_lines.len() > 0,
    ensures
        recovery::recovered(first + seq![Lexed::Err(error)] + run + rest) == joined(
            region_and_error(items, error),
            recovery::recovered(rest),
        ),
{
    let start = recovery::start();
    let found = region_and_error(items, error);
    let one = seq![Lexed::Err(error)];
    lemma_first_kept(first, items);
    let kept = after_all(start, first);
    assert(first + one + run + rest =~= first + (one + (run + rest)));
    lemma_recovered_behind(start, first, one + (run + rest));
    lemma_recovered_behind(kept, one, run + rest);
    assert(one.drop_first() =~= Seq::empty());
    let dropping = recovery::after(kept, one[0]);
    assert(after_all(kept, one) == dropping) by {
        assert(after_all(dropping, one.drop_first()) == dropping);
    }
    assert(recovery::expected_closes(kept.nest.layers) =~= Seq::empty());
    lemma_recovered_behind(dropping, run, rest);
    lemma_discarded(dropping, run);
    assert(Seq::<ErrorView>::empty().push(error) =~= seq![error]);
    let fresh = Recovery { regions: found.regions, errors: found.errors, ..start };
    assert(dropping == (Recovery { discarding: true, ..fresh }));
    assert(recovery::after(dropping, rest[0]) == recovery::after(fresh, rest[0]));
    lemma_fresh_start(found, rest);
}

/// What is wrong in a tree: text that is not a token, or a delimiter that closes nothing in it.
pub open spec fn is_bad_in(bad: Lexed, close: TerminalToken) -> bool {
    match bad {
        Ok(token) => delimiter::is_close(token.ty) && token.ty != TypeView::Terminal(close),
        Err(_) => true,
    }
}

/// The error about what is wrong in a tree.
pub open spec fn error_in(bad: Lexed, open: TokenView, close: TerminalToken) -> ErrorView {
    match bad {
        Ok(token) => ErrorView {
            ty: ErrorTypeView::MismatchedClose {
                open: open.ty,
                expected_close: TypeView::Terminal(close),
                actual_close: token.ty,
            },
            start: token.start,
            end: token.end,
        },
        Err(error) => error,
    }
}

proof fn lemma_in_tree(
    first: Seq<Lexed>,
    items: Seq<ItemView>,
    open: TokenView,
    close: TerminalToken,
    inner: Seq<Lexed>,
    inner_items: Seq<ItemView>,
)
    requires
        laws::is_paired(items),
        laws::spells(first, items),
        delimiter::closing_of(open.ty) == Some(close),
        laws::is_paired(inner_items),
        laws::spells(inner, inner_items),
    ensures
        ({
            let state = after_all(recovery::start(), first + (seq![Lexed::Ok(open)] + inner));
            &&& state == (Recovery { nest: state.nest, ..recovery::start() })
            &&& state.nest.layers == seq![
                LayerView { open_index: items.len() as int, close_ty: close },
            ]
            &&& state.nest.items.len() > items.len()
            &&& state.nest.items[items.len() as int].token == open
            &&& recovery::before_open(state.nest) == items
        }),
{
    let start = recovery::start();
    let one = seq![Lexed::Ok(open)];
    lemma_first_kept(first, items);
    let kept = after_all(start, first);
    lemma_after_all_joined(start, first, one + inner);
    lemma_after_all_joined(kept, one, inner);
    assert(one.drop_first() =~= Seq::empty());
    let opened = recovery::after(kept, one[0]);
    assert(after_all(kept, one) == opened) by {
        assert(after_all(opened, one.drop_first()) == opened);
    }
    assert(!delimiter::is_close(open.ty));
    let base = opened.nest;
    assert(base == delimiter::with_token(kept.nest, open));
    let layer = LayerView { open_index: items.len() as int, close_ty: close };
    assert(base.layers =~= seq![layer]);
    let empty = delimiter::empty_nest();
    delimiter::lemma_empty_nest();
    assert(stacked(base, empty).items =~= base.items);
    assert(stacked(base, empty).layers =~= base.layers);
    laws::law_strict_finds_every_pairing(inner, inner_items);
    lemma_kept_from(opened, base, empty, inner);
    let whole = Nest { items: inner_items, layers: Seq::empty() };
    assert(stacked(base, whole).layers =~= seq![layer]);
    assert(stacked(base, whole).items.take(items.len() as int) =~= items);
}

/// A tree with an error in it is dropped whole, up to the delimiter that closes it, whatever trees
/// stand in it before and behind the error. What stands before the tree is a region, and what
/// stands behind it is tokenized as if it were a text on its own.
pub proof fn law_trees_with_an_error_are_dropped_whole(
    first: Seq<Lexed>,
    items: Seq<ItemView>,
    open: TokenView,
    inner: Seq<Lexed>,
    inner_items: Seq<ItemView>,
    bad: Lexed,
    more: Seq<Lexed>,
    more_items: Seq<ItemView>,
    close: TokenView,
    close_ty: TerminalToken,
    rest: Seq<Lexed>,
)
    requires
        laws::is_paired(items),
        laws::spells(first, items),
        laws::is_paired(inner_items),
        laws::spells(inner, inner_items),
        laws::is_paired(more_items),
        laws::spells(more, more_items),
        delimiter::closing_of(open.ty) == Some(close_ty),
        close.ty == TypeView::Terminal(close_ty),
        is_bad_in(bad, close_ty),
    ensures
        recovery::recovered(
            first + seq![Lexed::Ok(open)] + inner + seq![bad] + more + seq![Lexed::Ok(close)]
                + rest,
        ) == joined(
            region_and_error(items, error_in(bad, open, close_ty)),
            recovery::recovered(rest),
        ),
{
    let start = recovery::start();
    let error = error_in(bad, open, close_ty);
    let found = region_and_error(items, error);
    let one = seq![Lexed::Ok(open)];
    let wrong = seq![bad];
    let end = seq![Lexed::Ok(close)];
    let before = first + (one + inner);
    assert(first + one + inner + wrong + more + end + rest =~= before + (wrong + (more + (end
        + rest))));
    lemma_in_tree(first, items, open, close_ty, inner, inner_items);
    let kept = after_all(start, before);
    lemma_recovered_behind(start, before, wrong + (more + (end + rest)));
    lemma_recovered_behind(kept, wrong, more + (end + rest));
    assert(wrong.drop_first() =~= Seq::empty());
    let dropping = recovery::after(kept, wrong[0]);
    assert(after_all(kept, wrong) == dropping) by {
        assert(after_all(dropping, wrong.drop_first()) == dropping);
    }
    let closes = seq![close_ty];
    assert(recovery::expected_closes(kept.nest.layers) =~= closes);
    assert(Seq::<ErrorView>::empty().push(error) =~= seq![error]);
    if let Ok(token) = bad {
        if let TypeView::Terminal(actual) = token.ty {
            assert(closes.drop_last() =~= Seq::empty());
            assert(recovery::last_place(closes.drop_last(), actual) is None);
            assert(recovery::last_place(closes, actual) is None);
        }
    }
    let dropped = Recovery {
        regions: found.regions,
        errors: found.errors,
        quarantine: Some(closes),
        ..start
    };
    assert(dropping == dropped);
    lemma_recovered_behind(dropping, more, end + rest);
    delimiter::lemma_empty_nest();
    law_paired_runs_are_dropped_whole(dropping, more, more_items);
    lemma_recovered_behind(dropping, end, rest);
    assert(end.drop_first() =~= Seq::empty());
    let next = recovery::after(dropping, end[0]);
    assert(after_all(dropping, end) == next) by {
        assert(after_all(next, end.drop_first()) == next);
    }
    assert(delimiter::is_close(close.ty));
    assert(delimiter::closing_of(close.ty) is None);
    assert(closes.last() == close_ty);
    assert(recovery::last_place(closes, close_ty) == Some(0int));
    assert(closes.take(0) =~= Seq::empty());
    assert(next == (Recovery { regions: found.regions, errors: found.errors, ..start }));
    lemma_fresh_start(found, rest);
}

/// A tree that is never closed is left out, and what stands before it is a region.
pub proof fn law_open_trees_are_left_out(
    first: Seq<Lexed>,
    items: Seq<ItemView>,
    open: TokenView,
    close_ty: TerminalToken,
    inner: Seq<Lexed>,
    inner_items: Seq<ItemView>,
)
    requires
        laws::is_paired(items),
        laws::spells(first, items),
        delimiter::closing_of(open.ty) == Some(close_ty),
        laws::is_paired(inner_items),
        laws::spells(inner, inner_items),
    ensures
        recovery::recovered(first + seq![Lexed::Ok(open)] + inner) == region_and_error(
            items,
            ErrorView {
                ty: ErrorTypeView::UnmatchedOpener {
                    open: open.ty,
                    close: TypeView::Terminal(close_ty),
                },
                start: open.start,
                end: open.end,
            },
        ),
{
    let start = recovery::start();
    let before = first + (seq![Lexed::Ok(open)] + inner);
    assert(first + seq![Lexed::Ok(open)] + inner =~= before + Seq::empty());
    lemma_in_tree(first, items, open, close_ty, inner, inner_items);
    lemma_recovered_behind(start, before, Seq::empty());
    let state = after_all(start, before);
    let error = delimiter::unmatched_opener(state.nest, state.nest.layers[0]);
    assert(Seq::<ErrorView>::empty() + recovery::unmatched_openers(state.nest, 0) =~= seq![error]);
}

/// The delimiters are braces, square brackets, round brackets and the marks around attributes. Each
/// one closes exactly one other.
pub proof fn law_delimiters_come_in_pairs(open: TypeView, close: TerminalToken)
    ensures
        delimiter::closing_of(open) == Some(close) <==> {
            ||| open == TypeView::Terminal(TerminalToken::OpenBrace) && close
                == TerminalToken::CloseBrace
            ||| open == TypeView::Terminal(TerminalToken::OpenSquare) && close
                == TerminalToken::CloseSquare
            ||| open == TypeView::Terminal(TerminalToken::OpenBracket) && close
                == TerminalToken::CloseBracket
            ||| open == TypeView::Terminal(TerminalToken::OpenAttributes) && close
                == TerminalToken::CloseAttributes
        },
        delimiter::closing_of(open) == Some(close) ==> delimiter::is_close(
            TypeView::Terminal(close),
        ) && !delimiter::is_close(open),
        delimiter::is_close(open) ==> exists|other: TypeView|
            #![trigger delimiter::closing_of(other)]
            delimiter::closing_of(other) is Some && open == TypeView::Terminal(
                delimiter::closing_of(other)->0,
            ),
{
    if delimiter::is_close(open) {
        let brace = TypeView::Terminal(TerminalToken::OpenBrace);
        let square = TypeView::Terminal(TerminalToken::OpenSquare);
        let bracket = TypeView::Terminal(TerminalToken::OpenBracket);
        let attributes = TypeView::Terminal(TerminalToken::OpenAttributes);
        assert(delimiter::closing_of(brace) == Some(TerminalToken::CloseBrace));
        assert(delimiter::closing_of(square) == Some(TerminalToken::CloseSquare));
        assert(delimiter::closing_of(bracket) == Some(TerminalToken::CloseBracket));
        assert(delimiter::closing_of(attributes) == Some(TerminalToken::CloseAttributes));
    }
}

} // verus!
