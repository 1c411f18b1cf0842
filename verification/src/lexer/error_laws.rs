use crate::lexer;
use crate::lexer::delimiter::{ItemView, LayerView, Nest};
use crate::lexer::error::{ErrorTypeView, ErrorView};
use crate::lexer::recovery::{Recovery, RegionView};
use crate::lexer::token_iter::Lexed;
use crate::lexer::{delimiter, laws, recovery, recovery_laws};
use crate::token::{TerminalToken, TokenView, TypeView};
use vstd::prelude::*;

verus! {

proof fn lemma_errors_stay(state: Recovery, rest: Seq<Lexed>, error: ErrorView)
    requires
        state.errors.contains(error),
    ensures
        recovery::recovered_from(state, rest).errors.contains(error),
    decreases rest.len(),
{
    let place = choose|i: int| 0 <= i < state.errors.len() && state.errors[i] == error;
    if rest.len() == 0 {
        assert(recovery::finished(state).errors[place] == error);
    } else {
        let next = recovery::after(state, rest[0]);
        assert(next.errors[place] == error);
        lemma_errors_stay(next, rest.drop_first(), error);
    }
}

proof fn lemma_error_is_reported(state: Recovery, rest: Seq<Lexed>, index: int)
    requires
        0 <= index < rest.len(),
        rest[index] is Err,
    ensures
        recovery::recovered_from(state, rest).errors.contains(rest[index]->Err_0),
    decreases rest.len(),
{
    let next = recovery::after(state, rest[0]);
    if index == 0 {
        assert(next.errors.last() == rest[0]->Err_0);
        lemma_errors_stay(next, rest.drop_first(), rest[0]->Err_0);
    } else {
        assert(rest.drop_first()[index - 1] == rest[index]);
        lemma_error_is_reported(next, rest.drop_first(), index - 1);
    }
}

/// Every text that is not a token is reported, even if it stands in what is dropped.
pub proof fn law_every_error_is_reported(found: Seq<Lexed>, index: int)
    requires
        0 <= index < found.len(),
    ensures
        found[index] matches Err(error) ==> recovery::recovered(found).errors.contains(error),
{
    if found[index] is Err {
        lemma_error_is_reported(recovery::start(), found, index);
    }
}

/// Text that is not a token, inside of what is dropped, neither ends what is dropped nor makes it
/// longer.
pub proof fn law_errors_change_nothing_that_is_dropped(state: Recovery, error: ErrorView)
    requires
        recovery::recovery_wf(state),
        state.quarantine is Some || state.discarding,
    ensures
        recovery::after(state, Lexed::Err(error)) == (Recovery {
            errors: state.errors.push(error),
            ..state
        }),
{
    if state.quarantine is None {
        assert(recovery::expected_closes(state.nest.layers).len() == 0);
    }
}

/// An opening delimiter with a run of tokens behind it whose delimiters are paired.
pub struct Opening {
    pub open: TokenView,
    pub close_ty: TerminalToken,
    pub inner: Seq<Lexed>,
    pub items: Seq<ItemView>,
}

/// A closing delimiter with a run of tokens before it whose delimiters are paired.
pub struct Closing {
    pub inner: Seq<Lexed>,
    pub items: Seq<ItemView>,
    pub close: TokenView,
}

/// Whether delimiters are opened, each one inside of the one before.
pub open spec fn are_opened(path: Seq<Opening>) -> bool {
    forall|k: int|
        0 <= k < path.len() ==> {
            &&& delimiter::closing_of((#[trigger] path[k]).open.ty) == Some(path[k].close_ty)
            &&& laws::is_paired(path[k].items)
            &&& laws::spells(path[k].inner, path[k].items)
        }
}

/// Whether open delimiters are closed, from the innermost to the outermost.
pub open spec fn are_closed(path: Seq<Opening>, ends: Seq<Closing>) -> bool {
    &&& ends.len() == path.len()
    &&& forall|k: int|
        0 <= k < ends.len() ==> {
            &&& (#[trigger] ends[k]).close.ty == TypeView::Terminal(
                path[path.len() - 1 - k].close_ty,
            )
            &&& laws::is_paired(ends[k].items)
            &&& laws::spells(ends[k].inner, ends[k].items)
        }
}

/// The text of delimiters that are opened, each one inside of the one before.
pub open spec fn opening_text(path: Seq<Opening>) -> Seq<Lexed>
    decreases path.len(),
{
    if path.len() == 0 {
        Seq::empty()
    } else {
        opening_text(path.drop_last()) + (seq![Lexed::Ok(path.last().open)] + path.last().inner)
    }
}

/// The text of closing delimiters, with what stands before each.
pub open spec fn closing_text(ends: Seq<Closing>) -> Seq<Lexed>
    decreases ends.len(),
{
    if ends.len() == 0 {
        Seq::empty()
    } else {
        ends[0].inner + (seq![Lexed::Ok(ends[0].close)] + closing_text(ends.drop_first()))
    }
}

/// What closes delimiters, from the outermost to the innermost.
spec fn closes_of(path: Seq<Opening>) -> Seq<TerminalToken> {
    Seq::new(path.len(), |k: int| path[k].close_ty)
}

proof fn lemma_after_one(state: Recovery, found: Lexed)
    ensures
        recovery_laws::after_all(state, seq![found]) == recovery::after(state, found),
{
    let one = seq![found];
    let next = recovery::after(state, found);
    assert(one.drop_first() =~= Seq::empty());
    assert(recovery_laws::after_all(next, one.drop_first()) == next);
}

/// The state behind an opening delimiter: what was kept before is kept, and one more delimiter is
/// open.
proof fn lemma_opened(state: Recovery, opening: Opening)
    requires
        delimiter::nest_wf(state.nest),
        state.quarantine is None,
        !state.discarding,
        are_opened(seq![opening]),
    ensures
        ({
            let run = seq![Lexed::Ok(opening.open)] + opening.inner;
            let next = recovery_laws::after_all(state, run);
            let count = state.nest.items.len() as int;
            &&& next == (Recovery { nest: next.nest, ..state })
            &&& delimiter::nest_wf(next.nest)
            &&& next.nest.layers == state.nest.layers.push(
                LayerView { open_index: count, close_ty: opening.close_ty },
            )
            &&& next.nest.items.len() > count
            &&& next.nest.items.take(count) == state.nest.items
            &&& next.nest.items[count].token == opening.open
        }),
{
    assert(seq![opening][0] == opening);
    let one = seq![Lexed::Ok(opening.open)];
    recovery_laws::lemma_after_all_joined(state, one, opening.inner);
    lemma_after_one(state, Lexed::Ok(opening.open));
    let opened = recovery::after(state, one[0]);
    assert(!delimiter::is_close(opening.open.ty));
    let base = opened.nest;
    delimiter::lemma_add_token_wf(state.nest, opening.open);
    let empty = delimiter::empty_nest();
    delimiter::lemma_empty_nest();
    assert(recovery_laws::stacked(base, empty).items =~= base.items);
    assert(recovery_laws::stacked(base, empty).layers =~= base.layers);
    laws::law_strict_finds_every_pairing(opening.inner, opening.items);
    recovery_laws::lemma_kept_from(opened, base, empty, opening.inner);
    let whole = Nest { items: opening.items, layers: Seq::empty() };
    let next = recovery_laws::stacked(base, whole);
    assert(next.layers =~= base.layers);
    assert(next.items.take(state.nest.items.len() as int) =~= state.nest.items);
    lemma_kept_wf(opened, opening.inner);
}

proof fn lemma_kept_wf(state: Recovery, run: Seq<Lexed>)
    requires
        delimiter::nest_wf(state.nest),
    ensures
        delimiter::nest_wf(recovery_laws::after_all(state, run).nest),
    decreases run.len(),
{
    if run.len() > 0 {
        delimiter::lemma_empty_nest();
        if let Ok(token) = run[0] {
            delimiter::lemma_add_token_wf(state.nest, token);
        }
        lemma_kept_wf(recovery::after(state, run[0]), run.drop_first());
    }
}

/// What is known of a state behind paired tokens and delimiters that are opened.
spec fn is_behind(state: Recovery, items: Seq<ItemView>, path: Seq<Opening>) -> bool {
    &&& state == (Recovery { nest: state.nest, ..recovery::start() })
    &&& delimiter::nest_wf(state.nest)
    &&& state.nest.layers.len() == path.len()
    &&& forall|k: int|
        0 <= k < path.len() ==> {
            let layer = #[trigger] state.nest.layers[k];
            &&& layer.close_ty == path[k].close_ty
            &&& state.nest.items[layer.open_index].token == path[k].open
        }
    &&& recovery::before_open(state.nest) == items
}

proof fn lemma_behind(first: Seq<Lexed>, items: Seq<ItemView>, path: Seq<Opening>)
    requires
        laws::is_paired(items),
        laws::spells(first, items),
        are_opened(path),
    ensures
        is_behind(
            recovery_laws::after_all(recovery::start(), first + opening_text(path)),
            items,
            path,
        ),
    decreases path.len(),
{
    let start = recovery::start();
    if path.len() == 0 {
        assert(first + opening_text(path) =~= first);
        recovery_laws::lemma_first_kept(first, items);
        delimiter::lemma_empty_nest();
        lemma_kept_wf(start, first);
    } else {
        let outer = path.drop_last();
        let last = path.last();
        assert(are_opened(outer)) by {
            assert forall|k: int| 0 <= k < outer.len() implies {
                &&& delimiter::closing_of((#[trigger] outer[k]).open.ty) == Some(
                    outer[k].close_ty,
                )
                &&& laws::is_paired(outer[k].items)
                &&& laws::spells(outer[k].inner, outer[k].items)
            } by {
                assert(outer[k] == path[k]);
            }
        }
        lemma_behind(first, items, outer);
        let before = first + opening_text(outer);
        let run = seq![Lexed::Ok(last.open)] + last.inner;
        assert(first + opening_text(path) =~= before + run);
        recovery_laws::lemma_after_all_joined(start, before, run);
        let state = recovery_laws::after_all(start, before);
        assert(path[path.len() - 1] == last);
        lemma_opened(state, last);
        let next = recovery_laws::after_all(state, run);
        let count = state.nest.items.len() as int;
        assert forall|k: int| 0 <= k < path.len() implies {
            let layer = #[trigger] next.nest.layers[k];
            &&& layer.close_ty == path[k].close_ty
            &&& next.nest.items[layer.open_index].token == path[k].open
        } by {
            if k < outer.len() {
                assert(outer[k] == path[k]);
                let layer = state.nest.layers[k];
                assert(next.nest.layers[k] == layer);
                assert(next.nest.items.take(count)[layer.open_index]
                    == next.nest.items[layer.open_index]);
            }
        }
        let cut = next.nest.layers[0].open_index;
        if outer.len() == 0 {
            assert(cut == count);
        } else {
            assert(cut == state.nest.layers[0].open_index);
            assert(next.nest.items.take(cut) =~= next.nest.items.take(count).take(cut));
        }
    }
}

proof fn lemma_closed(state: Recovery, path: Seq<Opening>, ends: Seq<Closing>)
    requires
        recovery::recovery_wf(state),
        state.quarantine == recovery::quarantine_of(closes_of(path)),
        are_opened(path),
        are_closed(path, ends),
    ensures
        recovery_laws::after_all(state, closing_text(ends)) == (Recovery {
            quarantine: None,
            ..state
        }),
    decreases ends.len(),
{
    if ends.len() > 0 {
        let end = ends[0];
        let one = seq![Lexed::Ok(end.close)];
        let rest = closing_text(ends.drop_first());
        let outer = path.drop_last();
        let closes = closes_of(path);
        let close_ty = path.last().close_ty;
        recovery_laws::lemma_after_all_joined(state, end.inner, one + rest);
        recovery_laws::law_paired_runs_are_dropped_whole(state, end.inner, end.items);
        recovery_laws::lemma_after_all_joined(state, one, rest);
        lemma_after_one(state, Lexed::Ok(end.close));
        assert(delimiter::closing_of(path[path.len() - 1].open.ty) == Some(close_ty));
        recovery_laws::law_delimiters_come_in_pairs(path.last().open.ty, close_ty);
        assert(closes =~= closes_of(outer).push(close_ty) + Seq::<TerminalToken>::empty());
        recovery_laws::law_delimiters_are_counted_while_a_tree_is_dropped(
            state,
            end.close,
            closes_of(outer),
            Seq::empty(),
            close_ty,
        );
        let next = recovery::after(state, Lexed::Ok(end.close));
        assert forall|k: int| 0 <= k < outer.len() implies {
            &&& delimiter::closing_of((#[trigger] outer[k]).open.ty) == Some(outer[k].close_ty)
            &&& laws::is_paired(outer[k].items)
            &&& laws::spells(outer[k].inner, outer[k].items)
        } by {
            assert(outer[k] == path[k]);
        }
        let later = ends.drop_first();
        assert forall|k: int| 0 <= k < later.len() implies {
            &&& (#[trigger] later[k]).close.ty == TypeView::Terminal(
                outer[outer.len() - 1 - k].close_ty,
            )
            &&& laws::is_paired(later[k].items)
            &&& laws::spells(later[k].inner, later[k].items)
        } by {
            assert(later[k] == ends[k + 1]);
        }
        lemma_closed(next, outer, later);
    }
}

/// Text that is not a token, however deep in trees it stands, drops the outermost one whole: all
/// that are open have to be closed before anything is kept. What stands before the outermost one is
/// a region, and what stands behind it is tokenized as if it were a text on its own.
pub proof fn law_errors_drop_all_open_trees(
    first: Seq<Lexed>,
    items: Seq<ItemView>,
    path: Seq<Opening>,
    error: ErrorView,
    ends: Seq<Closing>,
    rest: Seq<Lexed>,
)
    requires
        laws::is_paired(items),
        laws::spells(first, items),
        path.len() > 0,
        are_opened(path),
        are_closed(path, ends),
    ensures
        recovery::recovered(
            first + opening_text(path) + seq![Lexed::Err(error)] + closing_text(ends) + rest,
        ) == recovery_laws::joined(
            recovery_laws::region_and_error(items, error),
            recovery::recovered(rest),
        ),
{
    let start = recovery::start();
    let found = recovery_laws::region_and_error(items, error);
    let before = first + opening_text(path);
    let one = seq![Lexed::Err(error)];
    let closing = closing_text(ends);
    assert(before + one + closing + rest =~= before + (one + (closing + rest)));
    lemma_behind(first, items, path);
    let kept = recovery_laws::after_all(start, before);
    recovery_laws::lemma_recovered_behind(start, before, one + (closing + rest));
    recovery_laws::lemma_recovered_behind(kept, one, closing + rest);
    lemma_after_one(kept, Lexed::Err(error));
    let dropping = recovery::after(kept, one[0]);
    assert(recovery::expected_closes(kept.nest.layers) =~= closes_of(path));
    assert(Seq::<ErrorView>::empty().push(error) =~= seq![error]);
    delimiter::lemma_empty_nest();
    recovery_laws::lemma_recovered_behind(dropping, closing, rest);
    lemma_closed(dropping, path, ends);
    recovery_laws::lemma_fresh_start(found, rest);
}

/// A closing delimiter that does not fit the innermost open one is an error, and drops the
/// outermost tree. It closes the innermost delimiter that it fits, with all inside of that one;
/// those around it still have to be closed before anything is kept.
pub proof fn law_mismatched_close_closes_what_it_fits(
    first: Seq<Lexed>,
    items: Seq<ItemView>,
    path: Seq<Opening>,
    close: TokenView,
    left: int,
    ends: Seq<Closing>,
    rest: Seq<Lexed>,
)
    requires
        laws::is_paired(items),
        laws::spells(first, items),
        are_opened(path),
        delimiter::is_close(close.ty),
        0 <= left <= path.len(),
        path.len() > 0,
        left < path.len() ==> close.ty == TypeView::Terminal(path[left].close_ty),
        left != path.len() - 1,
        forall|k: int|
            left < k < path.len() ==> close.ty != TypeView::Terminal((#[trigger] path[k]).close_ty),
        left == path.len() ==> forall|k: int|
            0 <= k < path.len() ==> close.ty != TypeView::Terminal((#[trigger] path[k]).close_ty),
        are_closed(path.take(left), ends),
    ensures
        recovery::recovered(
            first + opening_text(path) + seq![Lexed::Ok(close)] + closing_text(ends) + rest,
        ) == recovery_laws::joined(
            recovery_laws::region_and_error(
                items,
                ErrorView {
                    ty: ErrorTypeView::MismatchedClose {
                        open: path.last().open.ty,
                        expected_close: TypeView::Terminal(path.last().close_ty),
                        actual_close: close.ty,
                    },
                    start: close.start,
                    end: close.end,
                },
            ),
            recovery::recovered(rest),
        ),
{
    let start = recovery::start();
    let before = first + opening_text(path);
    let one = seq![Lexed::Ok(close)];
    let closing = closing_text(ends);
    assert(before + one + closing + rest =~= before + (one + (closing + rest)));
    lemma_behind(first, items, path);
    let kept = recovery_laws::after_all(start, before);
    recovery_laws::lemma_recovered_behind(start, before, one + (closing + rest));
    recovery_laws::lemma_recovered_behind(kept, one, closing + rest);
    lemma_after_one(kept, Lexed::Ok(close));
    let dropping = recovery::after(kept, one[0]);
    let closes = closes_of(path);
    let outer = path.take(left);
    assert(recovery::expected_closes(kept.nest.layers) =~= closes);
    assert(kept.nest.layers.last() == kept.nest.layers[path.len() - 1]);
    assert(path.last() == path[path.len() - 1]);
    let error = delimiter::mismatched_close(kept.nest, close);
    assert(delimiter::add_token(kept.nest, close) == Err::<Nest, ErrorView>(error));
    let found = recovery_laws::region_and_error(items, error);
    assert(Seq::<ErrorView>::empty().push(error) =~= seq![error]);
    if let TypeView::Terminal(close_ty) = close.ty {
        laws::lemma_last_place(closes, close_ty);
        if left < path.len() {
            assert(closes[left] == close_ty);
        }
        match recovery::last_place(closes, close_ty) {
            Some(place) => {
                assert(path[place].close_ty == close_ty);
                assert(place == left);
            },
            None => {
                assert(left == path.len());
            },
        }
    }
    assert(recovery::unwound(closes, close.ty) =~= closes_of(outer));
    delimiter::lemma_empty_nest();
    recovery_laws::lemma_recovered_behind(dropping, closing, rest);
    assert(are_opened(outer)) by {
        assert forall|k: int| 0 <= k < outer.len() implies {
            &&& delimiter::closing_of((#[trigger] outer[k]).open.ty) == Some(outer[k].close_ty)
            &&& laws::is_paired(outer[k].items)
            &&& laws::spells(outer[k].inner, outer[k].items)
        } by {
            assert(outer[k] == path[k]);
        }
    }
    lemma_closed(dropping, outer, ends);
    recovery_laws::lemma_fresh_start(found, rest);
}

/// Delimiters that are still open at the end are reported, from the innermost to the outermost, and
/// nothing from the outermost one on is kept.
pub proof fn law_openers_are_reported_from_the_innermost(
    first: Seq<Lexed>,
    items: Seq<ItemView>,
    path: Seq<Opening>,
    index: int,
)
    requires
        laws::is_paired(items),
        laws::spells(first, items),
        are_opened(path),
        0 <= index < path.len(),
    ensures
        ({
            let found = recovery::recovered(first + opening_text(path));
            let opening = path[path.len() - 1 - index];
            &&& found.regions == recovery::with_region(Seq::empty(), items, true)
            &&& found.errors.len() == path.len()
            &&& found.errors[index] == (ErrorView {
                ty: ErrorTypeView::UnmatchedOpener {
                    open: opening.open.ty,
                    close: TypeView::Terminal(opening.close_ty),
                },
                start: opening.open.start,
                end: opening.open.end,
            })
        }),
{
    let start = recovery::start();
    let before = first + opening_text(path);
    assert(before =~= before + Seq::empty());
    lemma_behind(first, items, path);
    recovery_laws::lemma_recovered_behind(start, before, Seq::empty());
    let state = recovery_laws::after_all(start, before);
    assert(state.nest.layers[path.len() - 1 - index].close_ty == path[path.len() - 1
        - index].close_ty);
}

/// A closing delimiter where none is open is reported as such, with its range.
pub proof fn law_unmatched_close_is_reported(
    first: Seq<Lexed>,
    items: Seq<ItemView>,
    close: TokenView,
    rest: Seq<Lexed>,
)
    requires
        laws::is_paired(items),
        laws::spells(first, items),
        delimiter::is_close(close.ty),
    ensures
        delimiter::strict(first + seq![Lexed::Ok(close)] + rest) == Err::<
            Seq<ItemView>,
            ErrorView,
        >(
            ErrorView {
                ty: ErrorTypeView::UnmatchedClose { close: close.ty },
                start: close.start,
                end: close.end,
            },
        ),
{
    recovery_laws::law_unmatched_close_splits_the_text(first, items, close, rest);
    laws::law_strict_returns_first_error(first + seq![Lexed::Ok(close)] + rest);
}

/// Delimiters are valid if and only if each one that opens a tree has the index of a later token,
/// which is the one that closes such a tree.
pub proof fn law_valid_delimiters_lead_to_what_closes_them(region: RegionView)
    ensures
        lexer::has_valid_delimiters(region) <==> forall|i: int|
            0 <= i < region.tokens.len() ==> (delimiter::closing_of(
                (#[trigger] region.tokens[i]).token.ty,
            ) matches Some(close_ty) ==> (region.tokens[i].close_index matches Some(close) && i
                < close < region.tokens.len() && region.tokens[close].token.ty
                == TypeView::Terminal(close_ty))),
{
}

/// Where text was removed behind a region, the statement at its very end can be trusted if and only
/// if it ends with a line, a semicolon or a closing brace. Every other statement of a region can be
/// trusted, and nothing that reaches out of it can.
pub proof fn law_only_the_end_of_a_cut_region_is_doubted(region: RegionView, token_end: int)
    ensures
        token_end > region.tokens.len() ==> !lexer::is_trusted_end(region, token_end),
        token_end < region.tokens.len() ==> lexer::is_trusted_end(region, token_end),
        !region.ends_at_error ==> lexer::is_trusted_end(region, region.tokens.len() as int),
        region.ends_at_error && region.tokens.len() > 0 ==> {
            let last = region.tokens[region.tokens.len() - 1].token;
            lexer::is_trusted_end(region, region.tokens.len() as int) <==> last.new_line is Some
                || last.ty == TypeView::Terminal(TerminalToken::Semicolon) || last.ty
                == TypeView::Terminal(TerminalToken::CloseBrace)
        },
{
}

} // verus!
