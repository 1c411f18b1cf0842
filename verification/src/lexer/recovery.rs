use crate::lexer::delimiter;
use crate::lexer::delimiter::{ItemView, LayerView, Nest};
use crate::lexer::error::ErrorView;
use crate::lexer::token_iter::Lexed;
use crate::token::{TerminalToken, TokenView, TypeView};
use vstd::prelude::*;

verus! {

/// The value of a run of tokens that is safe to parse on its own.
pub struct RegionView {
    pub tokens: Seq<ItemView>,
    pub ends_at_error: bool,
}

/// What is known of a text of which only a part is left to read.
pub struct Recovery {
    /// The regions that are complete.
    pub regions: Seq<RegionView>,
    /// The errors found so far.
    pub errors: Seq<ErrorView>,
    /// The tokens behind the last complete region.
    pub nest: Nest,
    /// While the tree around an error is dropped: the delimiters that would close what is open in
    /// it, from the outermost to the innermost.
    pub quarantine: Option<Seq<TerminalToken>>,
    /// Whether the rest of a statement is dropped.
    pub discarding: bool,
}

/// The state before the first token.
pub open spec fn start() -> Recovery {
    Recovery {
        regions: Seq::empty(),
        errors: Seq::empty(),
        nest: delimiter::empty_nest(),
        quarantine: None,
        discarding: false,
    }
}

/// The complete regions with one more, unless that one has no tokens.
pub open spec fn with_region(
    regions: Seq<RegionView>,
    tokens: Seq<ItemView>,
    ends_at_error: bool,
) -> Seq<RegionView> {
    if tokens.len() == 0 {
        regions
    } else {
        regions.push(RegionView { tokens, ends_at_error })
    }
}

/// The tokens of a run before its outermost open delimiter.
pub open spec fn before_open(nest: Nest) -> Seq<ItemView> {
    if nest.layers.len() == 0 {
        nest.items
    } else {
        nest.items.take(nest.layers[0].open_index)
    }
}

/// What closes the open delimiters of a run.
pub open spec fn expected_closes(layers: Seq<LayerView>) -> Seq<TerminalToken> {
    Seq::new(layers.len(), |k: int| layers[k].close_ty)
}

/// The last place of a delimiter, if there is one.
pub open spec fn last_place(closes: Seq<TerminalToken>, close: TerminalToken) -> Option<int>
    decreases closes.len(),
{
    if closes.len() == 0 {
        None
    } else if closes.last() == close {
        Some(closes.len() - 1)
    } else {
        last_place(closes.drop_last(), close)
    }
}

/// What is left to close behind a closing delimiter: it closes the innermost tree that it fits, and
/// all trees inside of that one. If it fits none, it closes nothing.
pub open spec fn unwound(closes: Seq<TerminalToken>, actual: TypeView) -> Seq<TerminalToken> {
    match actual {
        TypeView::Terminal(close) => match last_place(closes, close) {
            Some(place) => closes.take(place),
            None => closes,
        },
        _ => closes,
    }
}

/// What is left to close behind a token of a tree that is dropped.
pub open spec fn quarantined(closes: Seq<TerminalToken>, ty: TypeView) -> Seq<TerminalToken> {
    match delimiter::closing_of(ty) {
        Some(close_ty) => closes.push(close_ty),
        None => if delimiter::is_close(ty) {
            unwound(closes, ty)
        } else {
            closes
        },
    }
}

/// A tree is dropped for as long as anything in it is left to close.
pub open spec fn quarantine_of(closes: Seq<TerminalToken>) -> Option<Seq<TerminalToken>> {
    if closes.len() == 0 {
        None
    } else {
        Some(closes)
    }
}

/// Whether a token is the last one of its statement, whatever follows.
pub open spec fn ends_statement(token: TokenView) -> bool {
    token.new_line is Some || token.ty == TypeView::Terminal(TerminalToken::Semicolon)
}

/// The state behind text that is not a token.
///
/// The tree around it is dropped; outside of any tree, the rest of its statement is.
pub open spec fn after_error(state: Recovery, error: ErrorView) -> Recovery {
    let errors = state.errors.push(error);
    if state.quarantine is Some {
        Recovery { errors, ..state }
    } else {
        Recovery {
            regions: with_region(state.regions, before_open(state.nest), true),
            errors,
            nest: delimiter::empty_nest(),
            quarantine: quarantine_of(expected_closes(state.nest.layers)),
            discarding: state.discarding || state.nest.layers.len() == 0,
        }
    }
}

/// The state behind a token that is neither dropped with a tree nor with a statement.
///
/// A closing delimiter that fits nothing is left out, and splits the text in two regions. One that
/// does not fit the innermost open delimiter drops the outermost tree.
pub open spec fn after_kept(state: Recovery, token: TokenView) -> Recovery {
    match delimiter::add_token(state.nest, token) {
        Ok(nest) => Recovery { nest, discarding: false, ..state },
        Err(error) => Recovery {
            regions: with_region(state.regions, before_open(state.nest), true),
            errors: state.errors.push(error),
            nest: delimiter::empty_nest(),
            quarantine: quarantine_of(unwound(expected_closes(state.nest.layers), token.ty)),
            discarding: false,
        },
    }
}

/// The state behind a token.
pub open spec fn after_token(state: Recovery, token: TokenView) -> Recovery {
    match state.quarantine {
        Some(closes) => Recovery {
            quarantine: quarantine_of(quarantined(closes, token.ty)),
            ..state
        },
        None => if state.discarding && token.before_lines.len() == 0 {
            Recovery { discarding: !ends_statement(token), ..state }
        } else {
            after_kept(state, token)
        },
    }
}

/// The state behind a token or an error.
pub open spec fn after(state: Recovery, found: Lexed) -> Recovery {
    match found {
        Ok(token) => after_token(state, token),
        Err(error) => after_error(state, error),
    }
}

/// The errors about the innermost open delimiters of a run, from the innermost on.
pub open spec fn unmatched_openers(nest: Nest, from: int) -> Seq<ErrorView> {
    Seq::new(
        (nest.layers.len() - from) as nat,
        |i: int| delimiter::unmatched_opener(nest, nest.layers[nest.layers.len() - 1 - i]),
    )
}

/// What is recovered from a text.
pub struct Recovered {
    pub regions: Seq<RegionView>,
    pub errors: Seq<ErrorView>,
}

/// What is recovered once nothing is left to read: no delimiter that is still open is kept.
pub open spec fn finished(state: Recovery) -> Recovered {
    Recovered {
        regions: with_region(
            state.regions,
            before_open(state.nest),
            state.nest.layers.len() > 0,
        ),
        errors: state.errors + unmatched_openers(state.nest, 0),
    }
}

/// What is recovered from a text of which only a part is left to read.
pub open spec fn recovered_from(state: Recovery, rest: Seq<Lexed>) -> Recovered
    decreases rest.len(),
{
    if rest.len() == 0 {
        finished(state)
    } else {
        recovered_from(after(state, rest[0]), rest.drop_first())
    }
}

/// What is recovered from a text.
pub open spec fn recovered(found: Seq<Lexed>) -> Recovered {
    recovered_from(start(), found)
}

/// The first errors of a text, up to a limit.
pub open spec fn limited(errors: Seq<ErrorView>, limit: int) -> Seq<ErrorView> {
    if errors.len() <= limit {
        errors
    } else {
        errors.take(limit)
    }
}

/// What holds of the state at any time: a run of tokens is kept only while nothing is dropped.
pub open spec fn recovery_wf(state: Recovery) -> bool {
    &&& delimiter::nest_wf(state.nest)
    &&& state.quarantine matches Some(closes) ==> closes.len() > 0
    &&& state.quarantine is Some || state.discarding ==> state.nest == delimiter::empty_nest()
    &&& !(state.quarantine is Some && state.discarding)
}

/// Whether every opening delimiter of every region has the index of the token that closes it, and
/// no trees of a region overlap.
pub open spec fn regions_closed(regions: Seq<RegionView>) -> bool {
    forall|r: int|
        0 <= r < regions.len() ==> delimiter::all_closed((#[trigger] regions[r]).tokens)
            && delimiter::well_nested(regions[r].tokens)
}

/// The tokens before the outermost open delimiter are complete trees.
pub proof fn lemma_before_open_closed(nest: Nest)
    requires
        delimiter::nest_wf(nest),
    ensures
        delimiter::all_closed(before_open(nest)),
        delimiter::well_nested(before_open(nest)),
{
    let kept = before_open(nest);
    assert forall|i: int| 0 <= i < kept.len() implies #[trigger] delimiter::is_closed(kept, i) by {
        assert(kept[i] == nest.items[i]);
        if nest.layers.len() > 0 {
            assert(i < nest.layers[0].open_index);
        }
        if delimiter::is_open(nest, i) {
            let k = choose|k: int|
                0 <= k < nest.layers.len() && (#[trigger] nest.layers[k]).open_index == i;
            assert(nest.layers[0].open_index <= nest.layers[k].open_index);
        }
        assert(delimiter::is_closed(nest.items, i));
    }
    assert forall|i: int, j: int|
        0 <= i < j < kept.len() && (#[trigger] kept[i]).close_index is Some && (
        #[trigger] kept[j]).close_index is Some implies kept[i].close_index->0 < j
        || kept[j].close_index->0 < kept[i].close_index->0 by {
        assert(kept[i] == nest.items[i]);
        assert(kept[j] == nest.items[j]);
    }
}

/// What holds of the state at any time holds behind each token and each error.
pub proof fn lemma_after_wf(state: Recovery, found: Lexed)
    requires
        recovery_wf(state),
        regions_closed(state.regions),
    ensures
        recovery_wf(after(state, found)),
        regions_closed(after(state, found).regions),
{
    lemma_before_open_closed(state.nest);
    delimiter::lemma_empty_nest();
    if let Ok(token) = found {
        delimiter::lemma_add_token_wf(state.nest, token);
    }
}

proof fn lemma_recovered_from_closed(state: Recovery, rest: Seq<Lexed>)
    requires
        recovery_wf(state),
        regions_closed(state.regions),
    ensures
        regions_closed(recovered_from(state, rest).regions),
    decreases rest.len(),
{
    if rest.len() == 0 {
        lemma_before_open_closed(state.nest);
    } else {
        lemma_after_wf(state, rest[0]);
        lemma_recovered_from_closed(after(state, rest[0]), rest.drop_first());
    }
}

/// Every opening delimiter in every region that is recovered from a text has the index of the token
/// that closes it.
pub proof fn lemma_recovered_closed(found: Seq<Lexed>)
    ensures
        regions_closed(recovered(found).regions),
{
    delimiter::lemma_empty_nest();
    lemma_recovered_from_closed(start(), found);
}

} // verus!
