use crate::flavor::Flavor;
use crate::lexer;
use crate::lexer::delimiter::{ItemView, Nest};
use crate::lexer::error::ErrorView;
use crate::lexer::recovery::{Recovered, Recovery, RegionView};
use crate::lexer::token_iter::Lexed;
use crate::lexer::{delimiter, recovery, token_iter};
use crate::token::{LiteralView, TerminalToken, TokenView, TypeView};
use vstd::prelude::*;

verus! {

/// Whether every closing delimiter of a run closes one of its items.
pub open spec fn all_closers_used(items: Seq<ItemView>) -> bool {
    forall|c: int|
        0 <= c < items.len() && delimiter::is_close((#[trigger] items[c]).token.ty) ==> is_used(
            items,
            c,
        )
}

/// Whether an item closes another one.
pub open spec fn is_used(items: Seq<ItemView>, close: int) -> bool {
    exists|i: int| 0 <= i < items.len() && (#[trigger] items[i]).close_index == Some(close)
}

/// Whether the delimiters of a run are paired: each one that opens a tree has the index of one that
/// closes it, each one that closes a tree is used, and trees do not overlap.
pub open spec fn is_paired(items: Seq<ItemView>) -> bool {
    &&& delimiter::all_closed(items)
    &&& delimiter::well_nested(items)
    &&& all_closers_used(items)
}

/// Whether a text consists of the tokens of a run of items.
pub open spec fn spells(found: Seq<Lexed>, items: Seq<ItemView>) -> bool {
    &&& found.len() == items.len()
    &&& forall|i: int| 0 <= i < found.len() ==> #[trigger] found[i] == Lexed::Ok(items[i].token)
}

proof fn lemma_add_token_used(nest: Nest, token: TokenView)
    requires
        delimiter::nest_wf(nest),
        all_closers_used(nest.items),
    ensures
        delimiter::add_token(nest, token) matches Ok(next) ==> all_closers_used(next.items),
{
    if let Ok(next) = delimiter::add_token(nest, token) {
        assert forall|c: int|
            0 <= c < next.items.len() && delimiter::is_close(
                (#[trigger] next.items[c]).token.ty,
            ) implies is_used(next.items, c) by {
            if c < nest.items.len() {
                assert(next.items[c].token == nest.items[c].token);
                assert(is_used(nest.items, c));
                let i = choose|i: int|
                    0 <= i < nest.items.len() && (#[trigger] nest.items[i]).close_index == Some(c);
                assert(next.items[i] == nest.items[i]);
            } else {
                let open = nest.layers.last().open_index;
                assert(nest.layers[nest.layers.len() - 1].open_index == open);
                assert(next.items[open].close_index == Some(c));
            }
        }
    }
}

proof fn lemma_strict_from_sound(nest: Nest, done: Seq<Lexed>, rest: Seq<Lexed>)
    requires
        delimiter::nest_wf(nest),
        all_closers_used(nest.items),
        spells(done, nest.items),
    ensures
        delimiter::strict_from(nest, rest) matches Ok(items) ==> is_paired(items) && spells(
            done + rest,
            items,
        ),
    decreases rest.len(),
{
    if rest.len() == 0 {
        assert(done + rest =~= done);
        if nest.layers.len() == 0 {
            assert forall|i: int| 0 <= i < nest.items.len() implies #[trigger] delimiter::is_closed(
                nest.items,
                i,
            ) by {
                assert(!delimiter::is_open(nest, i));
            }
        }
    } else if let Ok(token) = rest[0] {
        delimiter::lemma_add_token_wf(nest, token);
        lemma_add_token_used(nest, token);
        if let Ok(next) = delimiter::add_token(nest, token) {
            assert((done + rest) =~= done.push(rest[0]) + rest.drop_first());
            assert(spells(done.push(rest[0]), next.items)) by {
                assert forall|i: int| 0 <= i < done.len() + 1 implies #[trigger] done.push(
                    rest[0],
                )[i] == Lexed::Ok(next.items[i].token) by {
                    if i < done.len() {
                        assert(done[i] == Lexed::Ok(nest.items[i].token));
                        assert(next.items[i].token == nest.items[i].token);
                    }
                }
            }
            lemma_strict_from_sound(next, done.push(rest[0]), rest.drop_first());
        }
    }
}

/// What strict tokenization returns holds all tokens of the text, and its delimiters are paired.
pub proof fn law_strict_items_are_paired(found: Seq<Lexed>)
    ensures
        delimiter::strict(found) matches Ok(items) ==> is_paired(items) && spells(found, items),
{
    delimiter::lemma_empty_nest();
    lemma_strict_from_sound(delimiter::empty_nest(), Seq::empty(), found);
    assert(Seq::<Lexed>::empty() + found =~= found);
}

/// Whether a run of tokens is the start of a paired run, with what is still open in it.
spec fn is_prefix_nest(nest: Nest, items: Seq<ItemView>) -> bool {
    let n = nest.items.len();
    &&& n <= items.len()
    &&& forall|i: int|
        0 <= i < n ==> {
            &&& (#[trigger] nest.items[i]).token == items[i].token
            &&& nest.items[i].close_index == (if items[i].close_index matches Some(close) && close
                < n {
                items[i].close_index
            } else {
                None
            })
        }
    &&& forall|i: int|
        0 <= i < n && (#[trigger] items[i]).close_index is Some && items[i].close_index->0 >= n
            ==> delimiter::is_open(nest, i)
}

proof fn lemma_prefix_nest_step(nest: Nest, items: Seq<ItemView>)
    requires
        is_paired(items),
        delimiter::nest_wf(nest),
        is_prefix_nest(nest, items),
        nest.items.len() < items.len(),
    ensures
        delimiter::add_token(nest, items[nest.items.len() as int].token) matches Ok(next)
            && is_prefix_nest(next, items),
{
    let n = nest.items.len() as int;
    let token = items[n].token;
    assert(delimiter::is_closed(items, n));
    if delimiter::is_close(token.ty) {
        assert(is_used(items, n));
        let i = choose|i: int|
            0 <= i < items.len() && (#[trigger] items[i]).close_index == Some(n);
        assert(delimiter::is_closed(items, i));
        assert(delimiter::is_open(nest, i));
        let k = choose|k: int|
            0 <= k < nest.layers.len() && (#[trigger] nest.layers[k]).open_index == i;
        let top = nest.layers.last();
        assert(top == nest.layers[nest.layers.len() - 1]);
        let j = top.open_index;
        assert(delimiter::is_closed(items, j));
        assert(nest.items[j].close_index is None);
        assert(nest.items[j].token == items[j].token);
        assert(i <= j);
        assert(i == j) by {
            if i < j {
                assert(items[i].close_index is Some && items[j].close_index is Some);
            }
        }
        assert(nest.items[i].token == items[i].token);
        assert(token.ty == TypeView::Terminal(top.close_ty));
        let next = delimiter::with_close(nest, token);
        assert forall|m: int| 0 <= m < n + 1 implies {
            &&& (#[trigger] next.items[m]).token == items[m].token
            &&& next.items[m].close_index == (if items[m].close_index matches Some(close) && close
                < n + 1 {
                items[m].close_index
            } else {
                None
            })
        } by {
            if m < n && m != i {
                assert(next.items[m] == nest.items[m]);
                if items[m].close_index == Some(n) {
                    assert(delimiter::is_closed(items, m));
                    if m < i {
                        assert(items[m].close_index is Some && items[i].close_index is Some);
                    } else {
                        assert(items[i].close_index is Some && items[m].close_index is Some);
                    }
                }
            }
        }
        assert forall|m: int|
            0 <= m < n + 1 && (#[trigger] items[m]).close_index is Some
                && items[m].close_index->0 >= n + 1 implies delimiter::is_open(next, m) by {
            assert(m < n);
            assert(delimiter::is_open(nest, m));
            let q = choose|q: int|
                0 <= q < nest.layers.len() && (#[trigger] nest.layers[q]).open_index == m;
            assert(q < nest.layers.len() - 1);
            assert(next.layers[q] == nest.layers[q]);
        }
    } else {
        let next = delimiter::with_token(nest, token);
        assert forall|m: int| 0 <= m < n + 1 implies {
            &&& (#[trigger] next.items[m]).token == items[m].token
            &&& next.items[m].close_index == (if items[m].close_index matches Some(close) && close
                < n + 1 {
                items[m].close_index
            } else {
                None
            })
        } by {
            if m < n {
                assert(next.items[m] == nest.items[m]);
                if items[m].close_index == Some(n) {
                    assert(delimiter::is_closed(items, m));
                }
            }
        }
        assert forall|m: int|
            0 <= m < n + 1 && (#[trigger] items[m]).close_index is Some
                && items[m].close_index->0 >= n + 1 implies delimiter::is_open(next, m) by {
            if m < n {
                assert(delimiter::is_open(nest, m));
                let q = choose|q: int|
                    0 <= q < nest.layers.len() && (#[trigger] nest.layers[q]).open_index == m;
                assert(next.layers[q] == nest.layers[q]);
            } else {
                assert(next.layers[next.layers.len() - 1].open_index == m);
            }
        }
    }
}

proof fn lemma_strict_from_complete(nest: Nest, rest: Seq<Lexed>, items: Seq<ItemView>)
    requires
        is_paired(items),
        delimiter::nest_wf(nest),
        is_prefix_nest(nest, items),
        spells(rest, items.skip(nest.items.len() as int)),
    ensures
        delimiter::strict_from(nest, rest) == Ok::<Seq<ItemView>, ErrorView>(items),
    decreases rest.len(),
{
    let n = nest.items.len() as int;
    if rest.len() == 0 {
        assert forall|i: int| 0 <= i < n implies nest.items[i] == #[trigger] items[i] by {
            assert(nest.items[i].token == items[i].token);
            assert(delimiter::is_closed(items, i));
        }
        assert(nest.items =~= items);
        if nest.layers.len() > 0 {
            let i = nest.layers[0].open_index;
            assert(delimiter::is_closed(items, i));
            assert(nest.items[i].close_index is None);
        }
    } else {
        let tail = items.skip(n);
        assert(rest[0] == Lexed::Ok(tail[0].token));
        assert(tail[0] == items[n]);
        lemma_prefix_nest_step(nest, items);
        delimiter::lemma_add_token_wf(nest, items[n].token);
        let next = delimiter::add_token(nest, items[n].token)->Ok_0;
        let after = items.skip(n + 1);
        assert forall|i: int| 0 <= i < rest.drop_first().len() implies #[trigger] rest.drop_first()[i]
            == Lexed::Ok(after[i].token) by {
            assert(rest[i + 1] == Lexed::Ok(tail[i + 1].token));
        }
        lemma_strict_from_complete(next, rest.drop_first(), items);
    }
}

/// Strict tokenization accepts every text whose delimiters can be paired, and finds the pairs:
/// there is no other way to pair them.
pub proof fn law_strict_finds_every_pairing(found: Seq<Lexed>, items: Seq<ItemView>)
    requires
        is_paired(items),
        spells(found, items),
    ensures
        delimiter::strict(found) == Ok::<Seq<ItemView>, ErrorView>(items),
{
    delimiter::lemma_empty_nest();
    assert(items.skip(0) =~= items);
    lemma_strict_from_complete(delimiter::empty_nest(), found, items);
}

proof fn lemma_errors_grow(state: Recovery, rest: Seq<Lexed>)
    ensures
        state.errors.len() <= recovery::recovered_from(state, rest).errors.len(),
        forall|i: int|
            0 <= i < state.errors.len() ==> #[trigger] recovery::recovered_from(
                state,
                rest,
            ).errors[i] == state.errors[i],
    decreases rest.len(),
{
    if rest.len() > 0 {
        lemma_errors_grow(recovery::after(state, rest[0]), rest.drop_first());
    }
}

/// The state of recovery before the first error, when nothing was dropped.
spec fn clean(nest: Nest) -> Recovery {
    Recovery { nest, ..recovery::start() }
}

proof fn lemma_strict_agrees(nest: Nest, rest: Seq<Lexed>)
    ensures
        match delimiter::strict_from(nest, rest) {
            Ok(items) => recovery::recovered_from(clean(nest), rest) == (Recovered {
                regions: recovery::with_region(Seq::empty(), items, false),
                errors: Seq::empty(),
            }),
            Err(error) => {
                let errors = recovery::recovered_from(clean(nest), rest).errors;
                errors.len() > 0 && errors[0] == error
            },
        },
    decreases rest.len(),
{
    if rest.len() == 0 {
        let openers = recovery::unmatched_openers(nest, 0);
        if nest.layers.len() == 0 {
            assert(Seq::<ErrorView>::empty() + openers =~= Seq::empty());
        } else {
            assert((Seq::<ErrorView>::empty() + openers)[0] == openers[0]);
            assert(nest.layers[nest.layers.len() - 1] == nest.layers.last());
        }
    } else {
        let next = recovery::after(clean(nest), rest[0]);
        lemma_errors_grow(next, rest.drop_first());
        match rest[0] {
            Ok(token) => match delimiter::add_token(nest, token) {
                Ok(added) => {
                    assert(next == clean(added));
                    lemma_strict_agrees(added, rest.drop_first());
                },
                Err(error) => {
                    assert(next.errors[0] == error);
                },
            },
            Err(error) => {
                assert(next.errors[0] == error);
            },
        }
    }
}

/// Partial tokenization of a text without errors gives one region with the tokens that strict
/// tokenization gives, or no region if there are no tokens.
pub proof fn law_partial_matches_strict(found: Seq<Lexed>)
    ensures
        delimiter::strict(found) matches Ok(items) ==> recovery::recovered(found) == (Recovered {
            regions: recovery::with_region(Seq::empty(), items, false),
            errors: Seq::empty(),
        }),
{
    lemma_strict_agrees(delimiter::empty_nest(), found);
}

/// Strict tokenization returns the first error that partial tokenization finds, and succeeds if and
/// only if partial tokenization finds none.
pub proof fn law_strict_returns_first_error(found: Seq<Lexed>)
    ensures
        delimiter::strict(found) is Err <==> recovery::recovered(found).errors.len() > 0,
        delimiter::strict(found) matches Err(error) ==> recovery::recovered(found).errors[0]
            == error,
{
    lemma_strict_agrees(delimiter::empty_nest(), found);
}

/// Whether a run of items consists of the tokens of a text from a place on.
pub open spec fn stands_at(items: Seq<ItemView>, found: Seq<Lexed>, place: int) -> bool {
    &&& 0 <= place
    &&& place + items.len() <= found.len()
    &&& forall|i: int|
        0 <= i < items.len() ==> found[place + i] == Lexed::Ok((#[trigger] items[i]).token)
}

/// Whether regions stand in a text at given places, in order, with text between any two of them.
pub open spec fn regions_stand_at(
    regions: Seq<RegionView>,
    found: Seq<Lexed>,
    places: Seq<int>,
) -> bool {
    &&& places.len() == regions.len()
    &&& forall|r: int|
        0 <= r < regions.len() ==> {
            &&& (#[trigger] regions[r]).tokens.len() > 0
            &&& stands_at(regions[r].tokens, found, places[r])
            &&& regions[r].ends_at_error <==> places[r] + regions[r].tokens.len() < found.len()
        }
    &&& forall|r: int, q: int|
        0 <= r < q < regions.len() ==> #[trigger] places[r] + regions[r].tokens.len()
            < #[trigger] places[q]
}

/// Where the regions and the tokens behind them stand in the part of a text that is read.
spec fn state_stands_at(state: Recovery, done: Seq<Lexed>, places: Seq<int>) -> bool {
    &&& places.len() == state.regions.len()
    &&& stands_at(state.nest.items, done, done.len() - state.nest.items.len())
    &&& forall|r: int|
        0 <= r < state.regions.len() ==> {
            &&& (#[trigger] state.regions[r]).tokens.len() > 0
            &&& stands_at(state.regions[r].tokens, done, places[r])
            &&& state.regions[r].ends_at_error
            &&& places[r] + state.regions[r].tokens.len() < done.len() - state.nest.items.len()
        }
    &&& forall|r: int, q: int|
        0 <= r < q < state.regions.len() ==> #[trigger] places[r] + state.regions[r].tokens.len()
            < #[trigger] places[q]
}

proof fn lemma_stands_at_longer(
    items: Seq<ItemView>,
    done: Seq<Lexed>,
    longer: Seq<Lexed>,
    place: int,
)
    requires
        stands_at(items, done, place),
        done.is_prefix_of(longer),
    ensures
        stands_at(items, longer, place),
{
    assert forall|i: int| 0 <= i < items.len() implies longer[place + i] == Lexed::Ok(
        (#[trigger] items[i]).token,
    ) by {
        assert(done[place + i] == Lexed::Ok(items[i].token));
        assert(longer.take(done.len() as int)[place + i] == longer[place + i]);
    }
}

/// The places of the regions behind a step.
spec fn places_after(state: Recovery, found: Lexed, done: Seq<Lexed>, places: Seq<int>) -> Seq<
    int,
> {
    if recovery::after(state, found).regions.len() > state.regions.len() {
        places.push(done.len() - state.nest.items.len())
    } else {
        places
    }
}

proof fn lemma_step_stands_at(state: Recovery, found: Lexed, done: Seq<Lexed>, places: Seq<int>)
    requires
        recovery::recovery_wf(state),
        state_stands_at(state, done, places),
    ensures
        state_stands_at(
            recovery::after(state, found),
            done.push(found),
            places_after(state, found, done, places),
        ),
{
    let next = recovery::after(state, found);
    let longer = done.push(found);
    let next_places = places_after(state, found, done, places);
    let start = done.len() - state.nest.items.len();
    let cut = recovery::before_open(state.nest);
    assert(longer.take(done.len() as int) =~= done);
    if state.nest.layers.len() > 0 {
        assert(0 <= state.nest.layers[0].open_index < state.nest.items.len());
    }
    assert(stands_at(cut, done, start)) by {
        assert forall|i: int| 0 <= i < cut.len() implies done[start + i] == Lexed::Ok(
            (#[trigger] cut[i]).token,
        ) by {
            assert(cut[i] == state.nest.items[i]);
        }
    }
    lemma_stands_at_longer(cut, done, longer, start);
    assert forall|r: int| 0 <= r < state.regions.len() implies stands_at(
        (#[trigger] state.regions[r]).tokens,
        longer,
        places[r],
    ) by {
        lemma_stands_at_longer(state.regions[r].tokens, done, longer, places[r]);
    }
    assert forall|i: int| 0 <= i < next.nest.items.len() implies longer[longer.len()
        - next.nest.items.len() + i] == Lexed::Ok((#[trigger] next.nest.items[i]).token) by {
        if i < state.nest.items.len() && next.nest.items.len() == state.nest.items.len() + 1 {
            assert(done[start + i] == Lexed::Ok(state.nest.items[i].token));
            assert(next.nest.items[i].token == state.nest.items[i].token);
        }
    }
    assert forall|r: int| 0 <= r < next.regions.len() implies {
        &&& (#[trigger] next.regions[r]).tokens.len() > 0
        &&& stands_at(next.regions[r].tokens, longer, next_places[r])
        &&& next.regions[r].ends_at_error
        &&& next_places[r] + next.regions[r].tokens.len() < longer.len() - next.nest.items.len()
    } by {
        if r < state.regions.len() {
            assert(next.regions[r] == state.regions[r]);
            assert(next_places[r] == places[r]);
        }
    }
    assert forall|r: int, q: int| 0 <= r < q < next.regions.len() implies #[trigger] next_places[r]
        + next.regions[r].tokens.len() < #[trigger] next_places[q] by {
        assert(next.regions[r] == state.regions[r]);
        assert(next_places[r] == places[r]);
        if q < state.regions.len() {
            assert(next_places[q] == places[q]);
        }
    }
}

proof fn lemma_regions_stand_at(
    state: Recovery,
    done: Seq<Lexed>,
    rest: Seq<Lexed>,
    places: Seq<int>,
) -> (all_places: Seq<int>)
    requires
        recovery::recovery_wf(state),
        recovery::regions_closed(state.regions),
        state_stands_at(state, done, places),
    ensures
        regions_stand_at(
            recovery::recovered_from(state, rest).regions,
            done + rest,
            all_places,
        ),
    decreases rest.len(),
{
    if rest.len() == 0 {
        assert(done + rest =~= done);
        let start = done.len() - state.nest.items.len();
        let cut = recovery::before_open(state.nest);
        let regions = recovery::finished(state).regions;
        if state.nest.layers.len() > 0 {
            assert(0 <= state.nest.layers[0].open_index < state.nest.items.len());
        }
        assert(stands_at(cut, done, start)) by {
            assert forall|i: int| 0 <= i < cut.len() implies done[start + i] == Lexed::Ok(
                (#[trigger] cut[i]).token,
            ) by {
                assert(cut[i] == state.nest.items[i]);
            }
        }
        let all_places = if cut.len() > 0 {
            places.push(start)
        } else {
            places
        };
        assert forall|r: int| 0 <= r < regions.len() implies {
            &&& (#[trigger] regions[r]).tokens.len() > 0
            &&& stands_at(regions[r].tokens, done, all_places[r])
            &&& regions[r].ends_at_error <==> all_places[r] + regions[r].tokens.len() < done.len()
        } by {
            if r < state.regions.len() {
                assert(regions[r] == state.regions[r]);
                assert(all_places[r] == places[r]);
            }
        }
        assert forall|r: int, q: int| 0 <= r < q < regions.len() implies #[trigger] all_places[r]
            + regions[r].tokens.len() < #[trigger] all_places[q] by {
            assert(regions[r] == state.regions[r]);
            assert(all_places[r] == places[r]);
            if q < state.regions.len() {
                assert(all_places[q] == places[q]);
            }
        }
        all_places
    } else {
        lemma_step_stands_at(state, rest[0], done, places);
        recovery::lemma_after_wf(state, rest[0]);
        assert(done + rest =~= done.push(rest[0]) + rest.drop_first());
        lemma_regions_stand_at(
            recovery::after(state, rest[0]),
            done.push(rest[0]),
            rest.drop_first(),
            places_after(state, rest[0], done, places),
        )
    }
}

/// No token is made up, and no region is empty: each region is a contiguous run of the tokens of
/// the text. The regions stand in the order of the text, and a region ends at an error if and only
/// if text was removed immediately behind it.
pub proof fn law_regions_are_parts_of_the_text(found: Seq<Lexed>)
    ensures
        exists|places: Seq<int>|
            regions_stand_at(recovery::recovered(found).regions, found, places),
{
    delimiter::lemma_empty_nest();
    let places = lemma_regions_stand_at(recovery::start(), Seq::empty(), found, Seq::empty());
    assert(Seq::<Lexed>::empty() + found =~= found);
    assert(regions_stand_at(recovery::recovered(found).regions, found, places));
}

/// Every region is paired on its own.
pub open spec fn regions_paired(regions: Seq<RegionView>) -> bool {
    forall|r: int| 0 <= r < regions.len() ==> is_paired((#[trigger] regions[r]).tokens)
}

proof fn lemma_before_open_paired(nest: Nest)
    requires
        delimiter::nest_wf(nest),
        all_closers_used(nest.items),
    ensures
        is_paired(recovery::before_open(nest)),
{
    let kept = recovery::before_open(nest);
    recovery::lemma_before_open_closed(nest);
    assert forall|c: int|
        0 <= c < kept.len() && delimiter::is_close((#[trigger] kept[c]).token.ty) implies is_used(
        kept,
        c,
    ) by {
        assert(kept[c] == nest.items[c]);
        assert(is_used(nest.items, c));
        let i = choose|i: int|
            0 <= i < nest.items.len() && (#[trigger] nest.items[i]).close_index == Some(c);
        assert(delimiter::is_open(nest, i) || delimiter::is_closed(nest.items, i));
        assert(i < c);
        assert(kept[i] == nest.items[i]);
    }
}

proof fn lemma_regions_paired(state: Recovery, rest: Seq<Lexed>)
    requires
        recovery::recovery_wf(state),
        recovery::regions_closed(state.regions),
        all_closers_used(state.nest.items),
        regions_paired(state.regions),
    ensures
        regions_paired(recovery::recovered_from(state, rest).regions),
    decreases rest.len(),
{
    lemma_before_open_paired(state.nest);
    if rest.len() > 0 {
        let next = recovery::after(state, rest[0]);
        if let Ok(token) = rest[0] {
            lemma_add_token_used(state.nest, token);
        }
        recovery::lemma_after_wf(state, rest[0]);
        lemma_regions_paired(next, rest.drop_first());
    }
}

/// The delimiters of every region are paired within the region, whatever errors the text has: no
/// delimiter that is not closed and none that closes nothing is left in a region.
pub proof fn law_regions_are_paired(found: Seq<Lexed>)
    ensures
        regions_paired(recovery::recovered(found).regions),
{
    delimiter::lemma_empty_nest();
    lemma_regions_paired(recovery::start(), found);
}

/// Every opening delimiter in every region has a `close_index` within the region, which is the
/// index of a later token that closes it.
pub proof fn law_regions_have_valid_delimiters(found: Seq<Lexed>, index: int)
    requires
        0 <= index < recovery::recovered(found).regions.len(),
    ensures
        lexer::has_valid_delimiters(recovery::recovered(found).regions[index]),
{
    recovery::lemma_recovered_closed(found);
    let region = recovery::recovered(found).regions[index];
    assert forall|i: int|
        0 <= i < region.tokens.len() && delimiter::closing_of(
            (#[trigger] region.tokens[i]).token.ty,
        ) is Some implies delimiter::is_closed(region.tokens, i) by {
        assert(delimiter::all_closed(region.tokens));
    }
}

/// Where nothing was removed behind a region, every statement of the region can be trusted. That
/// is so of the only region of a text without errors.
pub proof fn law_text_without_errors_is_trusted(found: Seq<Lexed>, token_end: int)
    requires
        recovery::recovered(found).errors.len() == 0,
        recovery::recovered(found).regions.len() > 0,
    ensures
        recovery::recovered(found).regions.len() == 1,
        lexer::is_trusted_end(recovery::recovered(found).regions[0], token_end) <==> token_end
            <= recovery::recovered(found).regions[0].tokens.len(),
{
    law_strict_returns_first_error(found);
    law_partial_matches_strict(found);
}

pub(crate) proof fn lemma_last_place(closes: Seq<TerminalToken>, close: TerminalToken)
    ensures
        match recovery::last_place(closes, close) {
            Some(place) => {
                &&& 0 <= place < closes.len()
                &&& closes[place] == close
                &&& forall|k: int| place < k < closes.len() ==> #[trigger] closes[k] != close
            },
            None => !closes.contains(close),
        },
    decreases closes.len(),
{
    if closes.len() > 0 && closes.last() != close {
        let shorter = closes.drop_last();
        lemma_last_place(shorter, close);
        assert forall|k: int| 0 <= k < closes.len() - 1 implies closes[k] == shorter[k] by {}
        if closes.contains(close) {
            let k = choose|k: int| 0 <= k < closes.len() && closes[k] == close;
            assert(shorter[k] == close);
        }
    }
}

/// While a tree is dropped, nothing of the text is kept. Only the delimiter that closes the
/// outermost open delimiter of the tree ends this. A closing delimiter that fits nothing that is
/// open in the tree changes nothing.
pub proof fn law_only_its_own_close_ends_a_dropped_tree(state: Recovery, found: Lexed)
    requires
        recovery::recovery_wf(state),
        state.quarantine is Some,
    ensures
        recovery::after(state, found).regions == state.regions,
        recovery::after(state, found).nest == delimiter::empty_nest(),
        recovery::after(state, found).quarantine is None ==> (found matches Ok(token) && token.ty
            == TypeView::Terminal(state.quarantine->0[0])),
        found matches Ok(token) ==> (token.ty matches TypeView::Terminal(close)
            ==> delimiter::is_close(token.ty) && !state.quarantine->0.contains(close)
            ==> recovery::after(state, found) == state),
{
    if let Ok(token) = found {
        if let TypeView::Terminal(close) = token.ty {
            lemma_last_place(state.quarantine->0, close);
        }
    }
}

/// While the rest of a statement is dropped, no token of its line is kept. This ends with the line
/// or with a semicolon.
pub proof fn law_rest_of_a_statement_is_dropped(state: Recovery, token: TokenView)
    requires
        recovery::recovery_wf(state),
        state.discarding,
        token.before_lines.len() == 0,
    ensures
        recovery::after_token(state, token).regions == state.regions,
        recovery::after_token(state, token).nest == delimiter::empty_nest(),
        recovery::after_token(state, token).errors == state.errors,
        recovery::after_token(state, token).discarding <==> token.new_line is None && token.ty
            != TypeView::Terminal(TerminalToken::Semicolon),
{
}

/// The first byte of a token or an error.
pub open spec fn start_of(found: Lexed) -> int {
    match found {
        Ok(token) => token.start,
        Err(error) => error.start,
    }
}

/// The end of a token or an error.
pub open spec fn end_of(found: Lexed) -> int {
    match found {
        Ok(token) => token.end,
        Err(error) => error.end,
    }
}

/// Whether tokens and errors take up bytes of a text from a given byte on, in order and without
/// overlap.
pub open spec fn ranges_in_order(found: Seq<Lexed>, from: int, len: int) -> bool {
    &&& forall|i: int|
        0 <= i < found.len() ==> from <= start_of(#[trigger] found[i]) < end_of(found[i]) <= len
    &&& forall|i: int, j: int|
        0 <= i < j < found.len() ==> end_of(#[trigger] found[i]) <= start_of(#[trigger] found[j])
}

proof fn lemma_ranges_in_order(bytes: Seq<u8>, at: int)
    requires
        0 <= at <= bytes.len(),
    ensures
        ranges_in_order(token_iter::lexed_from(bytes, at), at, bytes.len() as int),
    decreases bytes.len() - at,
{
    token_iter::lemma_next_progress(bytes, at);
    token_iter::lemma_next_range(bytes, at);
    if let Some((first, next)) = token_iter::next_from(bytes, at) {
        lemma_ranges_in_order(bytes, next);
        let rest = token_iter::lexed_from(bytes, next);
        let found = token_iter::lexed_from(bytes, at);
        assert(found =~= seq![first] + rest);
        assert forall|i: int| 0 <= i < found.len() implies at <= start_of(#[trigger] found[i])
            < end_of(found[i]) <= bytes.len() by {
            if i > 0 {
                assert(found[i] == rest[i - 1]);
            }
        }
        assert forall|i: int, j: int| 0 <= i < j < found.len() implies end_of(#[trigger] found[i])
            <= start_of(#[trigger] found[j]) by {
            assert(found[j] == rest[j - 1]);
            if i > 0 {
                assert(found[i] == rest[i - 1]);
            }
        }
    }
}

/// The ranges of the tokens and errors of a text lie in the text, in its order, and do not overlap.
pub proof fn law_ranges_are_in_order(bytes: Seq<u8>, flavor: Flavor)
    ensures
        ranges_in_order(token_iter::lexed(bytes, flavor), 0, bytes.len() as int),
{
    lemma_ranges_in_order(bytes, 0);
}

/// The spelling that a token keeps, if it keeps one.
pub open spec fn spelling(ty: TypeView) -> Option<Seq<u8>> {
    match ty {
        TypeView::Terminal(_) => None,
        TypeView::Identifier(text) => Some(text),
        TypeView::Literal(LiteralView::Int(text)) => Some(text),
        TypeView::Literal(LiteralView::Float(text)) => Some(text),
        TypeView::Literal(LiteralView::Char(text)) => Some(text),
        TypeView::Literal(LiteralView::String(text)) => Some(text),
        TypeView::Literal(LiteralView::VerbatimString(text)) => Some(text),
        TypeView::Literal(LiteralView::Asset(text)) => Some(text),
    }
}

proof fn lemma_names_are_spelled(bytes: Seq<u8>, at: int, index: int)
    requires
        0 <= at <= bytes.len(),
        0 <= index < token_iter::lexed_from(bytes, at).len(),
    ensures
        token_iter::lexed_from(bytes, at)[index] matches Ok(token) ==> (spelling(
            token.ty,
        ) matches Some(text) ==> text == bytes.subrange(token.start, token.end)),
    decreases bytes.len() - at,
{
    token_iter::lemma_next_progress(bytes, at);
    if let Some((_, next)) = token_iter::next_from(bytes, at) {
        if index > 0 {
            lemma_names_are_spelled(bytes, next, index - 1);
        }
    }
}

/// Each name and each literal keeps the bytes of the text that its range gives.
pub proof fn law_names_are_spelled_as_in_the_text(bytes: Seq<u8>, flavor: Flavor, index: int)
    requires
        0 <= index < token_iter::lexed(bytes, flavor).len(),
    ensures
        token_iter::lexed(bytes, flavor)[index] matches Ok(token) ==> (spelling(
            token.ty,
        ) matches Some(text) ==> text == bytes.subrange(token.start, token.end)),
{
    lemma_names_are_spelled(bytes, 0, index);
}

/// A limit on the errors keeps the first ones, and no others.
pub proof fn law_limit_keeps_the_first_errors(found: Seq<Lexed>, limit: int)
    requires
        0 <= limit,
    ensures
        recovery::limited(recovery::recovered(found).errors, limit).len() <= limit,
        recovery::recovered(found).errors.len() > limit ==> recovery::limited(
            recovery::recovered(found).errors,
            limit,
        ).len() == limit,
        recovery::limited(recovery::recovered(found).errors, limit).is_prefix_of(
            recovery::recovered(found).errors,
        ),
        recovery::recovered(found).errors.len() <= limit ==> recovery::limited(
            recovery::recovered(found).errors,
            limit,
        ) == recovery::recovered(found).errors,
{
    let errors = recovery::recovered(found).errors;
    let kept = recovery::limited(errors, limit);
    assert(errors.take(kept.len() as int) =~= kept);
}

} // verus!
