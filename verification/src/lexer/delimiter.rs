use crate::lexer::error::{ErrorTypeView, ErrorView};
use crate::lexer::token_iter::Lexed;
use crate::token::{TerminalToken, TokenType, TokenView, TypeView};
use vstd::prelude::*;

verus! {

/// The token that closes a tree, if a token opens one.
pub open spec fn closing_of(opening: TypeView) -> Option<TerminalToken> {
    match opening {
        TypeView::Terminal(TerminalToken::OpenBrace) => Some(TerminalToken::CloseBrace),
        TypeView::Terminal(TerminalToken::OpenSquare) => Some(TerminalToken::CloseSquare),
        TypeView::Terminal(TerminalToken::OpenBracket) => Some(TerminalToken::CloseBracket),
        TypeView::Terminal(TerminalToken::OpenAttributes) => Some(TerminalToken::CloseAttributes),
        _ => None,
    }
}

/// Whether a token closes a tree.
pub open spec fn is_close(ty: TypeView) -> bool {
    ||| ty == TypeView::Terminal(TerminalToken::CloseBrace)
    ||| ty == TypeView::Terminal(TerminalToken::CloseSquare)
    ||| ty == TypeView::Terminal(TerminalToken::CloseBracket)
    ||| ty == TypeView::Terminal(TerminalToken::CloseAttributes)
}

/// Returns the token that closes a tree, if the provided token is a valid opening token.
pub fn closing_token(opening: TokenType<'_>) -> (closing: Option<TerminalToken>)
    ensures
        closing == closing_of(opening@),
{
    match opening {
        TokenType::Terminal(TerminalToken::OpenBrace) => Some(TerminalToken::CloseBrace),
        TokenType::Terminal(TerminalToken::OpenSquare) => Some(TerminalToken::CloseSquare),
        TokenType::Terminal(TerminalToken::OpenBracket) => Some(TerminalToken::CloseBracket),
        TokenType::Terminal(TerminalToken::OpenAttributes) => Some(TerminalToken::CloseAttributes),
        _ => None,
    }
}

/// Returns true if the token is a close delimiter.
pub fn is_close_token(ty: TokenType<'_>) -> (closes: bool)
    ensures
        closes == is_close(ty@),
{
    matches!(
        ty,
        TokenType::Terminal(TerminalToken::CloseBrace)
            | TokenType::Terminal(TerminalToken::CloseSquare)
            | TokenType::Terminal(TerminalToken::CloseBracket)
            | TokenType::Terminal(TerminalToken::CloseAttributes)
    )
}

/// Returns true if the token is the given terminal.
pub fn is_terminal(ty: TokenType<'_>, terminal: TerminalToken) -> (same: bool)
    ensures
        same == (ty@ == TypeView::Terminal(terminal)),
{
    match ty {
        TokenType::Terminal(found) => found == terminal,
        _ => false,
    }
}

/// The value of a token with the index of the token that closes it.
pub struct ItemView {
    pub token: TokenView,
    pub close_index: Option<int>,
}

/// An open delimiter: where it stands, and what closes it.
pub struct LayerView {
    pub open_index: int,
    pub close_ty: TerminalToken,
}

/// A run of tokens, with its open delimiters from the outermost to the innermost.
pub struct Nest {
    pub items: Seq<ItemView>,
    pub layers: Seq<LayerView>,
}

/// The run without tokens.
pub open spec fn empty_nest() -> Nest {
    Nest { items: Seq::empty(), layers: Seq::empty() }
}

/// The error about a token that closes nothing.
pub open spec fn unmatched_close(token: TokenView) -> ErrorView {
    ErrorView {
        ty: ErrorTypeView::UnmatchedClose { close: token.ty },
        start: token.start,
        end: token.end,
    }
}

/// The error about a token that does not close the innermost open delimiter.
pub open spec fn mismatched_close(nest: Nest, token: TokenView) -> ErrorView {
    let top = nest.layers.last();
    ErrorView {
        ty: ErrorTypeView::MismatchedClose {
            open: nest.items[top.open_index].token.ty,
            expected_close: TypeView::Terminal(top.close_ty),
            actual_close: token.ty,
        },
        start: token.start,
        end: token.end,
    }
}

/// The error about a delimiter that is still open at the end.
pub open spec fn unmatched_opener(nest: Nest, layer: LayerView) -> ErrorView {
    let open = nest.items[layer.open_index].token;
    ErrorView {
        ty: ErrorTypeView::UnmatchedOpener {
            open: open.ty,
            close: TypeView::Terminal(layer.close_ty),
        },
        start: open.start,
        end: open.end,
    }
}

/// A token as the item behind a run, before it is known what closes it.
pub open spec fn new_item(token: TokenView) -> ItemView {
    ItemView { token, close_index: None }
}

/// A run with one more token that closes no delimiter.
pub open spec fn with_token(nest: Nest, token: TokenView) -> Nest {
    Nest {
        items: nest.items.push(new_item(token)),
        layers: match closing_of(token.ty) {
            Some(close_ty) => nest.layers.push(
                LayerView { open_index: nest.items.len() as int, close_ty },
            ),
            None => nest.layers,
        },
    }
}

/// A run with one more token that closes its innermost open delimiter.
pub open spec fn with_close(nest: Nest, token: TokenView) -> Nest {
    let open_index = nest.layers.last().open_index;
    let open = nest.items[open_index];
    Nest {
        items: nest.items.update(
            open_index,
            ItemView { token: open.token, close_index: Some(nest.items.len() as int) },
        ).push(new_item(token)),
        layers: nest.layers.drop_last(),
    }
}

/// A run with one more token, or the error about that token.
///
/// A close delimiter must match the innermost open delimiter.
pub open spec fn add_token(nest: Nest, token: TokenView) -> Result<Nest, ErrorView> {
    if !is_close(token.ty) {
        Ok(with_token(nest, token))
    } else if nest.layers.len() == 0 {
        Err(unmatched_close(token))
    } else if token.ty == TypeView::Terminal(nest.layers.last().close_ty) {
        Ok(with_close(nest, token))
    } else {
        Err(mismatched_close(nest, token))
    }
}

/// The items of a text of which only a part is left to read, or the first error in it.
pub open spec fn strict_from(nest: Nest, rest: Seq<Lexed>) -> Result<Seq<ItemView>, ErrorView>
    decreases rest.len(),
{
    if rest.len() == 0 {
        if nest.layers.len() == 0 {
            Ok(nest.items)
        } else {
            Err(unmatched_opener(nest, nest.layers.last()))
        }
    } else {
        match rest[0] {
            Ok(token) => match add_token(nest, token) {
                Ok(next) => strict_from(next, rest.drop_first()),
                Err(error) => Err(error),
            },
            Err(error) => Err(error),
        }
    }
}

/// The items of a text, or the first error in it.
pub open spec fn strict(found: Seq<Lexed>) -> Result<Seq<ItemView>, ErrorView> {
    strict_from(empty_nest(), found)
}

/// Whether an item has what its token needs: the index of a later token that closes it if it opens
/// a tree, and no index otherwise.
pub open spec fn is_closed(items: Seq<ItemView>, index: int) -> bool {
    match closing_of(items[index].token.ty) {
        Some(close_ty) => items[index].close_index matches Some(close) && index < close
            < items.len() && items[close].token.ty == TypeView::Terminal(close_ty),
        None => items[index].close_index is None,
    }
}

/// Whether every opening delimiter of a run has the index of the token that closes it, and no other
/// token has one.
pub open spec fn all_closed(items: Seq<ItemView>) -> bool {
    forall|i: int| 0 <= i < items.len() ==> #[trigger] is_closed(items, i)
}

/// Whether an item is an open delimiter of a run.
pub open spec fn is_open(nest: Nest, index: int) -> bool {
    exists|k: int|
        0 <= k < nest.layers.len() && (#[trigger] nest.layers[k]).open_index == index
}

/// Whether the layers of a run are its delimiters that are not closed yet, from the outermost to
/// the innermost.
pub open spec fn layers_wf(nest: Nest) -> bool {
    &&& forall|k: int|
        0 <= k < nest.layers.len() ==> {
            let layer = #[trigger] nest.layers[k];
            &&& 0 <= layer.open_index < nest.items.len()
            &&& closing_of(nest.items[layer.open_index].token.ty) == Some(layer.close_ty)
            &&& nest.items[layer.open_index].close_index is None
        }
    &&& forall|k: int, m: int|
        0 <= k < m < nest.layers.len() ==> (#[trigger] nest.layers[k]).open_index < (
        #[trigger] nest.layers[m]).open_index
}

/// Whether each item of a run is either an open delimiter or has what its token needs.
pub open spec fn items_wf(nest: Nest) -> bool {
    forall|i: int|
        0 <= i < nest.items.len() ==> is_open(nest, i) || #[trigger] is_closed(nest.items, i)
}

/// Whether no tree of a run that is closed holds an open delimiter.
pub open spec fn layers_apart(nest: Nest) -> bool {
    forall|i: int, k: int|
        0 <= i < nest.items.len() && 0 <= k < nest.layers.len() && (
        #[trigger] nest.items[i]).close_index is Some ==> nest.items[i].close_index->0 < (
        #[trigger] nest.layers[k]).open_index || nest.layers[k].open_index < i
}

/// Whether any two trees of a run that are closed lie apart or one inside of the other.
pub open spec fn well_nested(items: Seq<ItemView>) -> bool {
    forall|i: int, j: int|
        0 <= i < j < items.len() && (#[trigger] items[i]).close_index is Some && (
        #[trigger] items[j]).close_index is Some ==> items[i].close_index->0 < j
            || items[j].close_index->0 < items[i].close_index->0
}

/// What holds of a run of tokens and its open delimiters at any time.
pub open spec fn nest_wf(nest: Nest) -> bool {
    &&& layers_wf(nest)
    &&& items_wf(nest)
    &&& layers_apart(nest)
    &&& well_nested(nest.items)
}

pub proof fn lemma_empty_nest()
    ensures
        nest_wf(empty_nest()),
{
}

proof fn lemma_with_token_wf(nest: Nest, token: TokenView)
    requires
        nest_wf(nest),
    ensures
        nest_wf(with_token(nest, token)),
{
    let next = with_token(nest, token);
    assert forall|i: int| 0 <= i < next.items.len() implies is_open(next, i) || #[trigger] is_closed(
        next.items,
        i,
    ) by {
        if i < nest.items.len() {
            assert(next.items[i] == nest.items[i]);
            if is_open(nest, i) {
                let k = choose|k: int|
                    0 <= k < nest.layers.len() && (#[trigger] nest.layers[k]).open_index == i;
                assert(next.layers[k] == nest.layers[k]);
            } else {
                assert(is_closed(nest.items, i));
            }
        } else if closing_of(token.ty) is Some {
            assert(next.layers[next.layers.len() - 1].open_index == i);
        }
    }
    assert(layers_apart(next)) by {
        assert forall|i: int, k: int|
            0 <= i < next.items.len() && 0 <= k < next.layers.len() && (
            #[trigger] next.items[i]).close_index is Some implies next.items[i].close_index->0 < (
        #[trigger] next.layers[k]).open_index || next.layers[k].open_index < i by {
            assert(next.items[i] == nest.items[i]);
            assert(is_open(nest, i) || is_closed(nest.items, i));
            if k < nest.layers.len() {
                assert(next.layers[k] == nest.layers[k]);
            }
        }
    }
}

proof fn lemma_with_close_wf(nest: Nest, token: TokenView)
    requires
        nest_wf(nest),
        nest.layers.len() > 0,
        token.ty == TypeView::Terminal(nest.layers.last().close_ty),
        is_close(token.ty),
    ensures
        nest_wf(with_close(nest, token)),
{
    let next = with_close(nest, token);
    let top = nest.layers.last();
    let open = top.open_index;
    assert(nest.layers[nest.layers.len() - 1] == top);
    assert forall|i: int| 0 <= i < next.items.len() implies is_open(next, i) || #[trigger] is_closed(
        next.items,
        i,
    ) by {
        if i == open {
        } else if i < nest.items.len() {
            assert(next.items[i] == nest.items[i]);
            if is_open(nest, i) {
                let k = choose|k: int|
                    0 <= k < nest.layers.len() && (#[trigger] nest.layers[k]).open_index == i;
                assert(next.layers[k] == nest.layers[k]);
            } else {
                assert(is_closed(nest.items, i));
            }
        }
    }
    assert(layers_wf(next)) by {
        assert forall|k: int| 0 <= k < next.layers.len() implies {
            let layer = #[trigger] next.layers[k];
            &&& 0 <= layer.open_index < next.items.len()
            &&& closing_of(next.items[layer.open_index].token.ty) == Some(layer.close_ty)
            &&& next.items[layer.open_index].close_index is None
        } by {
            assert(next.layers[k] == nest.layers[k]);
            assert(nest.layers[k].open_index < top.open_index);
        }
    }
    assert(layers_apart(next)) by {
        assert forall|i: int, k: int|
            0 <= i < next.items.len() && 0 <= k < next.layers.len() && (
            #[trigger] next.items[i]).close_index is Some implies next.items[i].close_index->0 < (
        #[trigger] next.layers[k]).open_index || next.layers[k].open_index < i by {
            assert(next.layers[k] == nest.layers[k]);
            assert(nest.layers[k].open_index < top.open_index);
            if i < nest.items.len() && i != open {
                assert(next.items[i] == nest.items[i]);
            }
        }
    }
    assert(well_nested(next.items)) by {
        assert forall|i: int, j: int|
            0 <= i < j < next.items.len() && (#[trigger] next.items[i]).close_index is Some && (
            #[trigger] next.items[j]).close_index is Some implies next.items[i].close_index->0 < j
            || next.items[j].close_index->0 < next.items[i].close_index->0 by {
            if i < nest.items.len() && i != open {
                assert(next.items[i] == nest.items[i]);
            }
            if j < nest.items.len() && j != open {
                assert(next.items[j] == nest.items[j]);
                assert(is_open(nest, j) || is_closed(nest.items, j));
            }
        }
    }
}

/// Adding a token keeps what holds of a run at any time.
pub proof fn lemma_add_token_wf(nest: Nest, token: TokenView)
    requires
        nest_wf(nest),
    ensures
        add_token(nest, token) matches Ok(next) ==> nest_wf(next),
{
    if !is_close(token.ty) {
        lemma_with_token_wf(nest, token);
    } else if nest.layers.len() > 0 && token.ty == TypeView::Terminal(
        nest.layers.last().close_ty,
    ) {
        lemma_with_close_wf(nest, token);
    }
}

} // verus!
