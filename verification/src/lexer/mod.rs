pub mod delimiter;
pub mod error;
pub mod error_laws;
pub mod laws;
pub mod lexeme;
pub mod recovery;
pub mod recovery_laws;
pub mod spelling;
pub mod spelling_laws;
pub mod terminal;
pub mod text;
pub mod token_iter;
pub mod trivia;

pub use self::error::{LexerError, LexerErrorType};

use self::delimiter::{closing_token, is_close_token, is_terminal};
use self::delimiter::{ItemView, LayerView, Nest};
use self::error::ErrorView;
use self::recovery::{Recovered, Recovery, RegionView};
use self::token_iter::TokenIter;
use crate::flavor::Flavor;
use crate::token::{TerminalToken, Token, TokenType, TypeView};
use vstd::prelude::*;
use vstd::string::StringSliceAdditionalSpecFns;

verus! {

/// A token with attached metadata.
#[derive(Debug, PartialEq)]
pub struct TokenItem<'s> {
    /// The actual token.
    pub token: Token<'s>,

    /// The index of the corresponding closing delimiter token, if this token is an opening
    /// delimiter.
    ///
    /// # Example
    /// ```text
    /// { some other tokens }
    /// ^ open              ^ close
    /// ```
    /// In this example, the `close_index` of the opening `{` token is the index of the closing `}`
    /// token.
    pub close_index: Option<usize>,
}

/// Independently indexed token regions and lexer errors recovered from an input string.
#[derive(Debug)]
pub struct PartialTokenization<'s> {
    /// Contiguous token regions that are safe to parse independently.
    pub regions: Vec<TokenRegion<'s>>,

    /// Recovered invalid-input, unterminated-string, and delimiter errors.
    pub errors: Vec<LexerError<'s>>,
}

/// A contiguous token region with indices local to its own token vector.
#[derive(Debug)]
pub struct TokenRegion<'s> {
    /// Tokens whose opening delimiters all have matching local `close_index` values.
    pub tokens: Vec<TokenItem<'s>>,

    /// Recovery removed source immediately after this region.
    ///
    /// A parser result ending at the region boundary may only be trusted if its last token has an
    /// explicit statement boundary such as a newline or semicolon.
    pub ends_at_error: bool,
}

/// The index of a closing token, as an integer.
pub open spec fn index_view(index: Option<usize>) -> Option<int> {
    match index {
        Some(index) => Some(index as int),
        None => None,
    }
}

impl View for TokenItem<'_> {
    type V = ItemView;

    open spec fn view(&self) -> ItemView {
        ItemView { token: self.token@, close_index: index_view(self.close_index) }
    }
}

/// The values of a run of items.
pub open spec fn item_views<'s>(items: Seq<TokenItem<'s>>) -> Seq<ItemView> {
    Seq::new(items.len(), |i: int| items[i]@)
}

/// Whether every `close_index` is the index of a later token.
pub open spec fn indices_wf(items: Seq<TokenItem<'_>>) -> bool {
    forall|i: int|
        0 <= i < items.len() && (#[trigger] items[i]).close_index is Some ==> i
            < items[i].close_index->0 < items.len()
}

/// Whether any two trees lie apart or one inside of the other.
pub open spec fn trees_nest(items: Seq<TokenItem<'_>>) -> bool {
    forall|i: int, j: int|
        0 <= i < j < items.len() && (#[trigger] items[i]).close_index is Some && (
        #[trigger] items[j]).close_index is Some ==> items[i].close_index->0 < j
            || items[j].close_index->0 < items[i].close_index->0
}

/// Items whose opening delimiters are closed and whose trees do not overlap have usable indices.
pub proof fn lemma_closed_indices(items: Seq<TokenItem<'_>>)
    requires
        delimiter::all_closed(item_views(items)),
        delimiter::well_nested(item_views(items)),
    ensures
        indices_wf(items),
        trees_nest(items),
{
    let views = item_views(items);
    assert forall|i: int|
        0 <= i < items.len() && (#[trigger] items[i]).close_index is Some implies i
        < items[i].close_index->0 < items.len() by {
        assert(views[i] == items[i]@);
        assert(delimiter::is_closed(views, i));
    }
    assert forall|i: int, j: int|
        0 <= i < j < items.len() && (#[trigger] items[i]).close_index is Some && (
        #[trigger] items[j]).close_index is Some implies items[i].close_index->0 < j
        || items[j].close_index->0 < items[i].close_index->0 by {
        assert(views[i] == items[i]@ && views[j] == items[j]@);
    }
}

impl View for TokenRegion<'_> {
    type V = RegionView;

    open spec fn view(&self) -> RegionView {
        RegionView { tokens: item_views(self.tokens@), ends_at_error: self.ends_at_error }
    }
}

/// The values of a run of regions.
pub open spec fn region_views<'s>(regions: Seq<TokenRegion<'s>>) -> Seq<RegionView> {
    Seq::new(regions.len(), |i: int| regions[i]@)
}

impl View for PartialTokenization<'_> {
    type V = Recovered;

    open spec fn view(&self) -> Recovered {
        Recovered {
            regions: region_views(self.regions@),
            errors: error::error_views(self.errors@),
        }
    }
}

impl Clone for TokenItem<'_> {
    fn clone(&self) -> (copy: Self)
        ensures
            copy@ == self@,
    {
        TokenItem { token: self.token.clone(), close_index: self.close_index }
    }
}

impl Clone for TokenRegion<'_> {
    fn clone(&self) -> (copy: Self)
        ensures
            copy@ == self@,
    {
        let tokens = self.tokens.clone();
        assert(item_views(tokens@) =~= item_views(self.tokens@)) by {
            assert forall|i: int| 0 <= i < tokens@.len() implies tokens@[i]@
                == self.tokens@[i]@ by {
                assert(cloned(self.tokens@[i], tokens@[i]));
            }
        }
        TokenRegion { tokens, ends_at_error: self.ends_at_error }
    }
}

impl Clone for PartialTokenization<'_> {
    fn clone(&self) -> (copy: Self)
        ensures
            copy@ == self@,
    {
        let regions = self.regions.clone();
        let errors = self.errors.clone();
        assert(region_views(regions@) =~= region_views(self.regions@)) by {
            assert forall|i: int| 0 <= i < regions@.len() implies regions@[i]@
                == self.regions@[i]@ by {
                assert(cloned(self.regions@[i], regions@[i]));
            }
        }
        assert(error::error_views(errors@) =~= error::error_views(self.errors@)) by {
            assert forall|i: int| 0 <= i < errors@.len() implies errors@[i]@
                == self.errors@[i]@ by {
                assert(cloned(self.errors@[i], errors@[i]));
            }
        }
        PartialTokenization { regions, errors }
    }
}

/// An opening delimiter that is not closed yet.
struct Layer {
    open_index: usize,
    close_ty: TerminalToken,
}

spec fn layer_views(layers: Seq<Layer>) -> Seq<LayerView> {
    Seq::new(
        layers.len(),
        |i: int|
            LayerView { open_index: layers[i].open_index as int, close_ty: layers[i].close_ty },
    )
}

spec fn nest_view(items: Seq<TokenItem<'_>>, layers: Seq<Layer>) -> Nest {
    Nest { items: item_views(items), layers: layer_views(layers) }
}

proof fn lemma_empty_views(items: Seq<TokenItem<'_>>, layers: Seq<Layer>)
    requires
        items.len() == 0,
        layers.len() == 0,
    ensures
        nest_view(items, layers) == delimiter::empty_nest(),
{
    assert(item_views(items) =~= Seq::empty());
    assert(layer_views(layers) =~= Seq::empty());
}

/// Adds a token to a run of tokens.
///
/// If the token is a close delimiter, it must match the innermost open delimiter.
fn add_token<'s>(
    items: &mut Vec<TokenItem<'s>>,
    layers: &mut Vec<Layer>,
    token: Token<'s>,
) -> (added: Result<(), LexerError<'s>>)
    requires
        delimiter::layers_wf(nest_view(old(items)@, old(layers)@)),
    ensures
        match added {
            Ok(_) => delimiter::add_token(nest_view(old(items)@, old(layers)@), token@) == Ok::<
                Nest,
                ErrorView,
            >(nest_view(final(items)@, final(layers)@)),
            Err(error) => {
                &&& delimiter::add_token(nest_view(old(items)@, old(layers)@), token@) == Err::<
                    Nest,
                    ErrorView,
                >(error@)
                &&& final(items)@ == old(items)@
                &&& final(layers)@ == old(layers)@
            },
        },
{
    let ghost before = nest_view(items@, layers@);
    let token_index = items.len();
    if is_close_token(token.ty) {
        if layers.len() == 0 {
            return Err(
                LexerError::new(
                    LexerErrorType::UnmatchedClose { close: token.ty },
                    token.range.start..token.range.end,
                ),
            );
        }
        let top = layers.len() - 1;
        assert(before.layers[top as int].open_index < items@.len());
        let open_index = layers[top].open_index;
        let close_ty = layers[top].close_ty;
        if !is_terminal(token.ty, close_ty) {
            return Err(
                LexerError::new(
                    LexerErrorType::MismatchedClose {
                        open: items[open_index].token.ty,
                        expected_close: TokenType::Terminal(close_ty),
                        actual_close: token.ty,
                    },
                    token.range.start..token.range.end,
                ),
            );
        }
        items[open_index].close_index = Some(token_index);
        layers.pop();
    }
    if let Some(close_ty) = closing_token(token.ty) {
        layers.push(Layer { open_index: token_index, close_ty });
    }
    items.push(TokenItem { token, close_index: None });
    proof {
        let next = delimiter::add_token(before, token@)->Ok_0;
        assert(item_views(items@) =~= next.items);
        assert(layer_views(layers@) =~= next.layers);
    }
    Ok(())
}

/// Parses an input string into a list of tokens.
///
/// # Example
/// ```
/// use sqparse::{Flavor, tokenize};
///
/// let source = r#"
/// global function MyFunction
///
/// struct {
///     int a
/// } file
///
/// string function MyFunction( List<number> values ) {
///     values.push(1 + 2)
/// }
/// "#;
///
/// let tokens = tokenize(source, Flavor::SquirrelRespawn).unwrap();
/// assert_eq!(tokens.len(), 29);
/// ```
pub fn tokenize(val: &str, flavor: Flavor) -> (tokens: Result<Vec<TokenItem<'_>>, LexerError<'_>>)
    ensures
        match tokens {
            Ok(items) => {
                &&& delimiter::strict(token_iter::lexed(val.spec_bytes(), flavor)) == Ok::<
                    Seq<ItemView>,
                    ErrorView,
                >(item_views(items@))
                &&& delimiter::all_closed(item_views(items@))
                &&& delimiter::well_nested(item_views(items@))
                &&& indices_wf(items@)
                &&& trees_nest(items@)
            },
            Err(error) => delimiter::strict(token_iter::lexed(val.spec_bytes(), flavor)) == Err::<
                Seq<ItemView>,
                ErrorView,
            >(error@),
        },
{
    let mut items: Vec<TokenItem> = Vec::new();
    let mut layers: Vec<Layer> = Vec::new();
    let mut iter = TokenIter::new(val, flavor);
    proof {
        delimiter::lemma_empty_nest();
        lemma_empty_views(items@, layers@);
    }
    let ghost found = token_iter::lexed(val.spec_bytes(), flavor);
    loop
        invariant
            iter.wf(),
            delimiter::nest_wf(nest_view(items@, layers@)),
            delimiter::strict_from(nest_view(items@, layers@), iter.remaining())
                == delimiter::strict(found),
            found == token_iter::lexed(val.spec_bytes(), flavor),
        ensures
            iter.remaining().len() == 0,
            delimiter::nest_wf(nest_view(items@, layers@)),
            delimiter::strict_from(nest_view(items@, layers@), iter.remaining())
                == delimiter::strict(found),
        decreases iter.remaining().len(),
    {
        let step = match iter.next() {
            Some(step) => step,
            None => {
                break;
            },
        };
        let token = match step {
            Ok(token) => token,
            Err(error) => {
                return Err(error);
            },
        };
        proof {
            delimiter::lemma_add_token_wf(nest_view(items@, layers@), token@);
        }
        match add_token(&mut items, &mut layers, token) {
            Ok(_) => {},
            Err(error) => {
                return Err(error);
            },
        }
    }

    // If there are remaining layers, there are one or more unmatched opening tokens. Otherwise
    // at this point tokenization is successful.
    if layers.len() == 0 {
        proof {
            lemma_closed_indices(items@);
        }
        return Ok(items);
    }
    let top = layers.len() - 1;
    assert(nest_view(items@, layers@).layers[top as int].open_index < items@.len());
    let open_token = &items[layers[top].open_index].token;
    Err(
        LexerError::new(
            LexerErrorType::UnmatchedOpener {
                open: open_token.ty,
                close: TokenType::Terminal(layers[top].close_ty),
            },
            open_token.range.start..open_token.range.end,
        ),
    )
}

/// Adds an error, unless the limit is reached.
fn push_error<'s>(errors: &mut Vec<LexerError<'s>>, limit: usize, error: LexerError<'s>)
    ensures
        final(errors)@ == (if old(errors)@.len() < limit {
            old(errors)@.push(error)
        } else {
            old(errors)@
        }),
{
    if errors.len() < limit {
        errors.push(error);
    }
}

/// Moves a run of tokens to the regions, unless it is empty.
fn finish_region<'s>(
    regions: &mut Vec<TokenRegion<'s>>,
    items: &mut Vec<TokenItem<'s>>,
    ends_at_error: bool,
)
    ensures
        region_views(final(regions)@) == recovery::with_region(
            region_views(old(regions)@),
            item_views(old(items)@),
            ends_at_error,
        ),
        final(items)@.len() == 0,
{
    if !items.is_empty() {
        let ghost before = regions@;
        let mut tokens: Vec<TokenItem<'s>> = Vec::new();
        std::mem::swap(&mut tokens, items);
        let region = TokenRegion { tokens, ends_at_error };
        let ghost value = region@;
        regions.push(region);
        assert(region_views(regions@) =~= region_views(before).push(value));
    }
}

/// Closes the innermost tree that a closing delimiter fits, with all trees inside of it.
fn unwind_quarantine(expected_closes: &mut Vec<TerminalToken>, actual_close: TokenType<'_>)
    ensures
        final(expected_closes)@ == recovery::unwound(old(expected_closes)@, actual_close@),
{
    if let TokenType::Terminal(close) = actual_close {
        let ghost before = expected_closes@;
        let mut place = expected_closes.len();
        assert(before.take(place as int) =~= before);
        while place > 0
            invariant
                expected_closes@ == before,
                before == old(expected_closes)@,
                actual_close@ == TypeView::Terminal(close),
                place <= before.len(),
                recovery::last_place(before.take(place as int), close) == recovery::last_place(
                    before,
                    close,
                ),
            decreases place,
        {
            place -= 1;
            assert(before.take(place + 1).drop_last() =~= before.take(place as int));
            if expected_closes[place] == close {
                expected_closes.truncate(place);
                assert(expected_closes@ =~= before.take(place as int));
                return;
            }
        }
    }
}

/// Collects what closes the open delimiters.
fn closes_of(layers: &Vec<Layer>) -> (closes: Vec<TerminalToken>)
    ensures
        closes@ == recovery::expected_closes(layer_views(layers@)),
{
    let mut closes: Vec<TerminalToken> = Vec::new();
    let mut i: usize = 0;
    while i < layers.len()
        invariant
            i <= layers.len(),
            closes@.len() == i,
            forall|k: int| 0 <= k < i ==> closes@[k] == layers@[k].close_ty,
        decreases layers.len() - i,
    {
        closes.push(layers[i].close_ty);
        i += 1;
    }
    assert(closes@ =~= recovery::expected_closes(layer_views(layers@)));
    closes
}

/// What is known of a text while its tokens are read one by one.
struct PartialTokenizer<'s> {
    regions: Vec<TokenRegion<'s>>,
    errors: Vec<LexerError<'s>>,
    error_limit: usize,
    items: Vec<TokenItem<'s>>,
    layers: Vec<Layer>,
    quarantine: Option<Vec<TerminalToken>>,
    discard_until_boundary: bool,
    all_errors: Ghost<Seq<ErrorView>>,
}

impl<'s> PartialTokenizer<'s> {
    spec fn state(&self) -> Recovery {
        Recovery {
            regions: region_views(self.regions@),
            errors: self.all_errors@,
            nest: nest_view(self.items@, self.layers@),
            quarantine: match self.quarantine {
                Some(closes) => Some(closes@),
                None => None,
            },
            discarding: self.discard_until_boundary,
        }
    }

    spec fn wf(&self) -> bool {
        &&& recovery::recovery_wf(self.state())
        &&& error::error_views(self.errors@) == recovery::limited(
            self.all_errors@,
            self.error_limit as int,
        )
    }

    fn new(error_limit: usize) -> (tokenizer: Self)
        ensures
            tokenizer.wf(),
            tokenizer.state() == recovery::start(),
            tokenizer.error_limit == error_limit,
    {
        let tokenizer = PartialTokenizer {
            regions: Vec::new(),
            errors: Vec::new(),
            error_limit,
            items: Vec::new(),
            layers: Vec::new(),
            quarantine: None,
            discard_until_boundary: false,
            all_errors: Ghost(Seq::empty()),
        };
        proof {
            delimiter::lemma_empty_nest();
            lemma_empty_views(tokenizer.items@, tokenizer.layers@);
            assert(region_views(tokenizer.regions@) =~= Seq::empty());
            assert(error::error_views(tokenizer.errors@) =~= Seq::empty());
        }
        tokenizer
    }

    /// Keeps an error, if the limit allows it.
    fn keep_error(&mut self, error: LexerError<'s>)
        requires
            old(self).wf(),
        ensures
            final(self).wf(),
            final(self).state() == (Recovery {
                errors: old(self).all_errors@.push(error@),
                ..old(self).state()
            }),
            final(self).error_limit == old(self).error_limit,
    {
        let ghost before = self.errors@;
        let ghost value = error@;
        push_error(&mut self.errors, self.error_limit, error);
        proof {
            let all = self.all_errors@;
            let limit = self.error_limit as int;
            assert(error::error_views(before) == recovery::limited(all, limit));
            assert(error::error_views(before).len() == before.len());
            if before.len() < limit {
                assert(error::error_views(self.errors@) =~= error::error_views(before).push(value));
            } else {
                assert(recovery::limited(all.push(value), limit) =~= recovery::limited(
                    all,
                    limit,
                ));
            }
            self.all_errors@ = all.push(value);
        }
    }

    /// Ends the current region before its outermost open delimiter.
    fn cut_region(&mut self)
        requires
            old(self).wf(),
        ensures
            final(self).wf(),
            final(self).state() == (Recovery {
                regions: recovery::with_region(
                    old(self).state().regions,
                    recovery::before_open(old(self).state().nest),
                    true,
                ),
                nest: delimiter::empty_nest(),
                ..old(self).state()
            }),
            final(self).error_limit == old(self).error_limit,
    {
        let ghost before = self.state();
        if self.layers.len() > 0 {
            assert(before.nest.layers[0].open_index < self.items@.len());
            let outer_open = self.layers[0].open_index;
            self.items.truncate(outer_open);
        }
        assert(item_views(self.items@) =~= recovery::before_open(before.nest));
        finish_region(&mut self.regions, &mut self.items, true);
        self.layers.clear();
        proof {
            delimiter::lemma_empty_nest();
            lemma_empty_views(self.items@, self.layers@);
        }
    }

    /// Drops the tree around text that is not a token, or the rest of its statement.
    fn add_error(&mut self, error: LexerError<'s>)
        requires
            old(self).wf(),
        ensures
            final(self).wf(),
            final(self).state() == recovery::after_error(old(self).state(), error@),
            final(self).error_limit == old(self).error_limit,
    {
        self.keep_error(error);
        if self.quarantine.is_some() {
            return;
        }
        if self.layers.len() > 0 {
            let closes = closes_of(&self.layers);
            self.cut_region();
            self.quarantine = Some(closes);
        } else {
            self.cut_region();
            self.discard_until_boundary = true;
        }
    }

    /// Adds a token, if it is not dropped with a tree or with the rest of a statement.
    fn add_token(&mut self, token: Token<'s>)
        requires
            old(self).wf(),
        ensures
            final(self).wf(),
            final(self).state() == recovery::after_token(old(self).state(), token@),
            final(self).error_limit == old(self).error_limit,
    {
        if let Some(expected_closes) = self.quarantine.take() {
            let mut expected_closes = expected_closes;
            if let Some(close_ty) = closing_token(token.ty) {
                expected_closes.push(close_ty);
            } else if is_close_token(token.ty) {
                unwind_quarantine(&mut expected_closes, token.ty);
            }
            if !expected_closes.is_empty() {
                self.quarantine = Some(expected_closes);
            }
            return;
        }
        if self.discard_until_boundary {
            if token.before_lines.is_empty() {
                if token.new_line.is_some() || is_terminal(token.ty, TerminalToken::Semicolon) {
                    self.discard_until_boundary = false;
                }
                return;
            }
            self.discard_until_boundary = false;
        }
        proof {
            delimiter::lemma_add_token_wf(nest_view(self.items@, self.layers@), token@);
        }
        let ty = token.ty;
        match add_token(&mut self.items, &mut self.layers, token) {
            Ok(_) => {},
            Err(error) => {
                self.keep_error(error);
                let mut expected_closes = closes_of(&self.layers);
                self.cut_region();
                unwind_quarantine(&mut expected_closes, ty);
                if !expected_closes.is_empty() {
                    self.quarantine = Some(expected_closes);
                }
            },
        }
    }

    /// Ends the last region. No delimiter that is still open is kept.
    fn finish(self) -> (partial: PartialTokenization<'s>)
        requires
            self.wf(),
        ensures
            partial@.regions == recovery::finished(self.state()).regions,
            partial@.errors == recovery::limited(
                recovery::finished(self.state()).errors,
                self.error_limit as int,
            ),
    {
        let ghost before = self.state();
        let ghost nest = before.nest;
        let mut tokenizer = self;
        assert(before.errors + recovery::unmatched_openers(nest, nest.layers.len() as int)
            =~= before.errors);
        if tokenizer.layers.len() > 0 {
            let mut i = tokenizer.layers.len();
            while i > 0
                invariant
                    tokenizer.wf(),
                    tokenizer.error_limit == self.error_limit,
                    i <= nest.layers.len(),
                    nest == before.nest,
                    tokenizer.state() == (Recovery {
                        errors: before.errors + recovery::unmatched_openers(nest, i as int),
                        ..before
                    }),
                decreases i,
            {
                i -= 1;
                let ghost errors = tokenizer.state().errors;
                assert(nest.layers[i as int].open_index < nest.items.len());
                let open_index = tokenizer.layers[i].open_index;
                let close_ty = tokenizer.layers[i].close_ty;
                let open_ty = tokenizer.items[open_index].token.ty;
                let start = tokenizer.items[open_index].token.range.start;
                let end = tokenizer.items[open_index].token.range.end;
                let error = LexerError::new(
                    LexerErrorType::UnmatchedOpener {
                        open: open_ty,
                        close: TokenType::Terminal(close_ty),
                    },
                    start..end,
                );
                let ghost value = error@;
                assert(nest.items[open_index as int] == tokenizer.items@[open_index as int]@);
                assert(value == delimiter::unmatched_opener(nest, nest.layers[i as int]));
                tokenizer.keep_error(error);
                assert(errors.push(value) =~= before.errors + recovery::unmatched_openers(
                    nest,
                    i as int,
                ));
            }
            tokenizer.cut_region();
        } else {
            finish_region(&mut tokenizer.regions, &mut tokenizer.items, false);
        }
        PartialTokenization { regions: tokenizer.regions, errors: tokenizer.errors }
    }
}

/// Tokenizes delimiter-balanced regions while recovering lexer errors.
///
/// No synthetic tokens are created, and every opening delimiter in every returned region has a
/// matching local [`TokenItem::close_index`]. Use [`tokenize`] when the complete source must be
/// valid.
pub fn tokenize_partial(val: &str, flavor: Flavor) -> (partial: Result<
    PartialTokenization<'_>,
    LexerError<'_>,
>)
    ensures
        partial matches Ok(tokens) && {
            let all = recovery::recovered(token_iter::lexed(val.spec_bytes(), flavor));
            &&& tokens@.regions == all.regions
            &&& tokens@.errors == recovery::limited(all.errors, usize::MAX as int)
            &&& forall|i: int|
                0 <= i < tokens.regions@.len() ==> {
                    let region = #[trigger] tokens.regions@[i];
                    &&& delimiter::all_closed(region@.tokens)
                    &&& delimiter::well_nested(region@.tokens)
                    &&& indices_wf(region.tokens@)
                    &&& trees_nest(region.tokens@)
                }
        },
{
    tokenize_partial_with_error_limit(val, flavor, usize::MAX)
}

/// Tokenizes recoverable regions while retaining at most `error_limit` lexer errors.
///
/// Recovery continues after the limit is reached, so returned regions are identical to
/// [`tokenize_partial`]. This is useful for analysis tools that cap user-facing diagnostics.
pub fn tokenize_partial_with_error_limit(
    val: &str,
    flavor: Flavor,
    error_limit: usize,
) -> (partial: Result<PartialTokenization<'_>, LexerError<'_>>)
    ensures
        partial matches Ok(tokens) && {
            let all = recovery::recovered(token_iter::lexed(val.spec_bytes(), flavor));
            &&& tokens@.regions == all.regions
            &&& tokens@.errors == recovery::limited(all.errors, error_limit as int)
            &&& forall|i: int|
                0 <= i < tokens.regions@.len() ==> {
                    let region = #[trigger] tokens.regions@[i];
                    &&& delimiter::all_closed(region@.tokens)
                    &&& delimiter::well_nested(region@.tokens)
                    &&& indices_wf(region.tokens@)
                    &&& trees_nest(region.tokens@)
                }
        },
{
    let mut tokenizer = PartialTokenizer::new(error_limit);
    let mut iter = TokenIter::new(val, flavor);
    let ghost found = token_iter::lexed(val.spec_bytes(), flavor);
    loop
        invariant
            iter.wf(),
            tokenizer.wf(),
            tokenizer.error_limit == error_limit,
            recovery::recovered_from(tokenizer.state(), iter.remaining()) == recovery::recovered(
                found,
            ),
        ensures
            iter.remaining().len() == 0,
            tokenizer.wf(),
            tokenizer.error_limit == error_limit,
            recovery::recovered_from(tokenizer.state(), iter.remaining()) == recovery::recovered(
                found,
            ),
        decreases iter.remaining().len(),
    {
        match iter.next() {
            Some(Ok(token)) => tokenizer.add_token(token),
            Some(Err(error)) => tokenizer.add_error(error),
            None => {
                break;
            },
        }
    }
    let partial = tokenizer.finish();
    proof {
        recovery::lemma_recovered_closed(found);
        assert forall|i: int| 0 <= i < partial.regions@.len() implies {
            let region = #[trigger] partial.regions@[i];
            &&& delimiter::all_closed(region@.tokens)
            &&& delimiter::well_nested(region@.tokens)
            &&& indices_wf(region.tokens@)
            &&& trees_nest(region.tokens@)
        } by {
            assert(recovery::recovered(found).regions[i] == partial.regions@[i]@);
            lemma_closed_indices(partial.regions@[i].tokens@);
        }
    }
    Ok(partial)
}

/// Whether every opening delimiter of a region has the index of a later token that closes it.
pub open spec fn has_valid_delimiters(region: RegionView) -> bool {
    forall|i: int|
        0 <= i < region.tokens.len() && delimiter::closing_of(
            (#[trigger] region.tokens[i]).token.ty,
        ) is Some ==> delimiter::is_closed(region.tokens, i)
}

/// Returns whether every opening delimiter in a region has a matching `close_index`.
pub fn region_has_valid_delimiters(region: &TokenRegion<'_>) -> (valid: bool)
    ensures
        valid == has_valid_delimiters(region@),
{
    let mut index: usize = 0;
    while index < region.tokens.len()
        invariant
            index <= region.tokens.len(),
            forall|i: int|
                0 <= i < index && delimiter::closing_of(
                    (#[trigger] region@.tokens[i]).token.ty,
                ) is Some ==> delimiter::is_closed(region@.tokens, i),
        decreases region.tokens.len() - index,
    {
        let item = &region.tokens[index];
        assert(region@.tokens[index as int] == item@);
        if let Some(expected_close) = closing_token(item.token.ty) {
            match item.close_index {
                Some(close_index) => {
                    if close_index <= index || close_index >= region.tokens.len() {
                        return false;
                    }
                    let close = &region.tokens[close_index];
                    assert(region@.tokens[close_index as int] == close@);
                    if !is_terminal(close.token.ty, expected_close) {
                        return false;
                    }
                },
                None => {
                    return false;
                },
            }
        }
        index += 1;
    }
    true
}

/// Whether the last token of a region ends its statement, whatever was removed behind it.
pub open spec fn ends_at_boundary(region: RegionView) -> bool {
    let last = region.tokens.last().token;
    region.tokens.len() > 0 && {
        ||| last.new_line is Some
        ||| last.ty == TypeView::Terminal(TerminalToken::Semicolon)
        ||| last.ty == TypeView::Terminal(TerminalToken::CloseBrace)
    }
}

/// Whether a statement of a region that ends before a token is independent of recovery.
pub open spec fn is_trusted_end(region: RegionView, token_end: int) -> bool {
    &&& token_end <= region.tokens.len()
    &&& !region.ends_at_error || token_end < region.tokens.len() || ends_at_boundary(region)
}

impl TokenRegion<'_> {
    /// Returns whether a parsed statement ending at this token index is independent of recovery.
    pub fn is_trusted_statement_end(&self, token_end: usize) -> (trusted: bool)
        ensures
            trusted == is_trusted_end(self@, token_end as int),
    {
        if token_end > self.tokens.len() {
            return false;
        }
        if !self.ends_at_error || token_end < self.tokens.len() {
            return true;
        }
        if self.tokens.len() == 0 {
            return false;
        }
        let item = &self.tokens[self.tokens.len() - 1];
        assert(self@.tokens.last() == item@);
        item.token.new_line.is_some() || is_terminal(item.token.ty, TerminalToken::Semicolon)
            || is_terminal(item.token.ty, TerminalToken::CloseBrace)
    }
}

} // verus!
