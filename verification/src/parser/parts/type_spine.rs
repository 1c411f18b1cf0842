use crate::ast::Type;
use crate::lexer::TokenItem;
use crate::parser::grammar::Parsed;
use crate::parser::parts::read;
use crate::parser::{expression, spelling, type_};
use crate::token::TerminalToken;
use vstd::prelude::*;

verus! {

/// Whether something stands at a place that belongs to a type that ends before it.
pub open spec fn type_goes_on(items: Seq<TokenItem<'_>>, at: int) -> bool {
    ||| spelling::is_inside_line(items, at) && spelling::is_at(items, at, TerminalToken::OpenSquare)
    ||| spelling::is_at(items, at, TerminalToken::BitwiseAnd)
    ||| spelling::is_at(items, at, TerminalToken::OrNull)
    ||| spelling::is_at(items, at, TerminalToken::FunctionRef)
}

/// The place behind a type that is read part by part, from the innermost to the outermost.
pub open spec fn type_end<'s>(tree: Type<'s>, items: Seq<TokenItem<'s>>, at: int) -> Option<int>
    decreases tree,
{
    match tree {
        Type::Array(element, size) => {
            let start = spelling::inside_line(items, type_end(*element, items, at));
            let open = spelling::behind(items, start, TerminalToken::OpenSquare);
            let end = match size {
                Some(size) => read::expression(
                    *size,
                    items,
                    spelling::without(items, open, TerminalToken::CloseSquare),
                ),
                None => open,
            };
            spelling::behind(items, end, TerminalToken::CloseSquare)
        },
        Type::Reference(target) => spelling::behind(
            items,
            type_end(*target, items, at),
            TerminalToken::BitwiseAnd,
        ),
        Type::Nullable(value) => spelling::behind(
            items,
            type_end(*value, items, at),
            TerminalToken::OrNull,
        ),
        Type::FunctionRef(Some(returned), params) => {
            let word = spelling::behind(
                items,
                type_end(*returned, items, at),
                TerminalToken::FunctionRef,
            );
            let open = spelling::behind(items, word, TerminalToken::OpenBracket);
            read::ref_params(params, items, open)
        },
        _ => read::base_type(tree, items, Some(at)),
    }
}

proof fn lemma_type_end<'s>(items: Seq<TokenItem<'s>>, at: int, end: int, tree: Type<'s>)
    requires
        0 <= at <= items.len() <= usize::MAX,
        type_end(tree, items, at) == Some(end),
    ensures
        at < end <= items.len(),
        type_::type__at(items, at) == type_::type_tail_at(items, end, tree),
    decreases tree,
{
    reveal(type_::type__at);
    reveal(type_::type_tail_at);
    match tree {
        Type::Array(element, size) => {
            let mid = type_end(*element, items, at)->0;
            lemma_type_end(items, at, mid, *element);
            if let Some(_) = size {
                spelling::expression::lemma_expression(items, mid + 1);
            }
        },
        Type::Reference(target) => {
            lemma_type_end(items, at, end - 1, *target);
        },
        Type::Nullable(value) => {
            lemma_type_end(items, at, end - 1, *value);
        },
        Type::FunctionRef(Some(returned), _) => {
            let mid = type_end(*returned, items, at)->0;
            lemma_type_end(items, at, mid, *returned);
            let _ = spelling::type_::lemma_ref_params(items, mid + 2, Seq::empty());
        },
        _ => {
            spelling::type_::lemma_base_type(items, at);
        },
    }
}

/// A type is read if its parts are, from the innermost to the outermost, and nothing stands behind
/// it that belongs to it.
pub proof fn law_type_is_read_by_its_parts<'s>(
    items: Seq<TokenItem<'s>>,
    at: int,
    next: int,
    tree: Type<'s>,
)
    requires
        0 <= at <= items.len() <= usize::MAX,
        type_end(tree, items, at) == Some(next),
        !type_goes_on(items, next),
    ensures
        type_::type__at(items, at) == Parsed::Ok((next, tree)),
{
    lemma_type_end(items, at, next, tree);
    reveal(type_::type_tail_at);
}


/// A type fails as the part behind those that are read does.
pub proof fn law_type_fails_behind_its_parts<'s>(
    items: Seq<TokenItem<'s>>,
    at: int,
    next: int,
    tree: Type<'s>,
)
    requires
        0 <= at <= items.len() <= usize::MAX,
    ensures
        read::passes_on(type_::base_type_at(items, at), type_::type__at(items, at)),
        type_end(tree, items, at) == Some(next) ==> {
            let parsed = type_::type__at(items, at);
            let is_array = spelling::is_inside_line(items, next)
                && spelling::is_at(items, next, TerminalToken::OpenSquare);
            let size = expression::expression_at(items, next + 1);
            let is_ref = spelling::is_at(items, next, TerminalToken::FunctionRef);
            &&& is_array && !spelling::is_at(items, next + 1, TerminalToken::CloseSquare)
                ==> read::passes_on(size, parsed)
            &&& is_array && !spelling::is_at(items, next + 1, TerminalToken::CloseSquare)
                ==> (size matches Ok((n, _)) ==> read::needs(
                items,
                Some(n),
                TerminalToken::CloseSquare,
                parsed,
            ))
            &&& is_ref ==> read::needs(items, Some(next + 1), TerminalToken::OpenBracket, parsed)
            &&& is_ref && spelling::is_at(items, next + 1, TerminalToken::OpenBracket)
                ==> read::passes_on(
                type_::ref_params_from(items, next + 2, Seq::empty()),
                parsed,
            )
        },
{
    reveal(type_::type__at);
    if type_end(tree, items, at) == Some(next) {
        lemma_type_end(items, at, next, tree);
        reveal(type_::type_tail_at);
        if next < items.len() {
            spelling::expression::lemma_expression(items, next + 1);
        }
    }
}
} // verus!
