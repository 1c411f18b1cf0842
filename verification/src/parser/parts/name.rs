use crate::ast::{Identifier, SeparatedList1};
use crate::lexer::TokenItem;
use crate::list;
use crate::list::List;
use crate::parser::error::ParseErrorType;
use crate::parser::grammar::Parsed;
use crate::parser::parts::read;
use crate::parser::{grammar, name, spelling};
use crate::token::TerminalToken;
use vstd::prelude::*;

verus! {

proof fn lemma_names<'s>(
    items: Seq<TokenItem<'s>>,
    at: int,
    next: int,
    found: Seq<Identifier<'s>>,
    outer: List<Identifier<'s>>,
    last: Identifier<'s>,
)
    requires
        0 <= at <= items.len() <= usize::MAX,
        spelling::without(
            items,
            spelling::end_of_name(
                last,
                items,
                spelling::end_of_outer_names(outer, items, Some(at)),
            ),
            TerminalToken::Namespace,
        ) == Some(next),
    ensures
        name::names_from(items, at, found) == Parsed::Ok(
            (
                next,
                SeparatedList1 {
                    items: list::list_of(found + outer.items()),
                    last_item: Box::new(last),
                },
            ),
        ),
    decreases outer,
{
    reveal(name::names_from);
    match outer {
        List::Empty => {
            assert(found + outer.items() =~= found);
        },
        List::Item(first, rest) => {
            assert(found.push(*first) + rest.items() =~= found + outer.items());
            let end = spelling::behind(
                items,
                spelling::end_of_name(*first, items, Some(at)),
                TerminalToken::Namespace,
            );
            if end is None {
                lemma_no_names(*rest, items);
            }
            lemma_names(items, at + 2, next, found.push(*first), *rest, last);
        },
    }
}

proof fn lemma_no_names<'s>(names: List<Identifier<'s>>, items: Seq<TokenItem<'s>>)
    ensures
        spelling::end_of_outer_names(names, items, None) is None,
    decreases names,
{
    if let List::Item(_, rest) = names {
        lemma_no_names(*rest, items);
    }
}

/// Names with `::` between them are read if they stand in the text, and nothing goes on behind
/// them.
pub proof fn law_names_are_read_where_they_stand<'s>(
    items: Seq<TokenItem<'s>>,
    at: int,
    next: int,
    tree: SeparatedList1<Identifier<'s>>,
)
    requires
        0 <= at <= items.len() <= usize::MAX,
        spelling::end_of_names(tree, items, Some(at)) == Some(next),
    ensures
        name::names_from(items, at, Seq::empty()) == Parsed::Ok((next, tree)),
{
    lemma_names(items, at, next, Seq::empty(), tree.items, *tree.last_item);
    assert(Seq::empty() + tree.items.items() =~= tree.items.items());
    list::lemma_list_of_items(tree.items);
}


/// Names fail where one is needed and none stands.
pub proof fn law_names_fail_where_none_stands<'s>(
    items: Seq<TokenItem<'s>>,
    at: int,
    found: Seq<Identifier<'s>>,
)
    requires
        0 <= at <= items.len() <= usize::MAX,
    ensures
        ({
            let parsed = name::names_from(items, at, found);
            &&& !grammar::has_name(items, at) ==> read::fails_at(
                parsed,
                ParseErrorType::ExpectedIdentifier,
                at,
            ) && read::fails_at(
                name::identifier_at(items, at),
                ParseErrorType::ExpectedIdentifier,
                at,
            )
            &&& grammar::has_name(items, at)
                && spelling::is_at(items, at + 1, TerminalToken::Namespace)
                && !grammar::has_name(items, at + 2) ==> read::fails_at(
                parsed,
                ParseErrorType::ExpectedIdentifier,
                at + 2,
            )
        }),
    decreases items.len() - at,
{
    reveal(name::names_from);
    if grammar::has_name(items, at) && spelling::is_at(items, at + 1, TerminalToken::Namespace) {
        let name = name::identifier_at(items, at)->Ok_0.1;
        law_names_fail_where_none_stands(items, at + 2, found.push(name));
    }
}
} // verus!
