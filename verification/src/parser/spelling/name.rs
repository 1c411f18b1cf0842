use crate::ast::Identifier;
use crate::lexer::TokenItem;
use crate::list;
use crate::parser::{grammar, name, spelling};
use crate::token::TerminalToken;
use vstd::prelude::*;

verus! {

/// What names with `::` between them are read from.
pub(crate) proof fn lemma_names<'s>(
    items: Seq<TokenItem<'s>>,
    at: int,
    found: Seq<Identifier<'s>>,
) -> (read: Seq<Identifier<'s>>)
    requires
        0 <= at <= items.len() <= usize::MAX,
    ensures
        match name::names_from(items, at, found) {
            Ok((next, tree)) => {
                &&& at < next <= items.len()
                &&& tree.items == list::list_of(found + read)
                &&& found.len() == 0 ==> tree.items == list::list_of(read)
                &&& found.len() == 0 ==> spelling::end_of_names(tree, items, Some(at)) == Some(next)
                &&& spelling::without(
                    items,
                    spelling::end_of_name(
                        *tree.last_item,
                        items,
                        spelling::end_of_outer_names(list::list_of(read), items, Some(at)),
                    ),
                    TerminalToken::Namespace,
                ) == Some(next)
            },
            Err(error) => spelling::is_wrong(items, at, error),
        },
    decreases grammar::left(items, at),
{
    reveal(name::names_from);
    match name::identifier_at(items, at) {
        Ok((next, item)) => {
            if spelling::is_at(items, next, TerminalToken::Namespace) {
                let rest = lemma_names(items, next + 1, found.push(item));
                let read = seq![item] + rest;
                assert(found.push(item) + rest =~= found + read);
                assert(found.len() == 0 ==> found + read =~= read);
                assert(read.drop_first() =~= rest);
                read
            } else {
                assert(found + Seq::empty() =~= found);
                Seq::empty()
            }
        },
        Err(_) => Seq::empty(),
    }
}

} // verus!
