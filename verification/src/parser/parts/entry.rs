use crate::ast::{Expression, FunctionDefinition, Identifier, TableEntry};
use crate::lexer::TokenItem;
use crate::list;
use crate::list::List;
use crate::parser::grammar::Parsed;
use crate::parser::parts::read;
use crate::parser::{expression, function, name, spelling};
use crate::token::TerminalToken;
use vstd::prelude::*;

verus! {

/// The place behind elements and the mark that ends them.
/// They stand each with a comma behind it or not.
pub open spec fn chain_elements<'s>(
    tree: List<Expression<'s>>,
    items: Seq<TokenItem<'s>>,
    at: int,
) -> Option<int>
    decreases tree,
{
    match tree {
        List::Empty => spelling::behind(items, Some(at), TerminalToken::CloseSquare),
        List::Item(first, rest) => {
            if spelling::is_at(items, at, TerminalToken::CloseSquare) {
                None
            } else {
                match read::expression(*first, items, Some(at)) {
                    Some(end) => if spelling::is_at(items, end, TerminalToken::Comma) {
                        chain_elements(*rest, items, end + 1)
                    } else {
                        chain_elements(*rest, items, end)
                    },
                    None => None,
                }
            }
        },
    }
}

proof fn lemma_elements<'s>(
    items: Seq<TokenItem<'s>>,
    at: int,
    next: int,
    found: Seq<Expression<'s>>,
    tree: List<Expression<'s>>,
)
    requires
        0 <= at <= items.len() <= usize::MAX,
        chain_elements(tree, items, at) == Some(next),
    ensures
        expression::elements_from(items, at, found) == Parsed::Ok(
            (next, list::list_of(found + tree.items())),
        ),
    decreases tree,
{
    reveal(expression::elements_from);
    match tree {
        List::Empty => {
            assert(found + tree.items() =~= found);
        },
        List::Item(first, rest) => {
            spelling::expression::lemma_expression(items, at);
            assert(found.push(*first) + rest.items() =~= found + tree.items());
            if let Ok((n, _)) = expression::expression_at(items, at) {
                lemma_elements(items, if spelling::is_at(items, n, TerminalToken::Comma) {
                    n + 1
                } else {
                    n
                }, next, found.push(*first), *rest);
            }
        },
    }
}

/// A list is read if its items are, each with a comma behind it or not, up to the mark that ends
/// it.
pub proof fn law_elements_are_read_by_their_items<'s>(
    items: Seq<TokenItem<'s>>,
    at: int,
    next: int,
    tree: List<Expression<'s>>,
)
    requires
        0 <= at <= items.len() <= usize::MAX,
        chain_elements(tree, items, at) == Some(next),
    ensures
        expression::elements_from(items, at, Seq::empty()) == Parsed::Ok((next, tree)),
{
    lemma_elements(items, at, next, Seq::empty(), tree);
    assert(Seq::empty() + tree.items() =~= tree.items());
    list::lemma_list_of_items(tree);
}

/// A list fails as its first item that cannot be read does, and where the mark that ends it is not
/// there.
pub proof fn law_elements_fail_with_their_first_item<'s>(
    items: Seq<TokenItem<'s>>,
    at: int,
    found: Seq<Expression<'s>>,
)
    requires
        0 <= at <= items.len() <= usize::MAX,
    ensures
        ({
            let parsed = expression::elements_from(items, at, found);
            let read_more = at < items.len()
                && !spelling::is_at(items, at, TerminalToken::CloseSquare);
            &&& at == items.len() ==> read::needs(
                items,
                Some(at),
                TerminalToken::CloseSquare,
                parsed,
            )
            &&& read_more ==> read::passes_on(expression::expression_at(items, at), parsed)
            &&& read_more
                ==> (expression::expression_at(items, at) matches Ok((end, item))
                ==> parsed == expression::elements_from(
                items,
                if spelling::is_at(items, end, TerminalToken::Comma) {
                    end + 1
                } else {
                    end
                },
                found.push(item),
            ))
        }),
{
    reveal(expression::elements_from);
    spelling::expression::lemma_expression(items, at);
}

/// The place behind arguments and the mark that ends them.
/// They stand with a comma between any two of them and perhaps one behind the last.
pub open spec fn chain_arguments<'s>(
    tree: List<Expression<'s>>,
    items: Seq<TokenItem<'s>>,
    at: int,
) -> Option<int>
    decreases tree,
{
    match tree {
        List::Empty => spelling::behind(items, Some(at), TerminalToken::CloseBracket),
        List::Item(first, rest) => {
            if spelling::is_at(items, at, TerminalToken::CloseBracket) {
                None
            } else {
                match read::expression(*first, items, Some(at)) {
                    Some(end) => match spelling::behind(items, Some(end), TerminalToken::Comma) {
                        Some(after) => chain_arguments(*rest, items, after),
                        None => if *rest is Empty {
                            spelling::behind(items, Some(end), TerminalToken::CloseBracket)
                        } else {
                            None
                        },
                    },
                    None => None,
                }
            }
        },
    }
}

proof fn lemma_arguments<'s>(
    items: Seq<TokenItem<'s>>,
    at: int,
    next: int,
    found: Seq<Expression<'s>>,
    tree: List<Expression<'s>>,
)
    requires
        0 <= at <= items.len() <= usize::MAX,
        chain_arguments(tree, items, at) == Some(next),
    ensures
        expression::arguments_from(items, at, found) == Parsed::Ok(
            (next, list::list_of(found + tree.items())),
        ),
    decreases tree,
{
    reveal(expression::arguments_from);
    match tree {
        List::Empty => {
            assert(found + tree.items() =~= found);
        },
        List::Item(first, rest) => {
            spelling::expression::lemma_expression(items, at);
            assert(found.push(*first) + rest.items() =~= found + tree.items());
            if let Ok((n, _)) = expression::expression_at(items, at) {
                if spelling::is_at(items, n, TerminalToken::Comma) {
                    lemma_arguments(items, n + 1, next, found.push(*first), *rest);
                } else {
                    assert(rest.items() =~= Seq::empty());
                    assert(found.push(*first) =~= found + tree.items());
                }
            }
        },
    }
}

/// A list is read if its items are, with a comma between any two of them and perhaps one behind the
/// last, up to the mark that ends it.
pub proof fn law_arguments_are_read_by_their_items<'s>(
    items: Seq<TokenItem<'s>>,
    at: int,
    next: int,
    tree: List<Expression<'s>>,
)
    requires
        0 <= at <= items.len() <= usize::MAX,
        chain_arguments(tree, items, at) == Some(next),
    ensures
        expression::arguments_from(items, at, Seq::empty()) == Parsed::Ok((next, tree)),
{
    lemma_arguments(items, at, next, Seq::empty(), tree);
    assert(Seq::empty() + tree.items() =~= tree.items());
    list::lemma_list_of_items(tree);
}

/// A list fails as its first item that cannot be read does, and where the mark that ends it is not
/// there.
pub proof fn law_arguments_fail_with_their_first_item<'s>(
    items: Seq<TokenItem<'s>>,
    at: int,
    found: Seq<Expression<'s>>,
)
    requires
        0 <= at <= items.len() <= usize::MAX,
    ensures
        ({
            let parsed = expression::arguments_from(items, at, found);
            let read_more = at < items.len()
                && !spelling::is_at(items, at, TerminalToken::CloseBracket);
            &&& at == items.len() ==> read::needs(
                items,
                Some(at),
                TerminalToken::CloseBracket,
                parsed,
            )
            &&& read_more ==> read::passes_on(expression::expression_at(items, at), parsed)
            &&& read_more
                ==> (expression::expression_at(items, at) matches Ok((end, item))
                ==> if spelling::is_at(items, end, TerminalToken::Comma) {
                parsed == expression::arguments_from(items, end + 1, found.push(item))
            } else {
                read::needs(items, Some(end), TerminalToken::CloseBracket, parsed)
            })
        }),
{
    reveal(expression::arguments_from);
    spelling::expression::lemma_expression(items, at);
}

/// The place behind entries and the mark that ends them.
/// They stand each with a comma behind it or not.
pub open spec fn chain_entries<'s>(
    tree: List<TableEntry<'s>>,
    items: Seq<TokenItem<'s>>,
    at: int,
) -> Option<int>
    decreases tree,
{
    match tree {
        List::Empty => spelling::behind(items, Some(at), TerminalToken::CloseBrace),
        List::Item(first, rest) => {
            if spelling::is_at(items, at, TerminalToken::CloseBrace) {
                None
            } else {
                match read::entry(*first, items, Some(at)) {
                    Some(end) => if spelling::is_at(items, end, TerminalToken::Comma) {
                        chain_entries(*rest, items, end + 1)
                    } else {
                        chain_entries(*rest, items, end)
                    },
                    None => None,
                }
            }
        },
    }
}

proof fn lemma_entries<'s>(
    items: Seq<TokenItem<'s>>,
    at: int,
    next: int,
    found: Seq<TableEntry<'s>>,
    tree: List<TableEntry<'s>>,
)
    requires
        0 <= at <= items.len() <= usize::MAX,
        chain_entries(tree, items, at) == Some(next),
    ensures
        expression::entries_from(items, at, found) == Parsed::Ok(
            (next, list::list_of(found + tree.items())),
        ),
    decreases tree,
{
    reveal(expression::entries_from);
    reveal(expression::entry_at);
    match tree {
        List::Empty => {
            assert(found + tree.items() =~= found);
        },
        List::Item(first, rest) => {
            spelling::entry::lemma_entry(items, at);
            assert(found.push(*first) + rest.items() =~= found + tree.items());
            if let Ok((n, _)) = expression::entry_at(items, at) {
                lemma_entries(items, if spelling::is_at(items, n, TerminalToken::Comma) {
                    n + 1
                } else {
                    n
                }, next, found.push(*first), *rest);
            }
        },
    }
}

/// A list is read if its items are, each with a comma behind it or not, up to the mark that ends
/// it.
pub proof fn law_entries_are_read_by_their_items<'s>(
    items: Seq<TokenItem<'s>>,
    at: int,
    next: int,
    tree: List<TableEntry<'s>>,
)
    requires
        0 <= at <= items.len() <= usize::MAX,
        chain_entries(tree, items, at) == Some(next),
    ensures
        expression::entries_from(items, at, Seq::empty()) == Parsed::Ok((next, tree)),
{
    lemma_entries(items, at, next, Seq::empty(), tree);
    assert(Seq::empty() + tree.items() =~= tree.items());
    list::lemma_list_of_items(tree);
}

/// A list fails as its first item that cannot be read does, and where the mark that ends it is not
/// there.
pub proof fn law_entries_fail_with_their_first_item<'s>(
    items: Seq<TokenItem<'s>>,
    at: int,
    found: Seq<TableEntry<'s>>,
)
    requires
        0 <= at <= items.len() <= usize::MAX,
    ensures
        ({
            let parsed = expression::entries_from(items, at, found);
            let read_more = at < items.len()
                && !spelling::is_at(items, at, TerminalToken::CloseBrace);
            &&& at == items.len() ==> read::needs(
                items,
                Some(at),
                TerminalToken::CloseBrace,
                parsed,
            )
            &&& read_more ==> read::passes_on(expression::entry_at(items, at), parsed)
            &&& read_more
                ==> (expression::entry_at(items, at) matches Ok((end, item))
                ==> parsed == expression::entries_from(
                items,
                if spelling::is_at(items, end, TerminalToken::Comma) {
                    end + 1
                } else {
                    end
                },
                found.push(item),
            ))
        }),
{
    reveal(expression::entries_from);
    reveal(expression::entry_at);
    spelling::entry::lemma_entry(items, at);
}

/// A named entry of a table.
/// It is read if and only if its parts are, one behind the other. The first part that is not there
/// is what is wrong.
pub proof fn law_property_entry_is_read_by_its_parts<'s>(
    items: Seq<TokenItem<'s>>,
    at: int,
    next: int,
    name: Identifier<'s>,
    value: Expression<'s>,
)
    requires
        0 <= at <= items.len() <= usize::MAX,
    ensures
        ({
            let parsed = expression::property_entry_at(items, at);
            let tree = TableEntry::Property(name, value);
            let place1 = spelling::end_of_name(name, items, Some(at));
            let place2 = spelling::behind(items, place1, TerminalToken::Assign);
            let place3 = read::expression(value, items, place2);
            &&& parsed == Parsed::Ok((next, tree)) <==> place3 == Some(next)
            &&& read::passes_on(name::identifier_at(items, at), parsed)
            &&& read::needs(items, place1, TerminalToken::Assign, parsed)
            &&& place2 is Some ==> read::passes_on(
                expression::expression_at(items, place2->0),
                parsed,
            )
        }),
{
    reveal(expression::property_entry_at);
    if let Ok((after_name, _)) = name::identifier_at(items, at) {
        if spelling::is_at(items, after_name, TerminalToken::Assign) {
            spelling::expression::lemma_expression(items, after_name + 1);
        }
    }
}

/// An entry of a table under a key.
/// It is read if and only if its parts are, one behind the other. The first part that is not there
/// is what is wrong.
pub proof fn law_index_entry_is_read_by_its_parts<'s>(
    items: Seq<TokenItem<'s>>,
    at: int,
    next: int,
    key: Expression<'s>,
    value: Expression<'s>,
)
    requires
        0 <= at <= items.len() <= usize::MAX,
    ensures
        ({
            let parsed = expression::index_entry_at(items, at);
            let tree = TableEntry::Index(key, value);
            let place1 = spelling::behind(items, Some(at), TerminalToken::OpenSquare);
            let place2 = read::expression(key, items, place1);
            let place3 = spelling::behind(items, place2, TerminalToken::CloseSquare);
            let place4 = spelling::behind(items, place3, TerminalToken::Assign);
            let place5 = read::expression(value, items, place4);
            &&& parsed == Parsed::Ok((next, tree)) <==> place5 == Some(next)
            &&& read::needs(items, Some(at), TerminalToken::OpenSquare, parsed)
            &&& place1 is Some ==> read::passes_on(
                expression::expression_at(items, place1->0),
                parsed,
            )
            &&& read::needs(items, place2, TerminalToken::CloseSquare, parsed)
            &&& read::needs(items, place3, TerminalToken::Assign, parsed)
            &&& place4 is Some ==> read::passes_on(
                expression::expression_at(items, place4->0),
                parsed,
            )
        }),
{
    reveal(expression::index_entry_at);
    if spelling::is_at(items, at, TerminalToken::OpenSquare) {
        spelling::expression::lemma_expression(items, at + 1);
        if let Ok((after_key, _)) = expression::expression_at(items, at + 1) {
            if spelling::is_at(items, after_key, TerminalToken::CloseSquare)
                && spelling::is_at(items, after_key + 1, TerminalToken::Assign) {
                spelling::expression::lemma_expression(items, after_key + 2);
            }
        }
    }
}

/// A function in a table.
/// It is read if and only if its parts are, one behind the other. The first part that is not there
/// is what is wrong.
pub proof fn law_function_entry_is_read_by_its_parts<'s>(
    items: Seq<TokenItem<'s>>,
    at: int,
    next: int,
    name: Identifier<'s>,
    function: FunctionDefinition<'s>,
)
    requires
        0 <= at <= items.len() <= usize::MAX,
    ensures
        ({
            let parsed = expression::function_entry_at(items, at);
            let tree = TableEntry::Function(name, function);
            let place1 = spelling::behind(items, Some(at), TerminalToken::Function);
            let place2 = spelling::end_of_name(name, items, place1);
            let place3 = read::definition(function, items, place2);
            &&& parsed == Parsed::Ok((next, tree)) <==> place3 == Some(next)
            &&& read::needs(items, Some(at), TerminalToken::Function, parsed)
            &&& place1 is Some ==> read::passes_on(name::identifier_at(items, place1->0), parsed)
            &&& place2 is Some ==> read::passes_on(
                function::definition_at(items, place2->0),
                parsed,
            )
        }),
{
    reveal(expression::function_entry_at);
    if spelling::is_at(items, at, TerminalToken::Function) {
        if let Ok((after_name, _)) = name::identifier_at(items, at + 1) {
            spelling::function::lemma_definition(items, after_name);
        }
    }
}

/// What entry of a table is read is chosen by its first token.
pub proof fn law_entry_is_chosen_by_its_first_token<'s>(
    items: Seq<TokenItem<'s>>,
    at: int,
)
    requires
        0 <= at <= items.len() <= usize::MAX,
    ensures
        expression::entry_at(items, at)
            == (if spelling::is_at(items, at, TerminalToken::OpenSquare) {
            expression::index_entry_at(items, at)
        } else if spelling::is_at(items, at, TerminalToken::Function) {
            expression::function_entry_at(items, at)
        } else {
            expression::property_entry_at(items, at)
        }),
{
    reveal(expression::entry_at);
    reveal(expression::index_entry_at);
    reveal(expression::function_entry_at);
    reveal(expression::property_entry_at);
}

} // verus!
