use crate::ast::{Expression, Identifier, Variable};
use crate::lexer::TokenItem;
use crate::list;
use crate::list::List;
use crate::parser::grammar::Parsed;
use crate::parser::parts::read;
use crate::parser::{expression, name, spelling, variable};
use crate::token::TerminalToken;
use vstd::prelude::*;

verus! {

/// A first value is read if and only if it stands behind `=`, and none is read if and only if no
/// `=` stands there.
pub proof fn law_initializer_is_read_by_its_parts<'s>(
    items: Seq<TokenItem<'s>>,
    at: int,
    next: int,
    tree: Option<Expression<'s>>,
)
    requires
        0 <= at <= items.len() <= usize::MAX,
    ensures
        variable::initializer_at(items, at) == Parsed::Ok((next, tree)) <==> (match tree {
            Some(value) => read::expression(
                value,
                items,
                spelling::behind(items, Some(at), TerminalToken::Assign),
            ),
            None => spelling::without(items, Some(at), TerminalToken::Assign),
        }) == Some(next),
        spelling::is_at(items, at, TerminalToken::Assign) ==> read::passes_on(
            expression::expression_at(items, at + 1),
            variable::initializer_at(items, at),
        ),
{
    reveal(variable::initializer_at);
    if spelling::is_at(items, at, TerminalToken::Assign) {
        spelling::expression::lemma_expression(items, at + 1);
    }
}

/// A variable.
/// It is read if and only if its parts are, one behind the other. The first part that is not there
/// is what is wrong.
pub proof fn law_variable_is_read_by_its_parts<'s>(
    items: Seq<TokenItem<'s>>,
    at: int,
    next: int,
    name: Identifier<'s>,
    value: Option<Expression<'s>>,
)
    requires
        0 <= at <= items.len() <= usize::MAX,
    ensures
        ({
            let parsed = variable::variable_at(items, at);
            let tree = Variable { name, value };
            let place1 = spelling::end_of_name(name, items, Some(at));
            let place2 = read::initializer(value, items, place1);
            &&& parsed == Parsed::Ok((next, tree)) <==> place2 == Some(next)
            &&& read::passes_on(name::identifier_at(items, at), parsed)
            &&& place1 is Some ==> read::passes_on(
                variable::initializer_at(items, place1->0),
                parsed,
            )
        }),
{
    reveal(variable::variable_at);
    reveal(variable::initializer_at);
    if let Ok((after_name, _)) = name::identifier_at(items, at) {
        spelling::variable::lemma_initializer(items, after_name);
    }
}

/// The place behind variables with a comma between any two of them, each read at the place of the
/// one before.
pub open spec fn chain_variables<'s>(
    tree: List<Variable<'s>>,
    items: Seq<TokenItem<'s>>,
    at: int,
) -> Option<int>
    decreases tree,
{
    match tree {
        List::Empty => None,
        List::Item(first, rest) => match read::variable(*first, items, Some(at)) {
            Some(end) => if spelling::is_at(items, end, TerminalToken::Comma) {
                chain_variables(*rest, items, end + 1)
            } else if *rest is Empty {
                Some(end)
            } else {
                None
            },
            None => None,
        },
    }
}

proof fn lemma_variables<'s>(
    items: Seq<TokenItem<'s>>,
    at: int,
    next: int,
    found: Seq<Variable<'s>>,
    tree: List<Variable<'s>>,
)
    requires
        0 <= at <= items.len() <= usize::MAX,
        chain_variables(tree, items, at) == Some(next),
    ensures
        variable::variables_from(items, at, found) == Parsed::Ok(
            (next, list::list_of(found + tree.items())),
        ),
    decreases tree,
{
    reveal(variable::variables_from);
    reveal(variable::variable_at);
    if let List::Item(first, rest) = tree {
        spelling::variable::lemma_variable(items, at);
        assert(found.push(*first) + rest.items() =~= found + tree.items());
        if let Ok((n, _)) = variable::variable_at(items, at) {
            if spelling::is_at(items, n, TerminalToken::Comma) {
                lemma_variables(items, n + 1, next, found.push(*first), *rest);
            } else {
                assert(rest.items() =~= Seq::empty());
                assert(found.push(*first) =~= found + tree.items());
            }
        }
    }
}

/// Variables are read if each of them is, with a comma between any two of them.
pub proof fn law_variables_are_read_by_their_items<'s>(
    items: Seq<TokenItem<'s>>,
    at: int,
    next: int,
    tree: List<Variable<'s>>,
)
    requires
        0 <= at <= items.len() <= usize::MAX,
        chain_variables(tree, items, at) == Some(next),
    ensures
        variable::variables_from(items, at, Seq::empty()) == Parsed::Ok((next, tree)),
{
    lemma_variables(items, at, next, Seq::empty(), tree);
    assert(Seq::empty() + tree.items() =~= tree.items());
    list::lemma_list_of_items(tree);
}


/// Variables fail as the first one that cannot be read does.
pub proof fn law_variables_fail_with_their_first_item<'s>(
    items: Seq<TokenItem<'s>>,
    at: int,
    found: Seq<Variable<'s>>,
)
    requires
        0 <= at <= items.len() <= usize::MAX,
    ensures
        ({
            let parsed = variable::variables_from(items, at, found);
            &&& read::passes_on(variable::variable_at(items, at), parsed)
            &&& (variable::variable_at(items, at) matches Ok((end, item))
                ==> spelling::is_at(items, end, TerminalToken::Comma)
                ==> parsed == variable::variables_from(items, end + 1, found.push(item)))
        }),
{
    reveal(variable::variables_from);
    reveal(variable::variable_at);
    spelling::variable::lemma_variable(items, at);
}
} // verus!
