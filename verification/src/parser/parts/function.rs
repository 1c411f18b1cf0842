use crate::ast::{
    Expression, FunctionDefinition, FunctionParam, FunctionParams, Statement, TypedName,
};
use crate::lexer::TokenItem;
use crate::list;
use crate::list::List;
use crate::parser::grammar::Parsed;
use crate::parser::parts::read;
use crate::parser::{function, spelling, statement, type_, variable};
use crate::token::TerminalToken;
use vstd::prelude::*;

verus! {

/// A parameter of a function.
/// It is read if and only if its parts are, one behind the other. The first part that is not there
/// is what is wrong.
pub proof fn law_param_is_read_by_its_parts<'s>(
    items: Seq<TokenItem<'s>>,
    at: int,
    next: int,
    named: TypedName<'s>,
    default: Option<Expression<'s>>,
)
    requires
        0 <= at <= items.len() <= usize::MAX,
    ensures
        ({
            let parsed = function::param_at(items, at);
            let tree = FunctionParam { ty: named.ty, name: named.name, default };
            let place1 = read::typed_name(named, items, Some(at));
            let place2 = read::initializer(default, items, place1);
            &&& parsed == Parsed::Ok((next, tree)) <==> place2 == Some(next)
            &&& read::passes_on(type_::typed_name_at(items, at), parsed)
            &&& place1 is Some ==> read::passes_on(
                variable::initializer_at(items, place1->0),
                parsed,
            )
        }),
{
    reveal(function::param_at);
    spelling::type_::lemma_typed_name(items, at);
    if let Ok((after_named, _)) = type_::typed_name_at(items, at) {
        spelling::variable::lemma_initializer(items, after_named);
    }
}

/// The place behind parameters, with a comma between any two of them and perhaps one behind the
/// last, then `...` if more values are taken, and `)`.
pub open spec fn chain_params<'s>(
    tree: List<FunctionParam<'s>>,
    is_vararg: bool,
    items: Seq<TokenItem<'s>>,
    at: int,
) -> Option<int>
    decreases tree,
{
    match tree {
        List::Empty => if is_vararg {
            spelling::behind(
                items,
                spelling::behind(items, Some(at), TerminalToken::Vararg),
                TerminalToken::CloseBracket,
            )
        } else {
            spelling::behind(items, Some(at), TerminalToken::CloseBracket)
        },
        List::Item(first, rest) => if spelling::is_at(items, at, TerminalToken::CloseBracket)
            || spelling::is_at(items, at, TerminalToken::Vararg) {
            None
        } else {
            match read::param(*first, items, Some(at)) {
                Some(end) => if spelling::is_at(items, end, TerminalToken::Comma) {
                    chain_params(*rest, is_vararg, items, end + 1)
                } else if *rest is Empty && !is_vararg {
                    spelling::behind(items, Some(end), TerminalToken::CloseBracket)
                } else {
                    None
                },
                None => None,
            }
        },
    }
}

proof fn lemma_params<'s>(
    items: Seq<TokenItem<'s>>,
    at: int,
    next: int,
    found: Seq<FunctionParam<'s>>,
    tree: List<FunctionParam<'s>>,
    is_vararg: bool,
)
    requires
        0 <= at <= items.len() <= usize::MAX,
        chain_params(tree, is_vararg, items, at) == Some(next),
    ensures
        function::param_list_from(items, at, found) == Parsed::Ok(
            (next, FunctionParams { params: list::list_of(found + tree.items()), is_vararg }),
        ),
    decreases tree,
{
    reveal(function::param_list_from);
    reveal(function::param_at);
    match tree {
        List::Empty => {
            assert(found + tree.items() =~= found);
        },
        List::Item(first, rest) => {
            spelling::function::lemma_param(items, at);
            assert(found.push(*first) + rest.items() =~= found + tree.items());
            if let Ok((n, _)) = function::param_at(items, at) {
                if spelling::is_at(items, n, TerminalToken::Comma) {
                    lemma_params(items, n + 1, next, found.push(*first), *rest, is_vararg);
                } else {
                    assert(rest.items() =~= Seq::empty());
                    assert(found.push(*first) =~= found + tree.items());
                }
            }
        },
    }
}

/// Parameters are read if each of them is, with a comma between any two of them, up to `)`.
pub proof fn law_params_are_read_by_their_items<'s>(
    items: Seq<TokenItem<'s>>,
    at: int,
    next: int,
    tree: FunctionParams<'s>,
)
    requires
        0 <= at <= items.len() <= usize::MAX,
        chain_params(tree.params, tree.is_vararg, items, at) == Some(next),
    ensures
        function::param_list_from(items, at, Seq::empty()) == Parsed::Ok((next, tree)),
{
    lemma_params(items, at, next, Seq::empty(), tree.params, tree.is_vararg);
    assert(Seq::empty() + tree.params.items() =~= tree.params.items());
    list::lemma_list_of_items(tree.params);
}


/// Parameters fail as the first one that cannot be read does, and where `)` is not there.
pub proof fn law_params_fail_with_their_first_item<'s>(
    items: Seq<TokenItem<'s>>,
    at: int,
    found: Seq<FunctionParam<'s>>,
)
    requires
        0 <= at <= items.len() <= usize::MAX,
    ensures
        ({
            let parsed = function::param_list_from(items, at, found);
            let read_more = at < items.len()
                && !spelling::is_at(items, at, TerminalToken::CloseBracket)
                && !spelling::is_at(items, at, TerminalToken::Vararg);
            &&& at == items.len() ==> read::needs(
                items,
                Some(at),
                TerminalToken::CloseBracket,
                parsed,
            )
            &&& spelling::is_at(items, at, TerminalToken::Vararg) ==> read::needs(
                items,
                Some(at + 1),
                TerminalToken::CloseBracket,
                parsed,
            )
            &&& read_more ==> read::passes_on(function::param_at(items, at), parsed)
            &&& read_more ==> (function::param_at(items, at) matches Ok((end, item))
                ==> if spelling::is_at(items, end, TerminalToken::Comma) {
                parsed == function::param_list_from(items, end + 1, found.push(item))
            } else {
                read::needs(items, Some(end), TerminalToken::CloseBracket, parsed)
            })
        }),
{
    reveal(function::param_list_from);
    reveal(function::param_at);
    spelling::function::lemma_param(items, at);
}
/// The parameters of a function with the brackets round them.
/// It is read if and only if its parts are, one behind the other. The first part that is not there
/// is what is wrong.
pub proof fn law_params_is_read_by_its_parts<'s>(
    items: Seq<TokenItem<'s>>,
    at: int,
    next: int,
    params: FunctionParams<'s>,
)
    requires
        0 <= at <= items.len() <= usize::MAX,
    ensures
        ({
            let parsed = function::params_at(items, at);
            let tree = params;
            let place1 = spelling::behind(items, Some(at), TerminalToken::OpenBracket);
            let place2 = read::param_list(params, items, place1);
            &&& parsed == Parsed::Ok((next, tree)) <==> place2 == Some(next)
            &&& read::needs(items, Some(at), TerminalToken::OpenBracket, parsed)
            &&& place1 is Some ==> read::passes_on(
                function::param_list_from(items, place1->0, Seq::empty()),
                parsed,
            )
        }),
{
    reveal(function::params_at);
    reveal(function::param_list_from);
    if spelling::is_at(items, at, TerminalToken::OpenBracket) {
        let _ = spelling::function::lemma_param_list(items, at + 1, Seq::empty());
    }
}

/// The parameters and the body of a function.
/// It is read if and only if its parts are, one behind the other. The first part that is not there
/// is what is wrong.
pub proof fn law_definition_is_read_by_its_parts<'s>(
    items: Seq<TokenItem<'s>>,
    at: int,
    next: int,
    params: FunctionParams<'s>,
    body: Statement<'s>,
)
    requires
        0 <= at <= items.len() <= usize::MAX,
    ensures
        ({
            let parsed = function::definition_at(items, at);
            let tree = FunctionDefinition { params, body: Box::new(body) };
            let place1 = spelling::behind(items, Some(at), TerminalToken::OpenBracket);
            let place2 = read::param_list(params, items, place1);
            let place3 = read::statement(body, items, place2);
            &&& parsed == Parsed::Ok((next, tree)) <==> place3 == Some(next)
            &&& read::needs(items, Some(at), TerminalToken::OpenBracket, parsed)
            &&& place1 is Some ==> read::passes_on(
                function::param_list_from(items, place1->0, Seq::empty()),
                parsed,
            )
            &&& place2 is Some ==> read::passes_on(
                statement::statement_at(items, place2->0),
                parsed,
            )
        }),
{
    reveal(function::definition_at);
    reveal(function::param_list_from);
    if spelling::is_at(items, at, TerminalToken::OpenBracket) {
        let _ = spelling::function::lemma_param_list(items, at + 1, Seq::empty());
        if let Ok((after_params, _)) = function::param_list_from(items, at + 1, Seq::empty()) {
            spelling::statement::lemma_statement(items, after_params);
        }
    }
}

} // verus!
