use crate::ast::{Expression, FunctionRefParam, Identifier, StructField, Type, TypedName};
use crate::lexer::TokenItem;
use crate::list;
use crate::list::List;
use crate::parser::error::ParseErrorType;
use crate::parser::grammar::Parsed;
use crate::parser::parts::read;
use crate::parser::{grammar, name, spelling, type_, variable};
use crate::token::TerminalToken;
use vstd::prelude::*;

verus! {

/// The place behind type arguments and the mark that ends them.
/// They stand with a comma between any two of them and perhaps one behind the last.
pub open spec fn chain_types<'s>(
    tree: List<Type<'s>>,
    items: Seq<TokenItem<'s>>,
    at: int,
) -> Option<int>
    decreases tree,
{
    match tree {
        List::Empty => spelling::behind(items, Some(at), TerminalToken::Greater),
        List::Item(first, rest) => {
            if spelling::is_at(items, at, TerminalToken::Greater) {
                None
            } else {
                match read::type_(*first, items, Some(at)) {
                    Some(end) => match spelling::behind(items, Some(end), TerminalToken::Comma) {
                        Some(after) => chain_types(*rest, items, after),
                        None => if *rest is Empty {
                            spelling::behind(items, Some(end), TerminalToken::Greater)
                        } else {
                            None
                        },
                    },
                    None => None,
                }
            }
        },
    }
}

proof fn lemma_types<'s>(
    items: Seq<TokenItem<'s>>,
    at: int,
    next: int,
    found: Seq<Type<'s>>,
    tree: List<Type<'s>>,
)
    requires
        0 <= at <= items.len() <= usize::MAX,
        chain_types(tree, items, at) == Some(next),
    ensures
        type_::types_from(items, at, found) == Parsed::Ok(
            (next, list::list_of(found + tree.items())),
        ),
    decreases tree,
{
    reveal(type_::types_from);
    reveal(type_::type__at);
    match tree {
        List::Empty => {
            assert(found + tree.items() =~= found);
        },
        List::Item(first, rest) => {
            spelling::type_::lemma_type(items, at);
            assert(found.push(*first) + rest.items() =~= found + tree.items());
            if let Ok((n, _)) = type_::type__at(items, at) {
                if spelling::is_at(items, n, TerminalToken::Comma) {
                    lemma_types(items, n + 1, next, found.push(*first), *rest);
                } else {
                    assert(rest.items() =~= Seq::empty());
                    assert(found.push(*first) =~= found + tree.items());
                }
            }
        },
    }
}

/// A list is read if its items are, with a comma between any two of them and perhaps one behind the
/// last, up to the mark that ends it.
pub proof fn law_types_are_read_by_their_items<'s>(
    items: Seq<TokenItem<'s>>,
    at: int,
    next: int,
    tree: List<Type<'s>>,
)
    requires
        0 <= at <= items.len() <= usize::MAX,
        chain_types(tree, items, at) == Some(next),
    ensures
        type_::types_from(items, at, Seq::empty()) == Parsed::Ok((next, tree)),
{
    lemma_types(items, at, next, Seq::empty(), tree);
    assert(Seq::empty() + tree.items() =~= tree.items());
    list::lemma_list_of_items(tree);
}

/// A list fails as its first item that cannot be read does, and where the mark that ends it is not
/// there.
pub proof fn law_types_fail_with_their_first_item<'s>(
    items: Seq<TokenItem<'s>>,
    at: int,
    found: Seq<Type<'s>>,
)
    requires
        0 <= at <= items.len() <= usize::MAX,
    ensures
        ({
            let parsed = type_::types_from(items, at, found);
            let read_more = at < items.len() && !spelling::is_at(items, at, TerminalToken::Greater);
            &&& at == items.len() ==> read::needs(items, Some(at), TerminalToken::Greater, parsed)
            &&& read_more ==> read::passes_on(type_::type__at(items, at), parsed)
            &&& read_more
                ==> (type_::type__at(items, at) matches Ok((end, item))
                ==> if spelling::is_at(items, end, TerminalToken::Comma) {
                parsed == type_::types_from(items, end + 1, found.push(item))
            } else {
                read::needs(items, Some(end), TerminalToken::Greater, parsed)
            })
        }),
{
    reveal(type_::types_from);
    reveal(type_::type__at);
    spelling::type_::lemma_type(items, at);
}

/// The place behind fields and the mark that ends them.
/// They stand each with a comma behind it or not.
pub open spec fn chain_fields<'s>(
    tree: List<StructField<'s>>,
    items: Seq<TokenItem<'s>>,
    at: int,
) -> Option<int>
    decreases tree,
{
    match tree {
        List::Empty => spelling::behind(items, Some(at), TerminalToken::CloseBrace),
        List::Item(first, rest) => {
            if spelling::is_at(items, at, TerminalToken::CloseBrace) {
                None
            } else {
                match read::field(*first, items, Some(at)) {
                    Some(end) => if spelling::is_at(items, end, TerminalToken::Comma) {
                        chain_fields(*rest, items, end + 1)
                    } else {
                        chain_fields(*rest, items, end)
                    },
                    None => None,
                }
            }
        },
    }
}

proof fn lemma_fields<'s>(
    items: Seq<TokenItem<'s>>,
    at: int,
    next: int,
    found: Seq<StructField<'s>>,
    tree: List<StructField<'s>>,
)
    requires
        0 <= at <= items.len() <= usize::MAX,
        chain_fields(tree, items, at) == Some(next),
    ensures
        type_::fields_from(items, at, found) == Parsed::Ok(
            (next, list::list_of(found + tree.items())),
        ),
    decreases tree,
{
    reveal(type_::fields_from);
    reveal(type_::field_at);
    match tree {
        List::Empty => {
            assert(found + tree.items() =~= found);
        },
        List::Item(first, rest) => {
            spelling::type_::lemma_field(items, at);
            assert(found.push(*first) + rest.items() =~= found + tree.items());
            if let Ok((n, _)) = type_::field_at(items, at) {
                lemma_fields(items, if spelling::is_at(items, n, TerminalToken::Comma) {
                    n + 1
                } else {
                    n
                }, next, found.push(*first), *rest);
            }
        },
    }
}

/// A list is read if its items are, each with a comma behind it or not, up to the mark that ends
/// it.
pub proof fn law_fields_are_read_by_their_items<'s>(
    items: Seq<TokenItem<'s>>,
    at: int,
    next: int,
    tree: List<StructField<'s>>,
)
    requires
        0 <= at <= items.len() <= usize::MAX,
        chain_fields(tree, items, at) == Some(next),
    ensures
        type_::fields_from(items, at, Seq::empty()) == Parsed::Ok((next, tree)),
{
    lemma_fields(items, at, next, Seq::empty(), tree);
    assert(Seq::empty() + tree.items() =~= tree.items());
    list::lemma_list_of_items(tree);
}

/// A list fails as its first item that cannot be read does, and where the mark that ends it is not
/// there.
pub proof fn law_fields_fail_with_their_first_item<'s>(
    items: Seq<TokenItem<'s>>,
    at: int,
    found: Seq<StructField<'s>>,
)
    requires
        0 <= at <= items.len() <= usize::MAX,
    ensures
        ({
            let parsed = type_::fields_from(items, at, found);
            let read_more = at < items.len()
                && !spelling::is_at(items, at, TerminalToken::CloseBrace);
            &&& at == items.len() ==> read::needs(
                items,
                Some(at),
                TerminalToken::CloseBrace,
                parsed,
            )
            &&& read_more ==> read::passes_on(type_::field_at(items, at), parsed)
            &&& read_more
                ==> (type_::field_at(items, at) matches Ok((end, item))
                ==> parsed == type_::fields_from(
                items,
                if spelling::is_at(items, end, TerminalToken::Comma) {
                    end + 1
                } else {
                    end
                },
                found.push(item),
            ))
        }),
{
    reveal(type_::fields_from);
    reveal(type_::field_at);
    spelling::type_::lemma_field(items, at);
}

/// The place behind parameters and the mark that ends them.
/// They stand with a comma between any two of them and perhaps one behind the last.
pub open spec fn chain_ref_params<'s>(
    tree: List<FunctionRefParam<'s>>,
    items: Seq<TokenItem<'s>>,
    at: int,
) -> Option<int>
    decreases tree,
{
    match tree {
        List::Empty => spelling::behind(items, Some(at), TerminalToken::CloseBracket),
        List::Item(first, rest) => {
            if spelling::is_at(items, at, TerminalToken::CloseBracket) {
                None
            } else {
                match read::ref_param(*first, items, Some(at)) {
                    Some(end) => match spelling::behind(items, Some(end), TerminalToken::Comma) {
                        Some(after) => chain_ref_params(*rest, items, after),
                        None => if *rest is Empty {
                            spelling::behind(items, Some(end), TerminalToken::CloseBracket)
                        } else {
                            None
                        },
                    },
                    None => None,
                }
            }
        },
    }
}

proof fn lemma_ref_params<'s>(
    items: Seq<TokenItem<'s>>,
    at: int,
    next: int,
    found: Seq<FunctionRefParam<'s>>,
    tree: List<FunctionRefParam<'s>>,
)
    requires
        0 <= at <= items.len() <= usize::MAX,
        chain_ref_params(tree, items, at) == Some(next),
    ensures
        type_::ref_params_from(items, at, found) == Parsed::Ok(
            (next, list::list_of(found + tree.items())),
        ),
    decreases tree,
{
    reveal(type_::ref_params_from);
    reveal(type_::ref_param_at);
    match tree {
        List::Empty => {
            assert(found + tree.items() =~= found);
        },
        List::Item(first, rest) => {
            spelling::type_::lemma_ref_param(items, at);
            assert(found.push(*first) + rest.items() =~= found + tree.items());
            if let Ok((n, _)) = type_::ref_param_at(items, at) {
                if spelling::is_at(items, n, TerminalToken::Comma) {
                    lemma_ref_params(items, n + 1, next, found.push(*first), *rest);
                } else {
                    assert(rest.items() =~= Seq::empty());
                    assert(found.push(*first) =~= found + tree.items());
                }
            }
        },
    }
}

/// A list is read if its items are, with a comma between any two of them and perhaps one behind the
/// last, up to the mark that ends it.
pub proof fn law_ref_params_are_read_by_their_items<'s>(
    items: Seq<TokenItem<'s>>,
    at: int,
    next: int,
    tree: List<FunctionRefParam<'s>>,
)
    requires
        0 <= at <= items.len() <= usize::MAX,
        chain_ref_params(tree, items, at) == Some(next),
    ensures
        type_::ref_params_from(items, at, Seq::empty()) == Parsed::Ok((next, tree)),
{
    lemma_ref_params(items, at, next, Seq::empty(), tree);
    assert(Seq::empty() + tree.items() =~= tree.items());
    list::lemma_list_of_items(tree);
}

/// A list fails as its first item that cannot be read does, and where the mark that ends it is not
/// there.
pub proof fn law_ref_params_fail_with_their_first_item<'s>(
    items: Seq<TokenItem<'s>>,
    at: int,
    found: Seq<FunctionRefParam<'s>>,
)
    requires
        0 <= at <= items.len() <= usize::MAX,
    ensures
        ({
            let parsed = type_::ref_params_from(items, at, found);
            let read_more = at < items.len()
                && !spelling::is_at(items, at, TerminalToken::CloseBracket);
            &&& at == items.len() ==> read::needs(
                items,
                Some(at),
                TerminalToken::CloseBracket,
                parsed,
            )
            &&& read_more ==> read::passes_on(type_::ref_param_at(items, at), parsed)
            &&& read_more
                ==> (type_::ref_param_at(items, at) matches Ok((end, item))
                ==> if spelling::is_at(items, end, TerminalToken::Comma) {
                parsed == type_::ref_params_from(items, end + 1, found.push(item))
            } else {
                read::needs(items, Some(end), TerminalToken::CloseBracket, parsed)
            })
        }),
{
    reveal(type_::ref_params_from);
    reveal(type_::ref_param_at);
    spelling::type_::lemma_ref_param(items, at);
}

/// A type starts with a name, with type arguments behind it if `<` stands there, with `functionref`
/// or with `struct`.
pub proof fn law_type_is_chosen_by_its_first_tokens<'s>(
    items: Seq<TokenItem<'s>>,
    at: int,
    next: int,
    name: Identifier<'s>,
    arguments: List<Type<'s>>,
)
    requires
        0 <= at <= items.len() <= usize::MAX,
    ensures
        spelling::end_of_name(
            name,
            items,
            Some(at),
        ) is Some && !spelling::is_at(items, at + 1, TerminalToken::Less)
            ==> type_::base_type_at(items, at)
            == Parsed::Ok((at + 1, Type::Plain(name))),
        type_::base_type_at(items, at) == Parsed::Ok(
            (next, Type::Generic(name, arguments)),
        ) <==> read::types(
            arguments,
            items,
            spelling::behind(
                items,
                spelling::end_of_name(name, items, Some(at)),
                TerminalToken::Less,
            ),
        ) == Some(next),
        spelling::is_at(items, at, TerminalToken::FunctionRef)
            ==> type_::base_type_at(items, at) == type_::ref_type_at(items, at),
        spelling::is_at(items, at, TerminalToken::Struct)
            ==> type_::base_type_at(items, at) == type_::struct_type_at(items, at),
        grammar::has_name(items, at) && spelling::is_at(items, at + 1, TerminalToken::Less)
            ==> read::passes_on(
            type_::types_from(items, at + 2, Seq::empty()),
            type_::base_type_at(items, at),
        ),
        !grammar::has_name(items, at) && !spelling::is_at(items, at, TerminalToken::FunctionRef)
            && !spelling::is_at(items, at, TerminalToken::Struct) ==> read::fails_at(
            type_::base_type_at(items, at),
            ParseErrorType::ExpectedType,
            at,
        ),
{
    reveal(type_::base_type_at);
    reveal(type_::types_from);
    reveal(type_::ref_type_at);
    reveal(type_::struct_type_at);
    reveal(type_::ref_params_from);
    reveal(type_::fields_from);
    if spelling::is_at(items, at + 1, TerminalToken::Less) {
        let _ = spelling::type_::lemma_types(items, at + 2, Seq::empty());
    }
}

/// A function type that returns nothing.
/// It is read if and only if its parts are, one behind the other. The first part that is not there
/// is what is wrong.
pub proof fn law_ref_type_is_read_by_its_parts<'s>(
    items: Seq<TokenItem<'s>>,
    at: int,
    next: int,
    params: List<FunctionRefParam<'s>>,
)
    requires
        0 <= at <= items.len() <= usize::MAX,
    ensures
        ({
            let parsed = type_::ref_type_at(items, at);
            let tree = Type::FunctionRef(None, params);
            let place1 = spelling::behind(items, Some(at), TerminalToken::FunctionRef);
            let place2 = spelling::behind(items, place1, TerminalToken::OpenBracket);
            let place3 = read::ref_params(params, items, place2);
            &&& parsed == Parsed::Ok((next, tree)) <==> place3 == Some(next)
            &&& read::needs(items, Some(at), TerminalToken::FunctionRef, parsed)
            &&& read::needs(items, place1, TerminalToken::OpenBracket, parsed)
            &&& place2 is Some ==> read::passes_on(
                type_::ref_params_from(items, place2->0, Seq::empty()),
                parsed,
            )
        }),
{
    reveal(type_::ref_type_at);
    reveal(type_::ref_params_from);
    if spelling::is_at(items, at, TerminalToken::FunctionRef)
        && spelling::is_at(items, at + 1, TerminalToken::OpenBracket) {
        let _ = spelling::type_::lemma_ref_params(items, at + 2, Seq::empty());
    }
}

/// A record type without a name.
/// It is read if and only if its parts are, one behind the other. The first part that is not there
/// is what is wrong.
pub proof fn law_struct_type_is_read_by_its_parts<'s>(
    items: Seq<TokenItem<'s>>,
    at: int,
    next: int,
    fields: List<StructField<'s>>,
)
    requires
        0 <= at <= items.len() <= usize::MAX,
    ensures
        ({
            let parsed = type_::struct_type_at(items, at);
            let tree = Type::Struct(fields);
            let place1 = spelling::behind(items, Some(at), TerminalToken::Struct);
            let place2 = spelling::behind(items, place1, TerminalToken::OpenBrace);
            let place3 = read::fields(fields, items, place2);
            &&& parsed == Parsed::Ok((next, tree)) <==> place3 == Some(next)
            &&& read::needs(items, Some(at), TerminalToken::Struct, parsed)
            &&& read::needs(items, place1, TerminalToken::OpenBrace, parsed)
            &&& place2 is Some ==> read::passes_on(
                type_::fields_from(items, place2->0, Seq::empty()),
                parsed,
            )
        }),
{
    reveal(type_::struct_type_at);
    reveal(type_::fields_from);
    if spelling::is_at(items, at, TerminalToken::Struct)
        && spelling::is_at(items, at + 1, TerminalToken::OpenBrace) {
        let _ = spelling::type_::lemma_fields(items, at + 2, Seq::empty());
    }
}

/// A field of a record type.
/// It is read if and only if its parts are, one behind the other. The first part that is not there
/// is what is wrong.
pub proof fn law_field_is_read_by_its_parts<'s>(
    items: Seq<TokenItem<'s>>,
    at: int,
    next: int,
    ty: Type<'s>,
    name: Identifier<'s>,
    value: Option<Expression<'s>>,
)
    requires
        0 <= at <= items.len() <= usize::MAX,
    ensures
        ({
            let parsed = type_::field_at(items, at);
            let tree = StructField { ty, name, value };
            let place1 = read::type_(ty, items, Some(at));
            let place2 = spelling::end_of_name(name, items, place1);
            let place3 = read::initializer(value, items, place2);
            &&& parsed == Parsed::Ok((next, tree)) <==> place3 == Some(next)
            &&& read::passes_on(type_::type__at(items, at), parsed)
            &&& place1 is Some ==> read::passes_on(name::identifier_at(items, place1->0), parsed)
            &&& place2 is Some ==> read::passes_on(
                variable::initializer_at(items, place2->0),
                parsed,
            )
        }),
{
    reveal(type_::field_at);
    reveal(type_::type__at);
    spelling::type_::lemma_type(items, at);
    if let Ok((after_ty, _)) = type_::type__at(items, at) {
        if let Ok((after_name, _)) = name::identifier_at(items, after_ty) {
            spelling::variable::lemma_initializer(items, after_name);
        }
    }
}

/// A parameter of a function type is a type, with a name behind it if one stands there.
pub proof fn law_ref_param_is_read_by_its_parts<'s>(
    items: Seq<TokenItem<'s>>,
    at: int,
    next: int,
    ty: Type<'s>,
    name: Identifier<'s>,
)
    requires
        0 <= at <= items.len() <= usize::MAX,
    ensures
        type_::ref_param_at(items, at) == Parsed::Ok(
            (next, FunctionRefParam { ty, name: Some(name) }),
        )
            <==> spelling::end_of_name(name, items, read::type_(ty, items, Some(at))) == Some(next),
        type_::ref_param_at(items, at) == Parsed::Ok(
            (next, FunctionRefParam { ty, name: None }),
        ) <==> read::type_(
            ty,
            items,
            Some(at),
        ) == Some(next) && !grammar::has_name(items, next),
        read::passes_on(type_::type__at(items, at), type_::ref_param_at(items, at)),
{
    reveal(type_::ref_param_at);
    reveal(type_::type__at);
    spelling::type_::lemma_type(items, at);
}

/// A name has a type if and only if a type stands at the place, with a name behind it.
pub proof fn law_typed_name_is_read_by_its_parts<'s>(
    items: Seq<TokenItem<'s>>,
    at: int,
    next: int,
    after_ty: int,
    ty: Type<'s>,
    name: Identifier<'s>,
)
    requires
        0 <= at <= items.len() <= usize::MAX,
    ensures
        type_::typed_name_at(items, at) == Parsed::Ok((next, TypedName { ty: Some(ty), name }))
            <==> spelling::end_of_name(name, items, read::type_(ty, items, Some(at))) == Some(next),
        (type_::type__at(items, at) matches Ok((n, _)) ==> !grammar::has_name(items, n)) ==> (
        type_::typed_name_at(items, at) == Parsed::Ok((next, TypedName { ty: None, name }))
            <==> spelling::end_of_name(name, items, Some(at)) == Some(next)),
        !grammar::has_name(items, at) && (type_::type__at(items, at) matches Ok((n, _))
            ==> !grammar::has_name(items, n)) ==> read::fails_at(
            type_::typed_name_at(items, at),
            ParseErrorType::ExpectedIdentifier,
            at,
        ),
{
    reveal(type_::typed_name_at);
    reveal(type_::plain_name_at);
    reveal(type_::type__at);
    spelling::type_::lemma_type(items, at);
}

} // verus!
