use crate::ast::{FunctionRefParam, Identifier, StructField, Type};
use crate::lexer::TokenItem;
use crate::list;
use crate::parser::{expression, grammar, name, spelling, type_};
use crate::token::TerminalToken;
use vstd::prelude::*;

verus! {

pub(crate) proof fn lemma_types<'s>(
    items: Seq<TokenItem<'s>>,
    at: int,
    found: Seq<Type<'s>>,
) -> (read: Seq<Type<'s>>)
    requires
        0 <= at <= items.len() <= usize::MAX,
    ensures
        match type_::types_from(items, at, found) {
            Ok((next, tree)) => {
                &&& at < next <= items.len()
                &&& tree == list::list_of(found + read)
                &&& found.len() == 0 ==> tree == list::list_of(read)
                &&& spelling::behind(
                    items,
                    spelling::end_of_types(list::list_of(read), items, Some(at)),
                    TerminalToken::Greater,
                ) == Some(next)
            },
            Err(error) => spelling::is_wrong(items, at, error),
        },
    decreases grammar::left(items, at), 5nat,
{
    reveal(type_::types_from);
    reveal(type_::type__at);
    reveal(spelling::end_of_types);
    reveal(spelling::end_of_type);
    if spelling::is_at(items, at, TerminalToken::Greater) || at >= items.len() {
        assert(found + Seq::empty() =~= found);
        Seq::empty()
    } else {
        lemma_type(items, at);
        match type_::type__at(items, at) {
            Ok((next, item)) => {
                if spelling::is_at(items, next, TerminalToken::Comma) {
                    let rest = lemma_types(items, next + 1, found.push(item));
                    let read = seq![item] + rest;
                    assert(found.push(item) + rest =~= found + read);
                    assert(found.len() == 0 ==> found + read =~= read);
                    assert(read.drop_first() =~= rest);
                    read
                } else {
                    let read = seq![item];
                    assert(list::list_of(Seq::<Type<'s>>::empty()) is Empty);
                    assert(found.push(item) =~= found + read);
                    assert(found.len() == 0 ==> found + read =~= read);
                    assert(read.drop_first() =~= Seq::empty());
                    read
                }
            },
            Err(_) => Seq::empty(),
        }
    }
}

pub(crate) proof fn lemma_fields<'s>(
    items: Seq<TokenItem<'s>>,
    at: int,
    found: Seq<StructField<'s>>,
) -> (read: Seq<StructField<'s>>)
    requires
        0 <= at <= items.len() <= usize::MAX,
    ensures
        match type_::fields_from(items, at, found) {
            Ok((next, tree)) => {
                &&& at < next <= items.len()
                &&& tree == list::list_of(found + read)
                &&& found.len() == 0 ==> tree == list::list_of(read)
                &&& spelling::behind(
                    items,
                    spelling::end_of_fields(list::list_of(read), items, Some(at)),
                    TerminalToken::CloseBrace,
                ) == Some(next)
            },
            Err(error) => spelling::is_wrong(items, at, error),
        },
    decreases grammar::left(items, at), 6nat,
{
    reveal(type_::fields_from);
    reveal(type_::field_at);
    reveal(spelling::end_of_fields);
    reveal(spelling::end_of_field);
    if spelling::is_at(items, at, TerminalToken::CloseBrace) || at >= items.len() {
        assert(found + Seq::empty() =~= found);
        Seq::empty()
    } else {
        lemma_field(items, at);
        match type_::field_at(items, at) {
            Ok((next, item)) => {
                let behind = if spelling::is_at(items, next, TerminalToken::Comma) {
                    next + 1
                } else {
                    next
                };
                let rest = lemma_fields(items, behind, found.push(item));
                let read = seq![item] + rest;
                assert(found.push(item) + rest =~= found + read);
                assert(found.len() == 0 ==> found + read =~= read);
                assert(read.drop_first() =~= rest);
                read
            },
            Err(_) => Seq::empty(),
        }
    }
}

pub(crate) proof fn lemma_ref_params<'s>(
    items: Seq<TokenItem<'s>>,
    at: int,
    found: Seq<FunctionRefParam<'s>>,
) -> (read: Seq<FunctionRefParam<'s>>)
    requires
        0 <= at <= items.len() <= usize::MAX,
    ensures
        match type_::ref_params_from(items, at, found) {
            Ok((next, tree)) => {
                &&& at < next <= items.len()
                &&& tree == list::list_of(found + read)
                &&& found.len() == 0 ==> tree == list::list_of(read)
                &&& spelling::behind(
                    items,
                    spelling::end_of_ref_params(list::list_of(read), items, Some(at)),
                    TerminalToken::CloseBracket,
                ) == Some(next)
            },
            Err(error) => spelling::is_wrong(items, at, error),
        },
    decreases grammar::left(items, at), 6nat,
{
    reveal(type_::ref_params_from);
    reveal(type_::ref_param_at);
    reveal(spelling::end_of_ref_params);
    reveal(spelling::end_of_ref_param);
    if spelling::is_at(items, at, TerminalToken::CloseBracket) || at >= items.len() {
        assert(found + Seq::empty() =~= found);
        Seq::empty()
    } else {
        lemma_ref_param(items, at);
        match type_::ref_param_at(items, at) {
            Ok((next, item)) => {
                if spelling::is_at(items, next, TerminalToken::Comma) {
                    let rest = lemma_ref_params(items, next + 1, found.push(item));
                    let read = seq![item] + rest;
                    assert(found.push(item) + rest =~= found + read);
                    assert(found.len() == 0 ==> found + read =~= read);
                    assert(read.drop_first() =~= rest);
                    read
                } else {
                    let read = seq![item];
                    assert(list::list_of(Seq::<FunctionRefParam<'s>>::empty()) is Empty);
                    assert(found.push(item) =~= found + read);
                    assert(found.len() == 0 ==> found + read =~= read);
                    assert(read.drop_first() =~= Seq::empty());
                    read
                }
            },
            Err(_) => Seq::empty(),
        }
    }
}

pub(crate) proof fn lemma_base_type<'s>(items: Seq<TokenItem<'s>>, at: int)
    requires
        0 <= at <= items.len() <= usize::MAX,
    ensures
        match type_::base_type_at(items, at) {
            Ok((next, tree)) => {
                &&& at < next <= items.len()
                &&& spelling::end_of_type(tree, items, Some(at)) == Some(next)
            },
            Err(error) => spelling::is_wrong(items, at, error),
        },
    decreases grammar::left(items, at), 2nat,
{
    reveal(type_::base_type_at);
    reveal(type_::types_from);
    reveal(type_::ref_type_at);
    reveal(type_::struct_type_at);
    reveal(spelling::end_of_type);
    reveal(spelling::end_of_types);
    if at < items.len() {
        if items[at].token.ty is Identifier {
            if spelling::is_at(items, at + 1, TerminalToken::Less) {
                let _ = lemma_types(items, at + 2, Seq::empty());
            }
        } else if spelling::is_at(items, at, TerminalToken::FunctionRef) {
            lemma_ref_type(items, at);
        } else if spelling::is_at(items, at, TerminalToken::Struct) {
            lemma_struct_type(items, at);
        }
    }
}

pub(crate) proof fn lemma_ref_type<'s>(items: Seq<TokenItem<'s>>, at: int)
    requires
        0 <= at <= items.len() <= usize::MAX,
    ensures
        match type_::ref_type_at(items, at) {
            Ok((next, tree)) => {
                &&& at < next <= items.len()
                &&& spelling::end_of_type(tree, items, Some(at)) == Some(next)
            },
            Err(error) => spelling::is_wrong(items, at, error),
        },
    decreases grammar::left(items, at), 1nat,
{
    reveal(type_::ref_type_at);
    reveal(type_::ref_params_from);
    reveal(spelling::end_of_type);
    reveal(spelling::end_of_ref_params);
    if spelling::is_at(items, at, TerminalToken::FunctionRef)
        && spelling::is_at(items, at + 1, TerminalToken::OpenBracket) {
        let _ = lemma_ref_params(items, at + 2, Seq::empty());
    }
}

pub(crate) proof fn lemma_struct_type<'s>(items: Seq<TokenItem<'s>>, at: int)
    requires
        0 <= at <= items.len() <= usize::MAX,
    ensures
        match type_::struct_type_at(items, at) {
            Ok((next, tree)) => {
                &&& at < next <= items.len()
                &&& spelling::end_of_type(tree, items, Some(at)) == Some(next)
            },
            Err(error) => spelling::is_wrong(items, at, error),
        },
    decreases grammar::left(items, at), 1nat,
{
    reveal(type_::struct_type_at);
    reveal(type_::fields_from);
    reveal(spelling::end_of_type);
    reveal(spelling::end_of_fields);
    if spelling::is_at(items, at, TerminalToken::Struct)
        && spelling::is_at(items, at + 1, TerminalToken::OpenBrace) {
        let _ = lemma_fields(items, at + 2, Seq::empty());
    }
}

pub(crate) proof fn lemma_type_tail<'s>(items: Seq<TokenItem<'s>>, from: int, at: int, ty: Type<'s>)
    requires
        0 <= from <= at <= items.len() <= usize::MAX,
        spelling::end_of_type(ty, items, Some(from)) == Some(at),
    ensures
        match type_::type_tail_at(items, at, ty) {
            Ok((next, tree)) => {
                &&& at <= next <= items.len()
                &&& spelling::end_of_type(tree, items, Some(from)) == Some(next)
            },
            Err(error) => spelling::is_wrong(items, at, error),
        },
    decreases grammar::left(items, at), 0nat,
{
    reveal(type_::type_tail_at);
    reveal(type_::ref_params_from);
    reveal(spelling::end_of_type);
    reveal(spelling::end_of_ref_params);
    if spelling::is_at(items, at, TerminalToken::OpenSquare)
        && spelling::is_inside_line(items, at) {
        if spelling::is_at(items, at + 1, TerminalToken::CloseSquare) {
            lemma_type_tail(items, from, at + 2, Type::Array(Box::new(ty), None));
        } else {
            super::expression::lemma_expression(items, at + 1);
            if let Ok((next, size)) = expression::expression_at(items, at + 1) {
                if spelling::is_at(items, next, TerminalToken::CloseSquare) {
                    lemma_type_tail(
                        items,
                        from,
                        next + 1,
                        Type::Array(Box::new(ty), Some(Box::new(size))),
                    );
                }
            }
        }
    } else if spelling::is_at(items, at, TerminalToken::BitwiseAnd) {
        lemma_type_tail(items, from, at + 1, Type::Reference(Box::new(ty)));
    } else if spelling::is_at(items, at, TerminalToken::OrNull) {
        lemma_type_tail(items, from, at + 1, Type::Nullable(Box::new(ty)));
    } else if spelling::is_at(items, at, TerminalToken::FunctionRef) {
        if spelling::is_at(items, at + 1, TerminalToken::OpenBracket) {
            let _ = lemma_ref_params(items, at + 2, Seq::empty());
            if let Ok((next, params)) = type_::ref_params_from(items, at + 2, Seq::empty()) {
                lemma_type_tail(
                    items,
                    from,
                    next,
                    Type::FunctionRef(Some(Box::new(ty)), params),
                );
            }
        }
    }
}

pub(crate) proof fn lemma_type<'s>(items: Seq<TokenItem<'s>>, at: int)
    requires
        0 <= at <= items.len() <= usize::MAX,
    ensures
        match type_::type__at(items, at) {
            Ok((next, tree)) => {
                &&& at < next <= items.len()
                &&& spelling::end_of_type(tree, items, Some(at)) == Some(next)
            },
            Err(error) => spelling::is_wrong(items, at, error),
        },
    decreases grammar::left(items, at), 4nat,
{
    reveal(type_::type__at);
    reveal(type_::base_type_at);
    reveal(type_::type_tail_at);
    reveal(spelling::end_of_type);
    lemma_base_type(items, at);
    if let Ok((next, ty)) = type_::base_type_at(items, at) {
        lemma_type_tail(items, at, next, ty);
    }
}

/// A type that is a name alone is written as that name, and one that starts with `struct` is not
/// a name alone.
pub(crate) proof fn lemma_plain_type<'s>(items: Seq<TokenItem<'s>>, at: int, ty: Type<'s>)
    ensures
        ty matches Type::Plain(name) ==> spelling::end_of_type(ty, items, Some(at))
            == spelling::end_of_name(name, items, Some(at)),
{
    reveal(spelling::end_of_type);
}

pub(crate) proof fn lemma_field<'s>(items: Seq<TokenItem<'s>>, at: int)
    requires
        0 <= at <= items.len() <= usize::MAX,
    ensures
        match type_::field_at(items, at) {
            Ok((next, tree)) => {
                &&& at < next <= items.len()
                &&& spelling::end_of_field(tree, items, Some(at)) == Some(next)
            },
            Err(error) => spelling::is_wrong(items, at, error),
        },
    decreases grammar::left(items, at), 5nat,
{
    reveal(type_::field_at);
    reveal(type_::type__at);
    reveal(spelling::end_of_field);
    reveal(spelling::end_of_type);
    lemma_type(items, at);
    if let Ok((after_ty, _)) = type_::type__at(items, at) {
        if let Ok((after_name, _)) = name::identifier_at(items, after_ty) {
            super::variable::lemma_initializer(items, after_name);
        }
    }
}

pub(crate) proof fn lemma_ref_param<'s>(items: Seq<TokenItem<'s>>, at: int)
    requires
        0 <= at <= items.len() <= usize::MAX,
    ensures
        match type_::ref_param_at(items, at) {
            Ok((next, tree)) => {
                &&& at < next <= items.len()
                &&& spelling::end_of_ref_param(tree, items, Some(at)) == Some(next)
            },
            Err(error) => spelling::is_wrong(items, at, error),
        },
    decreases grammar::left(items, at), 5nat,
{
    reveal(type_::ref_param_at);
    reveal(type_::type__at);
    reveal(spelling::end_of_ref_param);
    reveal(spelling::end_of_type);
    lemma_type(items, at);
}

pub(crate) proof fn lemma_typed_name<'s>(items: Seq<TokenItem<'s>>, at: int)
    requires
        0 <= at <= items.len() <= usize::MAX,
    ensures
        match type_::typed_name_at(items, at) {
            Ok((next, tree)) => {
                &&& at < next <= items.len()
                &&& spelling::end_of_typed_name(tree.ty, tree.name, items, Some(at)) == Some(next)
            },
            Err(error) => spelling::is_wrong(items, at, error),
        },
    decreases grammar::left(items, at), 5nat,
{
    reveal(type_::typed_name_at);
    reveal(type_::type__at);
    reveal(spelling::end_of_typed_name);
    reveal(spelling::end_of_type);
    lemma_type(items, at);
}

} // verus!
