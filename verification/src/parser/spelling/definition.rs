use crate::ast::{ClassMember, EnumEntry};
use crate::lexer::TokenItem;
use crate::list;
use crate::parser::{definition, grammar, name, spelling, type_};
use crate::token::TerminalToken;
use vstd::prelude::*;

verus! {

pub(crate) proof fn lemma_const_statement<'s>(items: Seq<TokenItem<'s>>, at: int)
    requires
        0 <= at <= items.len() <= usize::MAX,
    ensures
        match definition::const_statement_at(items, at) {
            Ok((next, tree)) => {
                &&& at < next <= items.len()
                &&& spelling::end_of_statement_type(tree, items, Some(at)) == Some(next)
            },
            Err(error) => spelling::is_wrong(items, at, error),
        },
    decreases grammar::left(items, at), 1nat,
{
    reveal(definition::const_statement_at);
    reveal(spelling::end_of_statement_type);
    if spelling::is_at(items, at, TerminalToken::Const) {
        super::type_::lemma_typed_name(items, at + 1);
        if let Ok((after_named, _)) = type_::typed_name_at(items, at + 1) {
            if spelling::is_at(items, after_named, TerminalToken::Assign) {
                super::expression::lemma_expression(items, after_named + 1);
            }
        }
    }
}

pub(crate) proof fn lemma_enum_definition<'s>(items: Seq<TokenItem<'s>>, at: int)
    requires
        0 <= at <= items.len() <= usize::MAX,
    ensures
        match definition::enum_definition_at(items, at) {
            Ok((next, tree)) => {
                &&& at < next <= items.len()
                &&& spelling::end_of_statement_type(tree, items, Some(at)) == Some(next)
            },
            Err(error) => spelling::is_wrong(items, at, error),
        },
    decreases grammar::left(items, at), 1nat,
{
    reveal(definition::enum_definition_at);
    reveal(definition::enum_entries_from);
    reveal(spelling::end_of_statement_type);
    reveal(spelling::end_of_enum_entries);
    if spelling::is_at(items, at, TerminalToken::Enum) {
        if let Ok((after_name, _)) = name::identifier_at(items, at + 1) {
            if spelling::is_at(items, after_name, TerminalToken::OpenBrace) {
                let _ = lemma_enum_entries(items, after_name + 1, Seq::empty());
            }
        }
    }
}

pub(crate) proof fn lemma_enum_entries<'s>(
    items: Seq<TokenItem<'s>>,
    at: int,
    found: Seq<EnumEntry<'s>>,
) -> (read: Seq<EnumEntry<'s>>)
    requires
        0 <= at <= items.len() <= usize::MAX,
    ensures
        match definition::enum_entries_from(items, at, found) {
            Ok((next, tree)) => {
                &&& at < next <= items.len()
                &&& tree == list::list_of(found + read)
                &&& found.len() == 0 ==> tree == list::list_of(read)
                &&& spelling::behind(
                    items,
                    spelling::end_of_enum_entries(list::list_of(read), items, Some(at)),
                    TerminalToken::CloseBrace,
                ) == Some(next)
            },
            Err(error) => spelling::is_wrong(items, at, error),
        },
    decreases grammar::left(items, at), 2nat,
{
    reveal(definition::enum_entries_from);
    reveal(definition::enum_entry_at);
    reveal(spelling::end_of_enum_entries);
    reveal(spelling::end_of_enum_entry);
    if spelling::is_at(items, at, TerminalToken::CloseBrace) || at >= items.len() {
        assert(found + Seq::empty() =~= found);
        Seq::empty()
    } else {
        lemma_enum_entry(items, at);
        match definition::enum_entry_at(items, at) {
            Ok((next, item)) => {
                let behind = if spelling::is_at(items, next, TerminalToken::Comma) {
                    next + 1
                } else {
                    next
                };
                let rest = lemma_enum_entries(items, behind, found.push(item));
                let read = seq![item] + rest;
                assert(found.push(item) + rest =~= found + read);
                assert(found.len() == 0 ==> found + read =~= read);
                assert(read.drop_first() =~= rest);
                read
            },
            Err(_) => Seq::empty(),
        }
    }
}

pub(crate) proof fn lemma_enum_entry<'s>(items: Seq<TokenItem<'s>>, at: int)
    requires
        0 <= at <= items.len() <= usize::MAX,
    ensures
        match definition::enum_entry_at(items, at) {
            Ok((next, tree)) => {
                &&& at < next <= items.len()
                &&& spelling::end_of_enum_entry(tree, items, Some(at)) == Some(next)
            },
            Err(error) => spelling::is_wrong(items, at, error),
        },
    decreases grammar::left(items, at), 1nat,
{
    reveal(definition::enum_entry_at);
    reveal(spelling::end_of_enum_entry);
    if let Ok((after_name, _)) = name::identifier_at(items, at) {
        super::variable::lemma_initializer(items, after_name);
    }
}

pub(crate) proof fn lemma_struct_definition<'s>(items: Seq<TokenItem<'s>>, at: int)
    requires
        0 <= at <= items.len() <= usize::MAX,
    ensures
        match definition::struct_definition_at(items, at) {
            Ok((next, tree)) => {
                &&& at < next <= items.len()
                &&& spelling::end_of_statement_type(tree, items, Some(at)) == Some(next)
            },
            Err(error) => spelling::is_wrong(items, at, error),
        },
    decreases grammar::left(items, at), 1nat,
{
    reveal(definition::struct_definition_at);
    reveal(spelling::end_of_statement_type);
    if spelling::is_at(items, at, TerminalToken::Struct) {
        if let Ok((after_name, _)) = name::identifier_at(items, at + 1) {
            if spelling::is_at(items, after_name, TerminalToken::OpenBrace) {
                let _ = super::type_::lemma_fields(items, after_name + 1, Seq::empty());
            }
        }
    }
}

pub(crate) proof fn lemma_type_definition<'s>(items: Seq<TokenItem<'s>>, at: int)
    requires
        0 <= at <= items.len() <= usize::MAX,
    ensures
        match definition::type_definition_at(items, at) {
            Ok((next, tree)) => {
                &&& at < next <= items.len()
                &&& spelling::end_of_statement_type(tree, items, Some(at)) == Some(next)
            },
            Err(error) => spelling::is_wrong(items, at, error),
        },
    decreases grammar::left(items, at), 1nat,
{
    reveal(definition::type_definition_at);
    reveal(spelling::end_of_statement_type);
    if spelling::is_at(items, at, TerminalToken::Typedef) {
        if let Ok((after_name, _)) = name::identifier_at(items, at + 1) {
            super::type_::lemma_type(items, after_name);
        }
    }
}

pub(crate) proof fn lemma_class_definition<'s>(items: Seq<TokenItem<'s>>, at: int)
    requires
        0 <= at <= items.len() <= usize::MAX,
    ensures
        match definition::class_definition_at(items, at) {
            Ok((next, tree)) => {
                &&& at < next <= items.len()
                &&& spelling::end_of_statement_type(tree, items, Some(at)) == Some(next)
            },
            Err(error) => spelling::is_wrong(items, at, error),
        },
    decreases grammar::left(items, at), 1nat,
{
    reveal(definition::class_definition_at);
    reveal(definition::base_class_at);
    reveal(definition::members_from);
    reveal(spelling::end_of_statement_type);
    reveal(spelling::end_of_base_class);
    reveal(spelling::end_of_members);
    if spelling::is_at(items, at, TerminalToken::Class) {
        let _ = super::name::lemma_names(items, at + 1, Seq::empty());
        if let Ok((after_name, _)) = name::names_from(items, at + 1, Seq::empty()) {
            lemma_base_class(items, after_name);
            if let Ok((after_base, _)) = definition::base_class_at(items, after_name) {
                if spelling::is_at(items, after_base, TerminalToken::OpenBrace) {
                    let _ = lemma_members(items, after_base + 1, Seq::empty());
                }
            }
        }
    }
}

pub(crate) proof fn lemma_base_class<'s>(items: Seq<TokenItem<'s>>, at: int)
    requires
        0 <= at <= items.len() <= usize::MAX,
    ensures
        match definition::base_class_at(items, at) {
            Ok((next, tree)) => {
                &&& at <= next <= items.len()
                &&& spelling::end_of_base_class(tree, items, Some(at)) == Some(next)
            },
            Err(error) => spelling::is_wrong(items, at, error),
        },
    decreases grammar::left(items, at), 0nat,
{
    reveal(definition::base_class_at);
    reveal(spelling::end_of_base_class);
    if spelling::is_at(items, at, TerminalToken::Extends) {
        super::expression::lemma_postfix(items, at + 1);
    }
}

pub(crate) proof fn lemma_members<'s>(
    items: Seq<TokenItem<'s>>,
    at: int,
    found: Seq<ClassMember<'s>>,
) -> (read: Seq<ClassMember<'s>>)
    requires
        0 <= at <= items.len() <= usize::MAX,
    ensures
        match definition::members_from(items, at, found) {
            Ok((next, tree)) => {
                &&& at < next <= items.len()
                &&& tree == list::list_of(found + read)
                &&& found.len() == 0 ==> tree == list::list_of(read)
                &&& spelling::behind(
                    items,
                    spelling::end_of_members(list::list_of(read), items, Some(at)),
                    TerminalToken::CloseBrace,
                ) == Some(next)
            },
            Err(error) => spelling::is_wrong(items, at, error),
        },
    decreases grammar::left(items, at), 19nat,
{
    reveal(definition::members_from);
    reveal(definition::member_at);
    reveal(spelling::end_of_members);
    reveal(spelling::end_of_member);
    if spelling::is_at(items, at, TerminalToken::CloseBrace) || at >= items.len() {
        assert(found + Seq::empty() =~= found);
        Seq::empty()
    } else {
        lemma_member(items, at);
        match definition::member_at(items, at) {
            Ok((next, item)) => {
                let behind = if spelling::is_at(items, next, TerminalToken::Semicolon) {
                    next + 1
                } else {
                    next
                };
                let rest = lemma_members(items, behind, found.push(item));
                let read = seq![item] + rest;
                assert(found.push(item) + rest =~= found + read);
                assert(found.len() == 0 ==> found + read =~= read);
                assert(read.drop_first() =~= rest);
                read
            },
            Err(_) => Seq::empty(),
        }
    }
}

pub(crate) proof fn lemma_member<'s>(items: Seq<TokenItem<'s>>, at: int)
    requires
        0 <= at <= items.len() <= usize::MAX,
    ensures
        match definition::member_at(items, at) {
            Ok((next, tree)) => {
                &&& at < next <= items.len()
                &&& spelling::end_of_member(tree, items, Some(at)) == Some(next)
            },
            Err(error) => spelling::is_wrong(items, at, error),
        },
    decreases grammar::left(items, at), 18nat,
{
    reveal(definition::member_at);
    reveal(definition::member_type_at);
    reveal(spelling::end_of_member);
    reveal(spelling::end_of_member_type);
    if spelling::is_at(items, at, TerminalToken::Static) {
        lemma_member_type(items, at + 1);
    } else {
        lemma_member_type(items, at);
    }
}

pub(crate) proof fn lemma_member_type<'s>(items: Seq<TokenItem<'s>>, at: int)
    requires
        0 <= at <= items.len() <= usize::MAX,
    ensures
        match definition::member_type_at(items, at) {
            Ok((next, tree)) => {
                &&& at < next <= items.len()
                &&& spelling::end_of_member_type(tree, items, Some(at)) == Some(next)
            },
            Err(error) => spelling::is_wrong(items, at, error),
        },
    decreases grammar::left(items, at), 17nat,
{
    reveal(definition::member_type_at);
    reveal(definition::constructor_at);
    reveal(definition::method_at);
    reveal(definition::property_at);
    reveal(spelling::end_of_member_type);
    if spelling::is_at(items, at, TerminalToken::Constructor) {
        lemma_constructor(items, at);
    } else if spelling::is_at(items, at, TerminalToken::Function) {
        lemma_method(items, at);
    } else {
        lemma_property(items, at);
    }
}

pub(crate) proof fn lemma_constructor<'s>(items: Seq<TokenItem<'s>>, at: int)
    requires
        0 <= at <= items.len() <= usize::MAX,
    ensures
        match definition::constructor_at(items, at) {
            Ok((next, tree)) => {
                &&& at < next <= items.len()
                &&& spelling::end_of_member_type(tree, items, Some(at)) == Some(next)
            },
            Err(error) => spelling::is_wrong(items, at, error),
        },
    decreases grammar::left(items, at), 16nat,
{
    reveal(definition::constructor_at);
    reveal(spelling::end_of_member_type);
    if spelling::is_at(items, at, TerminalToken::Constructor) {
        super::function::lemma_definition(items, at + 1);
    }
}

pub(crate) proof fn lemma_method<'s>(items: Seq<TokenItem<'s>>, at: int)
    requires
        0 <= at <= items.len() <= usize::MAX,
    ensures
        match definition::method_at(items, at) {
            Ok((next, tree)) => {
                &&& at < next <= items.len()
                &&& spelling::end_of_member_type(tree, items, Some(at)) == Some(next)
            },
            Err(error) => spelling::is_wrong(items, at, error),
        },
    decreases grammar::left(items, at), 16nat,
{
    reveal(definition::method_at);
    reveal(spelling::end_of_member_type);
    if spelling::is_at(items, at, TerminalToken::Function) {
        if let Ok((after_name, _)) = name::identifier_at(items, at + 1) {
            super::function::lemma_definition(items, after_name);
        }
    }
}

pub(crate) proof fn lemma_property<'s>(items: Seq<TokenItem<'s>>, at: int)
    requires
        0 <= at <= items.len() <= usize::MAX,
    ensures
        match definition::property_at(items, at) {
            Ok((next, tree)) => {
                &&& at < next <= items.len()
                &&& spelling::end_of_member_type(tree, items, Some(at)) == Some(next)
            },
            Err(error) => spelling::is_wrong(items, at, error),
        },
    decreases grammar::left(items, at), 16nat,
{
    reveal(definition::property_at);
    reveal(spelling::end_of_member_type);
    if let Ok((after_name, _)) = name::identifier_at(items, at) {
        if spelling::is_at(items, after_name, TerminalToken::Assign) {
            super::expression::lemma_expression(items, after_name + 1);
        }
    }
}

pub(crate) proof fn lemma_local_definition<'s>(items: Seq<TokenItem<'s>>, at: int)
    requires
        0 <= at <= items.len() <= usize::MAX,
    ensures
        match definition::local_definition_at(items, at) {
            Ok((next, tree)) => {
                &&& at < next <= items.len()
                &&& spelling::end_of_statement_type(tree, items, Some(at)) == Some(next)
            },
            Err(error) => spelling::is_wrong(items, at, error),
        },
    decreases grammar::left(items, at), 1nat,
{
    reveal(definition::local_definition_at);
    reveal(spelling::end_of_statement_type);
    reveal(spelling::end_of_definition);
    if spelling::is_at(items, at, TerminalToken::Local) {
        let _ = super::variable::lemma_variables(items, at + 1, Seq::empty());
    }
}

pub(crate) proof fn lemma_struct_var_definition<'s>(items: Seq<TokenItem<'s>>, at: int)
    requires
        0 <= at <= items.len() <= usize::MAX,
        spelling::is_at(items, at, TerminalToken::Struct),
    ensures
        match definition::struct_var_definition_at(items, at) {
            Ok((next, tree)) => {
                &&& at < next <= items.len()
                &&& spelling::end_of_statement_type(tree, items, Some(at)) == Some(next)
            },
            Err(error) => spelling::is_wrong(items, at, error),
        },
    decreases grammar::left(items, at), 5nat,
{
    reveal(definition::struct_var_definition_at);
    reveal(spelling::end_of_statement_type);
    reveal(spelling::end_of_definition);
    super::type_::lemma_type(items, at);
    if let Ok((after_ty, ty)) = type_::type__at(items, at) {
        super::type_::lemma_plain_type(items, at, ty);
        let _ = super::variable::lemma_variables(items, after_ty, Seq::empty());
    }
}

pub(crate) proof fn lemma_function_definition<'s>(items: Seq<TokenItem<'s>>, at: int)
    requires
        0 <= at <= items.len() <= usize::MAX,
    ensures
        match definition::function_definition_at(items, at) {
            Ok((next, tree)) => {
                &&& at < next <= items.len()
                &&& spelling::end_of_statement_type(tree, items, Some(at)) == Some(next)
            },
            Err(error) => spelling::is_wrong(items, at, error),
        },
    decreases grammar::left(items, at), 2nat,
{
    reveal(definition::function_definition_at);
    reveal(spelling::end_of_statement_type);
    if spelling::is_at(items, at, TerminalToken::Function) {
        let _ = super::name::lemma_names(items, at + 1, Seq::empty());
        if let Ok((after_name, _)) = name::names_from(items, at + 1, Seq::empty()) {
            super::function::lemma_definition(items, after_name);
        }
    }
}

pub(crate) proof fn lemma_global_function<'s>(items: Seq<TokenItem<'s>>, at: int)
    requires
        0 <= at <= items.len() <= usize::MAX,
    ensures
        match definition::global_function_at(items, at) {
            Ok((next, tree)) => {
                &&& at < next <= items.len()
                &&& spelling::end_of_statement_type(tree, items, Some(at)) == Some(next)
            },
            Err(error) => spelling::is_wrong(items, at, error),
        },
    decreases grammar::left(items, at), 1nat,
{
    reveal(definition::global_function_at);
    reveal(spelling::end_of_statement_type);
    if spelling::is_at(items, at, TerminalToken::Global)
        && spelling::is_at(items, at + 1, TerminalToken::Function) {
        let _ = super::name::lemma_names(items, at + 2, Seq::empty());
    }
}

pub(crate) proof fn lemma_global_definition<'s>(items: Seq<TokenItem<'s>>, at: int)
    requires
        0 <= at <= items.len() <= usize::MAX,
    ensures
        match definition::global_definition_at(items, at) {
            Ok((next, tree)) => {
                &&& at < next <= items.len()
                &&& spelling::end_of_statement_type(tree, items, Some(at)) == Some(next)
            },
            Err(error) => spelling::is_wrong(items, at, error),
        },
    decreases grammar::left(items, at), 1nat,
{
    reveal(definition::global_definition_at);
    reveal(spelling::end_of_statement_type);
    if spelling::is_at(items, at, TerminalToken::Global) {
        super::statement::lemma_statement(items, at + 1);
    }
}

pub(crate) proof fn lemma_typed_definition<'s>(items: Seq<TokenItem<'s>>, at: int)
    requires
        0 <= at <= items.len() <= usize::MAX,
    ensures
        match definition::typed_definition_at(items, at) {
            Ok((next, tree)) => {
                &&& at < next <= items.len()
                &&& spelling::end_of_statement_type(tree, items, Some(at)) == Some(next)
            },
            Err(error) => spelling::is_wrong(items, at, error),
        },
    decreases grammar::left(items, at), 18nat,
{
    reveal(definition::typed_definition_at);
    reveal(definition::expression_statement_at);
    reveal(spelling::end_of_statement_type);
    reveal(spelling::end_of_definition);
    lemma_expression_statement(items, at);
    super::type_::lemma_type(items, at);
    if let Ok((next, ty)) = type_::type__at(items, at) {
        if spelling::is_inside_line(items, next) {
            if spelling::is_at(items, next, TerminalToken::Function) {
                let _ = super::name::lemma_names(items, next + 1, Seq::empty());
                if let Ok((middle, _)) = name::names_from(items, next + 1, Seq::empty()) {
                    super::function::lemma_definition(items, middle);
                }
            } else {
                let _ = super::variable::lemma_variables(items, next, Seq::empty());
                super::type_::lemma_plain_type(items, at, ty);
            }
        }
    }
}

pub(crate) proof fn lemma_expression_statement<'s>(items: Seq<TokenItem<'s>>, at: int)
    requires
        0 <= at <= items.len() <= usize::MAX,
    ensures
        match definition::expression_statement_at(items, at) {
            Ok((next, tree)) => {
                &&& at < next <= items.len()
                &&& spelling::end_of_statement_type(tree, items, Some(at)) == Some(next)
            },
            Err(error) => spelling::is_wrong(items, at, error),
        },
    decreases grammar::left(items, at), 17nat,
{
    reveal(definition::expression_statement_at);
    reveal(spelling::end_of_statement_type);
    super::expression::lemma_expression(items, at);
}

} // verus!
