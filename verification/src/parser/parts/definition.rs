use crate::ast::{
    ClassDefinition, ClassMember, ClassMemberType, ConstStatement, EnumDefinition, EnumEntry,
    Expression, FunctionDefinition, FunctionDefinitionStatement, Identifier, SeparatedList1,
    Statement, StatementType, StructDefinition, StructField, Type, TypeDefinition, TypedName,
    VarDefinition, Variable,
};
use crate::lexer::TokenItem;
use crate::list;
use crate::list::List;
use crate::parser::error::ParseErrorType;
use crate::parser::grammar::Parsed;
use crate::parser::parts::read;
use crate::parser::{
    definition, expression, function, grammar, name, spelling, statement, type_, variable,
};
use crate::token::TerminalToken;
use vstd::prelude::*;

verus! {

/// A named constant.
/// It is read if and only if its parts are, one behind the other. The first part that is not there
/// is what is wrong.
pub proof fn law_const_statement_is_read_by_its_parts<'s>(
    items: Seq<TokenItem<'s>>,
    at: int,
    next: int,
    named: TypedName<'s>,
    value: Expression<'s>,
)
    requires
        0 <= at <= items.len() <= usize::MAX,
    ensures
        ({
            let parsed = definition::const_statement_at(items, at);
            let tree = StatementType::Const(
                ConstStatement { ty: named.ty, name: named.name, value },
            );
            let place1 = spelling::behind(items, Some(at), TerminalToken::Const);
            let place2 = read::typed_name(named, items, place1);
            let place3 = spelling::behind(items, place2, TerminalToken::Assign);
            let place4 = read::expression(value, items, place3);
            &&& parsed == Parsed::Ok((next, tree)) <==> place4 == Some(next)
            &&& read::needs(items, Some(at), TerminalToken::Const, parsed)
            &&& place1 is Some ==> read::passes_on(type_::typed_name_at(items, place1->0), parsed)
            &&& read::needs(items, place2, TerminalToken::Assign, parsed)
            &&& place3 is Some ==> read::passes_on(
                expression::expression_at(items, place3->0),
                parsed,
            )
        }),
{
    reveal(definition::const_statement_at);
    if spelling::is_at(items, at, TerminalToken::Const) {
        spelling::type_::lemma_typed_name(items, at + 1);
        if let Ok((after_named, _)) = type_::typed_name_at(items, at + 1) {
            if spelling::is_at(items, after_named, TerminalToken::Assign) {
                spelling::expression::lemma_expression(items, after_named + 1);
            }
        }
    }
}

/// A named list of constants.
/// It is read if and only if its parts are, one behind the other. The first part that is not there
/// is what is wrong.
pub proof fn law_enum_definition_is_read_by_its_parts<'s>(
    items: Seq<TokenItem<'s>>,
    at: int,
    next: int,
    name: Identifier<'s>,
    entries: List<EnumEntry<'s>>,
)
    requires
        0 <= at <= items.len() <= usize::MAX,
    ensures
        ({
            let parsed = definition::enum_definition_at(items, at);
            let tree = StatementType::EnumDefinition(EnumDefinition { name, entries });
            let place1 = spelling::behind(items, Some(at), TerminalToken::Enum);
            let place2 = spelling::end_of_name(name, items, place1);
            let place3 = spelling::behind(items, place2, TerminalToken::OpenBrace);
            let place4 = read::enum_entries(entries, items, place3);
            &&& parsed == Parsed::Ok((next, tree)) <==> place4 == Some(next)
            &&& read::needs(items, Some(at), TerminalToken::Enum, parsed)
            &&& place1 is Some ==> read::passes_on(name::identifier_at(items, place1->0), parsed)
            &&& read::needs(items, place2, TerminalToken::OpenBrace, parsed)
            &&& place3 is Some ==> read::passes_on(
                definition::enum_entries_from(items, place3->0, Seq::empty()),
                parsed,
            )
        }),
{
    reveal(definition::enum_definition_at);
    reveal(definition::enum_entries_from);
    if spelling::is_at(items, at, TerminalToken::Enum) {
        if let Ok((after_name, _)) = name::identifier_at(items, at + 1) {
            if spelling::is_at(items, after_name, TerminalToken::OpenBrace) {
                let _ = spelling::definition::lemma_enum_entries(
                    items,
                    after_name + 1,
                    Seq::empty(),
                );
            }
        }
    }
}

/// The place behind constants and the mark that ends them.
/// They stand each with a comma behind it or not.
pub open spec fn chain_enum_entries<'s>(
    tree: List<EnumEntry<'s>>,
    items: Seq<TokenItem<'s>>,
    at: int,
) -> Option<int>
    decreases tree,
{
    match tree {
        List::Empty => spelling::behind(items, Some(at), TerminalToken::CloseBrace),
        List::Item(first, rest) => {
            if spelling::is_at(items, at, TerminalToken::CloseBrace) {
                None
            } else {
                match read::enum_entry(*first, items, Some(at)) {
                    Some(end) => if spelling::is_at(items, end, TerminalToken::Comma) {
                        chain_enum_entries(*rest, items, end + 1)
                    } else {
                        chain_enum_entries(*rest, items, end)
                    },
                    None => None,
                }
            }
        },
    }
}

proof fn lemma_enum_entries<'s>(
    items: Seq<TokenItem<'s>>,
    at: int,
    next: int,
    found: Seq<EnumEntry<'s>>,
    tree: List<EnumEntry<'s>>,
)
    requires
        0 <= at <= items.len() <= usize::MAX,
        chain_enum_entries(tree, items, at) == Some(next),
    ensures
        definition::enum_entries_from(items, at, found) == Parsed::Ok(
            (next, list::list_of(found + tree.items())),
        ),
    decreases tree,
{
    reveal(definition::enum_entries_from);
    reveal(definition::enum_entry_at);
    match tree {
        List::Empty => {
            assert(found + tree.items() =~= found);
        },
        List::Item(first, rest) => {
            spelling::definition::lemma_enum_entry(items, at);
            assert(found.push(*first) + rest.items() =~= found + tree.items());
            if let Ok((n, _)) = definition::enum_entry_at(items, at) {
                lemma_enum_entries(items, if spelling::is_at(items, n, TerminalToken::Comma) {
                    n + 1
                } else {
                    n
                }, next, found.push(*first), *rest);
            }
        },
    }
}

/// A list is read if its items are, each with a comma behind it or not, up to the mark that ends
/// it.
pub proof fn law_enum_entries_are_read_by_their_items<'s>(
    items: Seq<TokenItem<'s>>,
    at: int,
    next: int,
    tree: List<EnumEntry<'s>>,
)
    requires
        0 <= at <= items.len() <= usize::MAX,
        chain_enum_entries(tree, items, at) == Some(next),
    ensures
        definition::enum_entries_from(items, at, Seq::empty()) == Parsed::Ok((next, tree)),
{
    lemma_enum_entries(items, at, next, Seq::empty(), tree);
    assert(Seq::empty() + tree.items() =~= tree.items());
    list::lemma_list_of_items(tree);
}

/// A list fails as its first item that cannot be read does, and where the mark that ends it is not
/// there.
pub proof fn law_enum_entries_fail_with_their_first_item<'s>(
    items: Seq<TokenItem<'s>>,
    at: int,
    found: Seq<EnumEntry<'s>>,
)
    requires
        0 <= at <= items.len() <= usize::MAX,
    ensures
        ({
            let parsed = definition::enum_entries_from(items, at, found);
            let read_more = at < items.len()
                && !spelling::is_at(items, at, TerminalToken::CloseBrace);
            &&& at == items.len() ==> read::needs(
                items,
                Some(at),
                TerminalToken::CloseBrace,
                parsed,
            )
            &&& read_more ==> read::passes_on(definition::enum_entry_at(items, at), parsed)
            &&& read_more
                ==> (definition::enum_entry_at(items, at) matches Ok((end, item))
                ==> parsed == definition::enum_entries_from(
                items,
                if spelling::is_at(items, end, TerminalToken::Comma) {
                    end + 1
                } else {
                    end
                },
                found.push(item),
            ))
        }),
{
    reveal(definition::enum_entries_from);
    reveal(definition::enum_entry_at);
    spelling::definition::lemma_enum_entry(items, at);
}

/// A constant of a list.
/// It is read if and only if its parts are, one behind the other. The first part that is not there
/// is what is wrong.
pub proof fn law_enum_entry_is_read_by_its_parts<'s>(
    items: Seq<TokenItem<'s>>,
    at: int,
    next: int,
    name: Identifier<'s>,
    value: Option<Expression<'s>>,
)
    requires
        0 <= at <= items.len() <= usize::MAX,
    ensures
        ({
            let parsed = definition::enum_entry_at(items, at);
            let tree = EnumEntry { name, value };
            let place1 = spelling::end_of_name(name, items, Some(at));
            let place2 = read::initializer(value, items, place1);
            &&& parsed == Parsed::Ok((next, tree)) <==> place2 == Some(next)
            &&& read::passes_on(name::identifier_at(items, at), parsed)
            &&& place1 is Some ==> read::passes_on(
                variable::initializer_at(items, place1->0),
                parsed,
            )
        }),
{
    reveal(definition::enum_entry_at);
    if let Ok((after_name, _)) = name::identifier_at(items, at) {
        spelling::variable::lemma_initializer(items, after_name);
    }
}

/// A named record type.
/// It is read if and only if its parts are, one behind the other. The first part that is not there
/// is what is wrong.
pub proof fn law_struct_definition_is_read_by_its_parts<'s>(
    items: Seq<TokenItem<'s>>,
    at: int,
    next: int,
    name: Identifier<'s>,
    fields: List<StructField<'s>>,
)
    requires
        0 <= at <= items.len() <= usize::MAX,
    ensures
        ({
            let parsed = definition::struct_definition_at(items, at);
            let tree = StatementType::StructDefinition(StructDefinition { name, fields });
            let place1 = spelling::behind(items, Some(at), TerminalToken::Struct);
            let place2 = spelling::end_of_name(name, items, place1);
            let place3 = spelling::behind(items, place2, TerminalToken::OpenBrace);
            let place4 = read::fields(fields, items, place3);
            &&& parsed == Parsed::Ok((next, tree)) <==> place4 == Some(next)
            &&& read::needs(items, Some(at), TerminalToken::Struct, parsed)
            &&& place1 is Some ==> read::passes_on(name::identifier_at(items, place1->0), parsed)
            &&& read::needs(items, place2, TerminalToken::OpenBrace, parsed)
            &&& place3 is Some ==> read::passes_on(
                type_::fields_from(items, place3->0, Seq::empty()),
                parsed,
            )
        }),
{
    reveal(definition::struct_definition_at);
    if spelling::is_at(items, at, TerminalToken::Struct) {
        if let Ok((after_name, _)) = name::identifier_at(items, at + 1) {
            if spelling::is_at(items, after_name, TerminalToken::OpenBrace) {
                let _ = spelling::type_::lemma_fields(items, after_name + 1, Seq::empty());
            }
        }
    }
}

/// A second name for a type.
/// It is read if and only if its parts are, one behind the other. The first part that is not there
/// is what is wrong.
pub proof fn law_type_definition_is_read_by_its_parts<'s>(
    items: Seq<TokenItem<'s>>,
    at: int,
    next: int,
    name: Identifier<'s>,
    ty: Type<'s>,
)
    requires
        0 <= at <= items.len() <= usize::MAX,
    ensures
        ({
            let parsed = definition::type_definition_at(items, at);
            let tree = StatementType::TypeDefinition(TypeDefinition { name, ty });
            let place1 = spelling::behind(items, Some(at), TerminalToken::Typedef);
            let place2 = spelling::end_of_name(name, items, place1);
            let place3 = read::type_(ty, items, place2);
            &&& parsed == Parsed::Ok((next, tree)) <==> place3 == Some(next)
            &&& read::needs(items, Some(at), TerminalToken::Typedef, parsed)
            &&& place1 is Some ==> read::passes_on(name::identifier_at(items, place1->0), parsed)
            &&& place2 is Some ==> read::passes_on(type_::type__at(items, place2->0), parsed)
        }),
{
    reveal(definition::type_definition_at);
    if spelling::is_at(items, at, TerminalToken::Typedef) {
        if let Ok((after_name, _)) = name::identifier_at(items, at + 1) {
            spelling::type_::lemma_type(items, after_name);
        }
    }
}

/// A class.
/// It is read if and only if its parts are, one behind the other. The first part that is not there
/// is what is wrong.
pub proof fn law_class_definition_is_read_by_its_parts<'s>(
    items: Seq<TokenItem<'s>>,
    at: int,
    next: int,
    name: SeparatedList1<Identifier<'s>>,
    base: Option<Expression<'s>>,
    members: List<ClassMember<'s>>,
)
    requires
        0 <= at <= items.len() <= usize::MAX,
    ensures
        ({
            let parsed = definition::class_definition_at(items, at);
            let tree = StatementType::ClassDefinition(ClassDefinition { name, base, members });
            let place1 = spelling::behind(items, Some(at), TerminalToken::Class);
            let place2 = read::names(name, items, place1);
            let place3 = read::base_class(base, items, place2);
            let place4 = spelling::behind(items, place3, TerminalToken::OpenBrace);
            let place5 = read::members(members, items, place4);
            &&& parsed == Parsed::Ok((next, tree)) <==> place5 == Some(next)
            &&& read::needs(items, Some(at), TerminalToken::Class, parsed)
            &&& place1 is Some ==> read::passes_on(
                name::names_from(items, place1->0, Seq::empty()),
                parsed,
            )
            &&& place2 is Some ==> read::passes_on(
                definition::base_class_at(items, place2->0),
                parsed,
            )
            &&& read::needs(items, place3, TerminalToken::OpenBrace, parsed)
            &&& place4 is Some ==> read::passes_on(
                definition::members_from(items, place4->0, Seq::empty()),
                parsed,
            )
        }),
{
    reveal(definition::class_definition_at);
    reveal(definition::base_class_at);
    reveal(definition::members_from);
    if spelling::is_at(items, at, TerminalToken::Class) {
        let _ = spelling::name::lemma_names(items, at + 1, Seq::empty());
        if let Ok((after_name, _)) = name::names_from(items, at + 1, Seq::empty()) {
            spelling::definition::lemma_base_class(items, after_name);
            if let Ok((after_base, _)) = definition::base_class_at(items, after_name) {
                if spelling::is_at(items, after_base, TerminalToken::OpenBrace) {
                    let _ = spelling::definition::lemma_members(
                        items,
                        after_base + 1,
                        Seq::empty(),
                    );
                }
            }
        }
    }
}

/// The class that a class extends is read if and only if it stands behind `extends`, and none is
/// read if and only if no `extends` stands there.
pub proof fn law_base_class_is_read_by_its_parts<'s>(
    items: Seq<TokenItem<'s>>,
    at: int,
    next: int,
    tree: Option<Expression<'s>>,
)
    requires
        0 <= at <= items.len() <= usize::MAX,
    ensures
        definition::base_class_at(items, at) == Parsed::Ok((next, tree)) <==> (match tree {
            Some(base) => read::postfix(
                base,
                items,
                spelling::behind(items, Some(at), TerminalToken::Extends),
            ),
            None => spelling::without(items, Some(at), TerminalToken::Extends),
        }) == Some(next),
        spelling::is_at(items, at, TerminalToken::Extends) ==> read::passes_on(
            expression::postfix_at(items, at + 1),
            definition::base_class_at(items, at),
        ),
{
    reveal(definition::base_class_at);
    if spelling::is_at(items, at, TerminalToken::Extends) {
        spelling::expression::lemma_postfix(items, at + 1);
    }
}

/// The place behind members and the mark that ends them.
/// They stand each with a semicolon behind it or not.
pub open spec fn chain_members<'s>(
    tree: List<ClassMember<'s>>,
    items: Seq<TokenItem<'s>>,
    at: int,
) -> Option<int>
    decreases tree,
{
    match tree {
        List::Empty => spelling::behind(items, Some(at), TerminalToken::CloseBrace),
        List::Item(first, rest) => {
            if spelling::is_at(items, at, TerminalToken::CloseBrace) {
                None
            } else {
                match read::member(*first, items, Some(at)) {
                    Some(end) => if spelling::is_at(items, end, TerminalToken::Semicolon) {
                        chain_members(*rest, items, end + 1)
                    } else {
                        chain_members(*rest, items, end)
                    },
                    None => None,
                }
            }
        },
    }
}

proof fn lemma_members<'s>(
    items: Seq<TokenItem<'s>>,
    at: int,
    next: int,
    found: Seq<ClassMember<'s>>,
    tree: List<ClassMember<'s>>,
)
    requires
        0 <= at <= items.len() <= usize::MAX,
        chain_members(tree, items, at) == Some(next),
    ensures
        definition::members_from(items, at, found) == Parsed::Ok(
            (next, list::list_of(found + tree.items())),
        ),
    decreases tree,
{
    reveal(definition::members_from);
    reveal(definition::member_at);
    match tree {
        List::Empty => {
            assert(found + tree.items() =~= found);
        },
        List::Item(first, rest) => {
            spelling::definition::lemma_member(items, at);
            assert(found.push(*first) + rest.items() =~= found + tree.items());
            if let Ok((n, _)) = definition::member_at(items, at) {
                lemma_members(items, if spelling::is_at(items, n, TerminalToken::Semicolon) {
                    n + 1
                } else {
                    n
                }, next, found.push(*first), *rest);
            }
        },
    }
}

/// A list is read if its items are, each with a semicolon behind it or not, up to the mark that
/// ends it.
pub proof fn law_members_are_read_by_their_items<'s>(
    items: Seq<TokenItem<'s>>,
    at: int,
    next: int,
    tree: List<ClassMember<'s>>,
)
    requires
        0 <= at <= items.len() <= usize::MAX,
        chain_members(tree, items, at) == Some(next),
    ensures
        definition::members_from(items, at, Seq::empty()) == Parsed::Ok((next, tree)),
{
    lemma_members(items, at, next, Seq::empty(), tree);
    assert(Seq::empty() + tree.items() =~= tree.items());
    list::lemma_list_of_items(tree);
}

/// A list fails as its first item that cannot be read does, and where the mark that ends it is not
/// there.
pub proof fn law_members_fail_with_their_first_item<'s>(
    items: Seq<TokenItem<'s>>,
    at: int,
    found: Seq<ClassMember<'s>>,
)
    requires
        0 <= at <= items.len() <= usize::MAX,
    ensures
        ({
            let parsed = definition::members_from(items, at, found);
            let read_more = at < items.len()
                && !spelling::is_at(items, at, TerminalToken::CloseBrace);
            &&& at == items.len() ==> read::needs(
                items,
                Some(at),
                TerminalToken::CloseBrace,
                parsed,
            )
            &&& read_more ==> read::passes_on(definition::member_at(items, at), parsed)
            &&& read_more
                ==> (definition::member_at(items, at) matches Ok((end, item))
                ==> parsed == definition::members_from(
                items,
                if spelling::is_at(items, end, TerminalToken::Semicolon) {
                    end + 1
                } else {
                    end
                },
                found.push(item),
            ))
        }),
{
    reveal(definition::members_from);
    reveal(definition::member_at);
    spelling::definition::lemma_member(items, at);
}

/// A member of a class is static if and only if it starts with `static`.
pub proof fn law_member_is_read_by_its_parts<'s>(
    items: Seq<TokenItem<'s>>,
    at: int,
    next: int,
    ty: ClassMemberType<'s>,
)
    requires
        0 <= at <= items.len() <= usize::MAX,
    ensures
        definition::member_at(items, at) == Parsed::Ok(
            (next, ClassMember { is_static: true, ty }),
        ) <==> read::member_type(
            ty,
            items,
            spelling::behind(items, Some(at), TerminalToken::Static),
        ) == Some(next),
        definition::member_at(items, at) == Parsed::Ok((next, ClassMember { is_static: false, ty }))
            <==> read::member_type(
            ty,
            items,
            spelling::without(items, Some(at), TerminalToken::Static),
        ) == Some(next),
        read::passes_on(
            definition::member_type_at(
                items,
                if spelling::is_at(items, at, TerminalToken::Static) {
                    at + 1
                } else {
                    at
                },
            ),
            definition::member_at(items, at),
        ),
{
    reveal(definition::member_at);
    reveal(definition::member_type_at);
    if spelling::is_at(items, at, TerminalToken::Static) {
        spelling::definition::lemma_member_type(items, at + 1);
    } else {
        spelling::definition::lemma_member_type(items, at);
    }
}

/// A member of a class is a constructor, a function or a value by its first token.
pub proof fn law_member_is_chosen_by_its_first_token<'s>(
    items: Seq<TokenItem<'s>>,
    at: int,
)
    requires
        0 <= at <= items.len() <= usize::MAX,
    ensures
        definition::member_type_at(items, at)
            == (if spelling::is_at(items, at, TerminalToken::Constructor) {
            definition::constructor_at(items, at)
        } else if spelling::is_at(items, at, TerminalToken::Function) {
            definition::method_at(items, at)
        } else {
            definition::property_at(items, at)
        }),
{
    reveal(definition::member_type_at);
    reveal(definition::constructor_at);
    reveal(definition::method_at);
    reveal(definition::property_at);
}

/// A function that makes values of a class.
/// It is read if and only if its parts are, one behind the other. The first part that is not there
/// is what is wrong.
pub proof fn law_constructor_is_read_by_its_parts<'s>(
    items: Seq<TokenItem<'s>>,
    at: int,
    next: int,
    function: FunctionDefinition<'s>,
)
    requires
        0 <= at <= items.len() <= usize::MAX,
    ensures
        ({
            let parsed = definition::constructor_at(items, at);
            let tree = ClassMemberType::Constructor(function);
            let place1 = spelling::behind(items, Some(at), TerminalToken::Constructor);
            let place2 = read::definition(function, items, place1);
            &&& parsed == Parsed::Ok((next, tree)) <==> place2 == Some(next)
            &&& read::needs(items, Some(at), TerminalToken::Constructor, parsed)
            &&& place1 is Some ==> read::passes_on(
                function::definition_at(items, place1->0),
                parsed,
            )
        }),
{
    reveal(definition::constructor_at);
    if spelling::is_at(items, at, TerminalToken::Constructor) {
        spelling::function::lemma_definition(items, at + 1);
    }
}

/// A function of a class.
/// It is read if and only if its parts are, one behind the other. The first part that is not there
/// is what is wrong.
pub proof fn law_method_is_read_by_its_parts<'s>(
    items: Seq<TokenItem<'s>>,
    at: int,
    next: int,
    name: Identifier<'s>,
    function: FunctionDefinition<'s>,
)
    requires
        0 <= at <= items.len() <= usize::MAX,
    ensures
        ({
            let parsed = definition::method_at(items, at);
            let tree = ClassMemberType::Function(name, function);
            let place1 = spelling::behind(items, Some(at), TerminalToken::Function);
            let place2 = spelling::end_of_name(name, items, place1);
            let place3 = read::definition(function, items, place2);
            &&& parsed == Parsed::Ok((next, tree)) <==> place3 == Some(next)
            &&& read::needs(items, Some(at), TerminalToken::Function, parsed)
            &&& place1 is Some ==> read::passes_on(name::identifier_at(items, place1->0), parsed)
            &&& place2 is Some ==> read::passes_on(
                function::definition_at(items, place2->0),
                parsed,
            )
        }),
{
    reveal(definition::method_at);
    if spelling::is_at(items, at, TerminalToken::Function) {
        if let Ok((after_name, _)) = name::identifier_at(items, at + 1) {
            spelling::function::lemma_definition(items, after_name);
        }
    }
}

/// A named value of a class.
/// It is read if and only if its parts are, one behind the other. The first part that is not there
/// is what is wrong.
pub proof fn law_property_is_read_by_its_parts<'s>(
    items: Seq<TokenItem<'s>>,
    at: int,
    next: int,
    name: Identifier<'s>,
    value: Expression<'s>,
)
    requires
        0 <= at <= items.len() <= usize::MAX,
    ensures
        ({
            let parsed = definition::property_at(items, at);
            let tree = ClassMemberType::Property(name, value);
            let place1 = spelling::end_of_name(name, items, Some(at));
            let place2 = spelling::behind(items, place1, TerminalToken::Assign);
            let place3 = read::expression(value, items, place2);
            &&& parsed == Parsed::Ok((next, tree)) <==> place3 == Some(next)
            &&& read::passes_on(name::identifier_at(items, at), parsed)
            &&& read::needs(items, place1, TerminalToken::Assign, parsed)
            &&& place2 is Some ==> read::passes_on(
                expression::expression_at(items, place2->0),
                parsed,
            )
        }),
{
    reveal(definition::property_at);
    if let Ok((after_name, _)) = name::identifier_at(items, at) {
        if spelling::is_at(items, after_name, TerminalToken::Assign) {
            spelling::expression::lemma_expression(items, after_name + 1);
        }
    }
}

/// Variables without a type.
/// It is read if and only if its parts are, one behind the other. The first part that is not there
/// is what is wrong.
pub proof fn law_local_definition_is_read_by_its_parts<'s>(
    items: Seq<TokenItem<'s>>,
    at: int,
    next: int,
    variables: List<Variable<'s>>,
)
    requires
        0 <= at <= items.len() <= usize::MAX,
    ensures
        ({
            let parsed = definition::local_definition_at(items, at);
            let tree = StatementType::VarDefinition(VarDefinition { ty: None, variables });
            let place1 = spelling::behind(items, Some(at), TerminalToken::Local);
            let place2 = read::variables(variables, items, place1);
            &&& parsed == Parsed::Ok((next, tree)) <==> place2 == Some(next)
            &&& read::needs(items, Some(at), TerminalToken::Local, parsed)
            &&& place1 is Some ==> read::passes_on(
                variable::variables_from(items, place1->0, Seq::empty()),
                parsed,
            )
        }),
{
    reveal(definition::local_definition_at);
    if spelling::is_at(items, at, TerminalToken::Local) {
        let _ = spelling::variable::lemma_variables(items, at + 1, Seq::empty());
    }
}

/// Variables of a record type without a name.
/// It is read if and only if its parts are, one behind the other. The first part that is not there
/// is what is wrong.
pub proof fn law_struct_var_definition_is_read_by_its_parts<'s>(
    items: Seq<TokenItem<'s>>,
    at: int,
    next: int,
    ty: Type<'s>,
    variables: List<Variable<'s>>,
)
    requires
        0 <= at <= items.len() <= usize::MAX,
    ensures
        ({
            let parsed = definition::struct_var_definition_at(items, at);
            let tree = StatementType::VarDefinition(VarDefinition { ty: Some(ty), variables });
            let place1 = read::type_(ty, items, Some(at));
            let place2 = read::variables(variables, items, place1);
            &&& parsed == Parsed::Ok((next, tree)) <==> place2 == Some(next)
            &&& read::passes_on(type_::type__at(items, at), parsed)
            &&& place1 is Some ==> read::passes_on(
                variable::variables_from(items, place1->0, Seq::empty()),
                parsed,
            )
        }),
{
    reveal(definition::struct_var_definition_at);
    spelling::type_::lemma_type(items, at);
    if let Ok((after_ty, _)) = type_::type__at(items, at) {
        let _ = spelling::variable::lemma_variables(items, after_ty, Seq::empty());
    }
}

/// A function without a type that it returns.
/// It is read if and only if its parts are, one behind the other. The first part that is not there
/// is what is wrong.
pub proof fn law_function_definition_is_read_by_its_parts<'s>(
    items: Seq<TokenItem<'s>>,
    at: int,
    next: int,
    name: SeparatedList1<Identifier<'s>>,
    definition: FunctionDefinition<'s>,
)
    requires
        0 <= at <= items.len() <= usize::MAX,
    ensures
        ({
            let parsed = definition::function_definition_at(items, at);
            let tree = StatementType::FunctionDefinition(
                FunctionDefinitionStatement { return_type: None, name, definition },
            );
            let place1 = spelling::behind(items, Some(at), TerminalToken::Function);
            let place2 = read::names(name, items, place1);
            let place3 = read::definition(definition, items, place2);
            &&& parsed == Parsed::Ok((next, tree)) <==> place3 == Some(next)
            &&& read::needs(items, Some(at), TerminalToken::Function, parsed)
            &&& place1 is Some ==> read::passes_on(
                name::names_from(items, place1->0, Seq::empty()),
                parsed,
            )
            &&& place2 is Some ==> read::passes_on(
                function::definition_at(items, place2->0),
                parsed,
            )
        }),
{
    reveal(definition::function_definition_at);
    if spelling::is_at(items, at, TerminalToken::Function) {
        let _ = spelling::name::lemma_names(items, at + 1, Seq::empty());
        if let Ok((after_name, _)) = name::names_from(items, at + 1, Seq::empty()) {
            spelling::function::lemma_definition(items, after_name);
        }
    }
}

/// The name of a function that other scripts can use.
/// It is read if and only if its parts are, one behind the other. The first part that is not there
/// is what is wrong.
pub proof fn law_global_function_is_read_by_its_parts<'s>(
    items: Seq<TokenItem<'s>>,
    at: int,
    next: int,
    name: SeparatedList1<Identifier<'s>>,
)
    requires
        0 <= at <= items.len() <= usize::MAX,
    ensures
        ({
            let parsed = definition::global_function_at(items, at);
            let tree = StatementType::GlobalFunction(name);
            let place1 = spelling::behind(items, Some(at), TerminalToken::Global);
            let place2 = spelling::behind(items, place1, TerminalToken::Function);
            let place3 = read::names(name, items, place2);
            &&& parsed == Parsed::Ok((next, tree)) <==> place3 == Some(next)
            &&& read::needs(items, Some(at), TerminalToken::Global, parsed)
            &&& read::needs(items, place1, TerminalToken::Function, parsed)
            &&& place2 is Some ==> read::passes_on(
                name::names_from(items, place2->0, Seq::empty()),
                parsed,
            )
        }),
{
    reveal(definition::global_function_at);
    if spelling::is_at(items, at, TerminalToken::Global)
        && spelling::is_at(items, at + 1, TerminalToken::Function) {
        let _ = spelling::name::lemma_names(items, at + 2, Seq::empty());
    }
}

/// A definition that other scripts can use is `global` with a definition behind it. Nothing else
/// can stand behind `global`.
pub proof fn law_global_definition_is_read_by_its_parts<'s>(
    items: Seq<TokenItem<'s>>,
    at: int,
    next: int,
    definition: Statement<'s>,
)
    requires
        0 <= at <= items.len() <= usize::MAX,
    ensures
        definition::global_definition_at(items, at) == Parsed::Ok(
            (next, StatementType::Global(Box::new(definition))),
        ) <==> read::statement(
            definition,
            items,
            spelling::behind(items, Some(at), TerminalToken::Global),
        ) == Some(next) && (
            definition.ty is Const || definition.ty is EnumDefinition
                || definition.ty is StructDefinition || definition.ty is TypeDefinition
                || definition.ty is ClassDefinition || definition.ty is VarDefinition
                || definition.ty is FunctionDefinition
        ),
        read::needs(
            items,
            Some(at),
            TerminalToken::Global,
            definition::global_definition_at(items, at),
        ),
        spelling::is_at(items, at, TerminalToken::Global) ==> read::passes_on(
            statement::statement_at(items, at + 1),
            definition::global_definition_at(items, at),
        ),
        spelling::is_at(items, at, TerminalToken::Global)
            && statement::statement_at(items, at + 1) is Ok && definition::global_definition_at(
            items,
            at,
        ) is Err ==> read::fails_at(
            definition::global_definition_at(items, at),
            ParseErrorType::ExpectedDefinition,
            at + 1,
        ),
{
    reveal(definition::global_definition_at);
    if spelling::is_at(items, at, TerminalToken::Global) {
        spelling::statement::lemma_statement(items, at + 1);
    }
}

/// A statement that starts with a type is a definition if and only if a name, or `function` and a
/// name, stands behind the type on the line where the type ends. Otherwise it is an expression.
pub proof fn law_definitions_are_told_from_expressions<'s>(
    items: Seq<TokenItem<'s>>,
    at: int,
    next: int,
    after_ty: int,
    ty: Type<'s>,
    name: SeparatedList1<Identifier<'s>>,
    body: FunctionDefinition<'s>,
    variables: List<Variable<'s>>,
)
    requires
        0 <= at <= items.len() <= usize::MAX,
    ensures
        type_::type__at(items, at) == Parsed::Ok((after_ty, ty))
            && spelling::is_inside_line(items, after_ty)
            && spelling::is_at(items, after_ty, TerminalToken::Function)
                && grammar::has_name(items, after_ty + 1)
                ==> (definition::typed_definition_at(items, at)
            == Parsed::Ok(
            (
                next,
                StatementType::FunctionDefinition(
                    FunctionDefinitionStatement { return_type: Some(ty), name, definition: body },
                ),
            ),
        ) <==> read::definition(
            body,
            items,
            read::names(name, items, Some(after_ty + 1)),
        ) == Some(next)),
        type_::type__at(items, at) == Parsed::Ok((after_ty, ty))
            && spelling::is_inside_line(items, after_ty)
            && grammar::has_name(items, after_ty) ==> (definition::typed_definition_at(items, at)
            == Parsed::Ok(
            (next, StatementType::VarDefinition(VarDefinition { ty: Some(ty), variables })),
        ) <==> read::variables(variables, items, Some(after_ty)) == Some(next)),
        (type_::type__at(items, at) matches Ok((n, _)) ==> !spelling::is_inside_line(items, n)
            || !grammar::has_name(items, n) && !(
                spelling::is_at(items, n, TerminalToken::Function)
                    && grammar::has_name(items, n + 1)
            ))
            ==> definition::typed_definition_at(items, at)
                == definition::expression_statement_at(items, at),
        type_::type__at(items, at) == Parsed::Ok((after_ty, ty))
            && spelling::is_inside_line(items, after_ty)
            && grammar::has_name(items, after_ty) ==> read::passes_on(
            variable::variables_from(items, after_ty, Seq::empty()),
            definition::typed_definition_at(items, at),
        ),
        type_::type__at(items, at) == Parsed::Ok((after_ty, ty))
            && spelling::is_inside_line(items, after_ty)
            && spelling::is_at(items, after_ty, TerminalToken::Function)
                && grammar::has_name(items, after_ty + 1) ==> {
            let names = name::names_from(items, after_ty + 1, Seq::empty());
            &&& read::passes_on(names, definition::typed_definition_at(items, at))
            &&& names matches Ok((n, _)) ==> read::passes_on(
                function::definition_at(items, n),
                definition::typed_definition_at(items, at),
            )
        },
{
    reveal(definition::typed_definition_at);
    reveal(definition::expression_statement_at);
    spelling::type_::lemma_type(items, at);
    if let Ok((n, _)) = type_::type__at(items, at) {
        let _ = spelling::variable::lemma_variables(items, n, Seq::empty());
        if n < items.len() {
            let _ = spelling::name::lemma_names(items, n + 1, Seq::empty());
            if let Ok((m, _)) = name::names_from(items, n + 1, Seq::empty()) {
                spelling::function::lemma_definition(items, m);
            }
        }
    }
}

/// An expression on its own.
/// It is read if and only if its parts are, one behind the other. The first part that is not there
/// is what is wrong.
pub proof fn law_expression_statement_is_read_by_its_parts<'s>(
    items: Seq<TokenItem<'s>>,
    at: int,
    next: int,
    value: Expression<'s>,
)
    requires
        0 <= at <= items.len() <= usize::MAX,
    ensures
        ({
            let parsed = definition::expression_statement_at(items, at);
            let tree = StatementType::Expression(value);
            let place1 = read::expression(value, items, Some(at));
            &&& parsed == Parsed::Ok((next, tree)) <==> place1 == Some(next)
            &&& read::passes_on(expression::expression_at(items, at), parsed)
        }),
{
    reveal(definition::expression_statement_at);
    spelling::expression::lemma_expression(items, at);
}

} // verus!
