use crate::ast::{
    ClassMember, ClassMemberType, EnumEntry, Expression, ForInitializer, FunctionDefinition,
    FunctionParam, FunctionParams, FunctionRefParam, Identifier, SeparatedList1, Statement,
    StructField, SwitchCase, TableEntry, Type, TypedName, Variable,
};
use crate::lexer::TokenItem;
use crate::list::List;
use crate::parser::error::ParseErrorType;
use crate::parser::grammar::Parsed;
use crate::parser::{
    control, definition, expression, function, name, spelling, statement, type_, variable,
};
use crate::token::TerminalToken;
use vstd::prelude::*;

verus! {

/// Whether a rule that needs a terminal at a place fails where it does not stand there.
pub open spec fn needs<T>(
    items: Seq<TokenItem<'_>>,
    place: Option<int>,
    terminal: TerminalToken,
    parsed: Parsed<T>,
) -> bool {
    place matches Some(at) ==> !spelling::is_at(items, at, terminal) ==> fails_at(
        parsed,
        ParseErrorType::ExpectedTerminal(terminal),
        at,
    )
}

/// Whether a rule fails with an error about a place.
pub open spec fn fails_at<T>(parsed: Parsed<T>, ty: ParseErrorType, at: int) -> bool {
    parsed matches Err(error) && error.ty == ty && error.token_index == at
}

/// Whether a rule fails as one of its parts does.
pub open spec fn passes_on<T, U>(part: Parsed<U>, parsed: Parsed<T>) -> bool {
    part matches Err(error) ==> (parsed matches Err(found) && found == error)
}

/// Names with `::` between them.
/// The place behind it, if it is read as a given tree at a place.
pub open spec fn names<'s>(
    tree: SeparatedList1<Identifier<'s>>,
    items: Seq<TokenItem<'s>>,
    place: Option<int>,
) -> Option<int> {
    match place {
        Some(at) => match name::names_from(items, at, Seq::empty()) {
            Ok((next, found)) => if found == tree {
                Some(next)
            } else {
                None
            },
            Err(_) => None,
        },
        None => None,
    }
}

/// Type arguments up to `>`.
/// The place behind it, if it is read as a given tree at a place.
pub open spec fn types<'s>(
    tree: List<Type<'s>>,
    items: Seq<TokenItem<'s>>,
    place: Option<int>,
) -> Option<int> {
    match place {
        Some(at) => match type_::types_from(items, at, Seq::empty()) {
            Ok((next, found)) => if found == tree {
                Some(next)
            } else {
                None
            },
            Err(_) => None,
        },
        None => None,
    }
}

/// Fields up to `}`, each with a comma behind it or not.
/// The place behind it, if it is read as a given tree at a place.
pub open spec fn fields<'s>(
    tree: List<StructField<'s>>,
    items: Seq<TokenItem<'s>>,
    place: Option<int>,
) -> Option<int> {
    match place {
        Some(at) => match type_::fields_from(items, at, Seq::empty()) {
            Ok((next, found)) => if found == tree {
                Some(next)
            } else {
                None
            },
            Err(_) => None,
        },
        None => None,
    }
}

/// Parameters of a function type up to `)`.
/// The place behind it, if it is read as a given tree at a place.
pub open spec fn ref_params<'s>(
    tree: List<FunctionRefParam<'s>>,
    items: Seq<TokenItem<'s>>,
    place: Option<int>,
) -> Option<int> {
    match place {
        Some(at) => match type_::ref_params_from(items, at, Seq::empty()) {
            Ok((next, found)) => if found == tree {
                Some(next)
            } else {
                None
            },
            Err(_) => None,
        },
        None => None,
    }
}

/// A type without what can stand behind one.
/// The place behind it, if it is read as a given tree at a place.
pub open spec fn base_type<'s>(
    tree: Type<'s>,
    items: Seq<TokenItem<'s>>,
    place: Option<int>,
) -> Option<int> {
    match place {
        Some(at) => match type_::base_type_at(items, at) {
            Ok((next, found)) => if found == tree {
                Some(next)
            } else {
                None
            },
            Err(_) => None,
        },
        None => None,
    }
}

/// A type.
/// The place behind it, if it is read as a given tree at a place.
pub open spec fn type_<'s>(
    tree: Type<'s>,
    items: Seq<TokenItem<'s>>,
    place: Option<int>,
) -> Option<int> {
    match place {
        Some(at) => match type_::type__at(items, at) {
            Ok((next, found)) => if found == tree {
                Some(next)
            } else {
                None
            },
            Err(_) => None,
        },
        None => None,
    }
}

/// A field of a record type.
/// The place behind it, if it is read as a given tree at a place.
pub open spec fn field<'s>(
    tree: StructField<'s>,
    items: Seq<TokenItem<'s>>,
    place: Option<int>,
) -> Option<int> {
    match place {
        Some(at) => match type_::field_at(items, at) {
            Ok((next, found)) => if found == tree {
                Some(next)
            } else {
                None
            },
            Err(_) => None,
        },
        None => None,
    }
}

/// A parameter of a function type.
/// The place behind it, if it is read as a given tree at a place.
pub open spec fn ref_param<'s>(
    tree: FunctionRefParam<'s>,
    items: Seq<TokenItem<'s>>,
    place: Option<int>,
) -> Option<int> {
    match place {
        Some(at) => match type_::ref_param_at(items, at) {
            Ok((next, found)) => if found == tree {
                Some(next)
            } else {
                None
            },
            Err(_) => None,
        },
        None => None,
    }
}

/// A name behind its type, or a name alone.
/// The place behind it, if it is read as a given tree at a place.
pub open spec fn typed_name<'s>(
    tree: TypedName<'s>,
    items: Seq<TokenItem<'s>>,
    place: Option<int>,
) -> Option<int> {
    match place {
        Some(at) => match type_::typed_name_at(items, at) {
            Ok((next, found)) => if found == tree {
                Some(next)
            } else {
                None
            },
            Err(_) => None,
        },
        None => None,
    }
}

/// A first value behind `=`, or nothing.
/// The place behind it, if it is read as a given tree at a place.
pub open spec fn initializer<'s>(
    tree: Option<Expression<'s>>,
    items: Seq<TokenItem<'s>>,
    place: Option<int>,
) -> Option<int> {
    match place {
        Some(at) => match variable::initializer_at(items, at) {
            Ok((next, found)) => if found == tree {
                Some(next)
            } else {
                None
            },
            Err(_) => None,
        },
        None => None,
    }
}

/// A variable.
/// The place behind it, if it is read as a given tree at a place.
pub open spec fn variable<'s>(
    tree: Variable<'s>,
    items: Seq<TokenItem<'s>>,
    place: Option<int>,
) -> Option<int> {
    match place {
        Some(at) => match variable::variable_at(items, at) {
            Ok((next, found)) => if found == tree {
                Some(next)
            } else {
                None
            },
            Err(_) => None,
        },
        None => None,
    }
}

/// Variables with a comma between them.
/// The place behind it, if it is read as a given tree at a place.
pub open spec fn variables<'s>(
    tree: List<Variable<'s>>,
    items: Seq<TokenItem<'s>>,
    place: Option<int>,
) -> Option<int> {
    match place {
        Some(at) => match variable::variables_from(items, at, Seq::empty()) {
            Ok((next, found)) => if found == tree {
                Some(next)
            } else {
                None
            },
            Err(_) => None,
        },
        None => None,
    }
}

/// A parameter of a function.
/// The place behind it, if it is read as a given tree at a place.
pub open spec fn param<'s>(
    tree: FunctionParam<'s>,
    items: Seq<TokenItem<'s>>,
    place: Option<int>,
) -> Option<int> {
    match place {
        Some(at) => match function::param_at(items, at) {
            Ok((next, found)) => if found == tree {
                Some(next)
            } else {
                None
            },
            Err(_) => None,
        },
        None => None,
    }
}

/// Parameters up to `)`.
/// The place behind it, if it is read as a given tree at a place.
pub open spec fn param_list<'s>(
    tree: FunctionParams<'s>,
    items: Seq<TokenItem<'s>>,
    place: Option<int>,
) -> Option<int> {
    match place {
        Some(at) => match function::param_list_from(items, at, Seq::empty()) {
            Ok((next, found)) => if found == tree {
                Some(next)
            } else {
                None
            },
            Err(_) => None,
        },
        None => None,
    }
}

/// The parameters of a function with the brackets round them.
/// The place behind it, if it is read as a given tree at a place.
pub open spec fn params<'s>(
    tree: FunctionParams<'s>,
    items: Seq<TokenItem<'s>>,
    place: Option<int>,
) -> Option<int> {
    match place {
        Some(at) => match function::params_at(items, at) {
            Ok((next, found)) => if found == tree {
                Some(next)
            } else {
                None
            },
            Err(_) => None,
        },
        None => None,
    }
}

/// The parameters and the body of a function.
/// The place behind it, if it is read as a given tree at a place.
pub open spec fn definition<'s>(
    tree: FunctionDefinition<'s>,
    items: Seq<TokenItem<'s>>,
    place: Option<int>,
) -> Option<int> {
    match place {
        Some(at) => match function::definition_at(items, at) {
            Ok((next, found)) => if found == tree {
                Some(next)
            } else {
                None
            },
            Err(_) => None,
        },
        None => None,
    }
}

/// Elements of an array up to `]`, each with a comma behind it or not.
/// The place behind it, if it is read as a given tree at a place.
pub open spec fn elements<'s>(
    tree: List<Expression<'s>>,
    items: Seq<TokenItem<'s>>,
    place: Option<int>,
) -> Option<int> {
    match place {
        Some(at) => match expression::elements_from(items, at, Seq::empty()) {
            Ok((next, found)) => if found == tree {
                Some(next)
            } else {
                None
            },
            Err(_) => None,
        },
        None => None,
    }
}

/// Arguments of a call up to `)`.
/// The place behind it, if it is read as a given tree at a place.
pub open spec fn arguments<'s>(
    tree: List<Expression<'s>>,
    items: Seq<TokenItem<'s>>,
    place: Option<int>,
) -> Option<int> {
    match place {
        Some(at) => match expression::arguments_from(items, at, Seq::empty()) {
            Ok((next, found)) => if found == tree {
                Some(next)
            } else {
                None
            },
            Err(_) => None,
        },
        None => None,
    }
}

/// Entries of a table up to `}`, each with a comma behind it or not.
/// The place behind it, if it is read as a given tree at a place.
pub open spec fn entries<'s>(
    tree: List<TableEntry<'s>>,
    items: Seq<TokenItem<'s>>,
    place: Option<int>,
) -> Option<int> {
    match place {
        Some(at) => match expression::entries_from(items, at, Seq::empty()) {
            Ok((next, found)) => if found == tree {
                Some(next)
            } else {
                None
            },
            Err(_) => None,
        },
        None => None,
    }
}

/// An entry of a table.
/// The place behind it, if it is read as a given tree at a place.
pub open spec fn entry<'s>(
    tree: TableEntry<'s>,
    items: Seq<TokenItem<'s>>,
    place: Option<int>,
) -> Option<int> {
    match place {
        Some(at) => match expression::entry_at(items, at) {
            Ok((next, found)) => if found == tree {
                Some(next)
            } else {
                None
            },
            Err(_) => None,
        },
        None => None,
    }
}

/// An expression without operators.
/// The place behind it, if it is read as a given tree at a place.
pub open spec fn primary<'s>(
    tree: Expression<'s>,
    items: Seq<TokenItem<'s>>,
    place: Option<int>,
) -> Option<int> {
    match place {
        Some(at) => match expression::primary_at(items, at) {
            Ok((next, found)) => if found == tree {
                Some(next)
            } else {
                None
            },
            Err(_) => None,
        },
        None => None,
    }
}

/// An expression with what stands behind it.
/// The place behind it, if it is read as a given tree at a place.
pub open spec fn postfix<'s>(
    tree: Expression<'s>,
    items: Seq<TokenItem<'s>>,
    place: Option<int>,
) -> Option<int> {
    match place {
        Some(at) => match expression::postfix_at(items, at) {
            Ok((next, found)) => if found == tree {
                Some(next)
            } else {
                None
            },
            Err(_) => None,
        },
        None => None,
    }
}

/// An expression with the operators before it.
/// The place behind it, if it is read as a given tree at a place.
pub open spec fn unary<'s>(
    tree: Expression<'s>,
    items: Seq<TokenItem<'s>>,
    place: Option<int>,
) -> Option<int> {
    match place {
        Some(at) => match expression::unary_at(items, at) {
            Ok((next, found)) => if found == tree {
                Some(next)
            } else {
                None
            },
            Err(_) => None,
        },
        None => None,
    }
}

/// Operands with operators between them that add or bind more tightly.
/// The place behind it, if it is read as a given tree at a place.
pub open spec fn sum<'s>(
    tree: Expression<'s>,
    items: Seq<TokenItem<'s>>,
    place: Option<int>,
) -> Option<int> {
    match place {
        Some(at) => match expression::sum_at(items, at) {
            Ok((next, found)) => if found == tree {
                Some(next)
            } else {
                None
            },
            Err(_) => None,
        },
        None => None,
    }
}

/// An expression.
/// The place behind it, if it is read as a given tree at a place.
pub open spec fn expression<'s>(
    tree: Expression<'s>,
    items: Seq<TokenItem<'s>>,
    place: Option<int>,
) -> Option<int> {
    match place {
        Some(at) => match expression::expression_at(items, at) {
            Ok((next, found)) => if found == tree {
                Some(next)
            } else {
                None
            },
            Err(_) => None,
        },
        None => None,
    }
}

/// The other statement of a choice, or nothing.
/// The place behind it, if it is read as a given tree at a place.
pub open spec fn else_body<'s>(
    tree: Option<Box<Statement<'s>>>,
    items: Seq<TokenItem<'s>>,
    place: Option<int>,
) -> Option<int> {
    match place {
        Some(at) => match control::else_body_at(items, at) {
            Ok((next, found)) => if found == tree {
                Some(next)
            } else {
                None
            },
            Err(_) => None,
        },
        None => None,
    }
}

/// The first step of a loop, or nothing.
/// The place behind it, if it is read as a given tree at a place.
pub open spec fn for_initializer<'s>(
    tree: Option<ForInitializer<'s>>,
    items: Seq<TokenItem<'s>>,
    place: Option<int>,
) -> Option<int> {
    match place {
        Some(at) => match control::for_initializer_at(items, at) {
            Ok((next, found)) => if found == tree {
                Some(next)
            } else {
                None
            },
            Err(_) => None,
        },
        None => None,
    }
}

/// The condition of a loop, or nothing.
/// The place behind it, if it is read as a given tree at a place.
pub open spec fn for_condition<'s>(
    tree: Option<Expression<'s>>,
    items: Seq<TokenItem<'s>>,
    place: Option<int>,
) -> Option<int> {
    match place {
        Some(at) => match control::for_condition_at(items, at) {
            Ok((next, found)) => if found == tree {
                Some(next)
            } else {
                None
            },
            Err(_) => None,
        },
        None => None,
    }
}

/// The step of a loop, or nothing.
/// The place behind it, if it is read as a given tree at a place.
pub open spec fn for_increment<'s>(
    tree: Option<Expression<'s>>,
    items: Seq<TokenItem<'s>>,
    place: Option<int>,
) -> Option<int> {
    match place {
        Some(at) => match control::for_increment_at(items, at) {
            Ok((next, found)) => if found == tree {
                Some(next)
            } else {
                None
            },
            Err(_) => None,
        },
        None => None,
    }
}

/// The variables of a loop over items: the item alone, or the index and the item.
/// The place behind it, if it is read as a given tree at a place.
pub open spec fn foreach_names<'s>(
    tree: (Option<TypedName<'s>>, TypedName<'s>),
    items: Seq<TokenItem<'s>>,
    place: Option<int>,
) -> Option<int> {
    match place {
        Some(at) => match control::foreach_names_at(items, at) {
            Ok((next, found)) => if found == tree {
                Some(next)
            } else {
                None
            },
            Err(_) => None,
        },
        None => None,
    }
}

/// Cases up to `}`.
/// The place behind it, if it is read as a given tree at a place.
pub open spec fn cases<'s>(
    tree: List<SwitchCase<'s>>,
    items: Seq<TokenItem<'s>>,
    place: Option<int>,
) -> Option<int> {
    match place {
        Some(at) => match control::cases_from(items, at, Seq::empty()) {
            Ok((next, found)) => if found == tree {
                Some(next)
            } else {
                None
            },
            Err(_) => None,
        },
        None => None,
    }
}

/// A case.
/// The place behind it, if it is read as a given tree at a place.
pub open spec fn case<'s>(
    tree: SwitchCase<'s>,
    items: Seq<TokenItem<'s>>,
    place: Option<int>,
) -> Option<int> {
    match place {
        Some(at) => match control::case_at(items, at) {
            Ok((next, found)) => if found == tree {
                Some(next)
            } else {
                None
            },
            Err(_) => None,
        },
        None => None,
    }
}

/// Statements up to the next case or `}`.
/// The place behind it, if it is read as a given tree at a place.
pub open spec fn case_body<'s>(
    tree: List<Statement<'s>>,
    items: Seq<TokenItem<'s>>,
    place: Option<int>,
) -> Option<int> {
    match place {
        Some(at) => match control::case_body_from(items, at, Seq::empty()) {
            Ok((next, found)) => if found == tree {
                Some(next)
            } else {
                None
            },
            Err(_) => None,
        },
        None => None,
    }
}

/// An expression on the same line, or nothing.
/// The place behind it, if it is read as a given tree at a place.
pub open spec fn value<'s>(
    tree: Option<Expression<'s>>,
    items: Seq<TokenItem<'s>>,
    place: Option<int>,
) -> Option<int> {
    match place {
        Some(at) => match control::value_at(items, at) {
            Ok((next, found)) => if found == tree {
                Some(next)
            } else {
                None
            },
            Err(_) => None,
        },
        None => None,
    }
}

/// Constants up to `}`, each with a comma behind it or not.
/// The place behind it, if it is read as a given tree at a place.
pub open spec fn enum_entries<'s>(
    tree: List<EnumEntry<'s>>,
    items: Seq<TokenItem<'s>>,
    place: Option<int>,
) -> Option<int> {
    match place {
        Some(at) => match definition::enum_entries_from(items, at, Seq::empty()) {
            Ok((next, found)) => if found == tree {
                Some(next)
            } else {
                None
            },
            Err(_) => None,
        },
        None => None,
    }
}

/// A constant of a list.
/// The place behind it, if it is read as a given tree at a place.
pub open spec fn enum_entry<'s>(
    tree: EnumEntry<'s>,
    items: Seq<TokenItem<'s>>,
    place: Option<int>,
) -> Option<int> {
    match place {
        Some(at) => match definition::enum_entry_at(items, at) {
            Ok((next, found)) => if found == tree {
                Some(next)
            } else {
                None
            },
            Err(_) => None,
        },
        None => None,
    }
}

/// The class that a class extends, or nothing.
/// The place behind it, if it is read as a given tree at a place.
pub open spec fn base_class<'s>(
    tree: Option<Expression<'s>>,
    items: Seq<TokenItem<'s>>,
    place: Option<int>,
) -> Option<int> {
    match place {
        Some(at) => match definition::base_class_at(items, at) {
            Ok((next, found)) => if found == tree {
                Some(next)
            } else {
                None
            },
            Err(_) => None,
        },
        None => None,
    }
}

/// Members up to `}`, each with a semicolon behind it or not.
/// The place behind it, if it is read as a given tree at a place.
pub open spec fn members<'s>(
    tree: List<ClassMember<'s>>,
    items: Seq<TokenItem<'s>>,
    place: Option<int>,
) -> Option<int> {
    match place {
        Some(at) => match definition::members_from(items, at, Seq::empty()) {
            Ok((next, found)) => if found == tree {
                Some(next)
            } else {
                None
            },
            Err(_) => None,
        },
        None => None,
    }
}

/// A member of a class.
/// The place behind it, if it is read as a given tree at a place.
pub open spec fn member<'s>(
    tree: ClassMember<'s>,
    items: Seq<TokenItem<'s>>,
    place: Option<int>,
) -> Option<int> {
    match place {
        Some(at) => match definition::member_at(items, at) {
            Ok((next, found)) => if found == tree {
                Some(next)
            } else {
                None
            },
            Err(_) => None,
        },
        None => None,
    }
}

/// What a member of a class is.
/// The place behind it, if it is read as a given tree at a place.
pub open spec fn member_type<'s>(
    tree: ClassMemberType<'s>,
    items: Seq<TokenItem<'s>>,
    place: Option<int>,
) -> Option<int> {
    match place {
        Some(at) => match definition::member_type_at(items, at) {
            Ok((next, found)) => if found == tree {
                Some(next)
            } else {
                None
            },
            Err(_) => None,
        },
        None => None,
    }
}

/// Statements up to `}`.
/// The place behind it, if it is read as a given tree at a place.
pub open spec fn statements<'s>(
    tree: List<Statement<'s>>,
    items: Seq<TokenItem<'s>>,
    place: Option<int>,
) -> Option<int> {
    match place {
        Some(at) => match statement::statements_from(items, at, Seq::empty()) {
            Ok((next, found)) => if found == tree {
                Some(next)
            } else {
                None
            },
            Err(_) => None,
        },
        None => None,
    }
}

/// A statement, with the semicolon that ends it if there is one.
/// The place behind it, if it is read as a given tree at a place.
pub open spec fn statement<'s>(
    tree: Statement<'s>,
    items: Seq<TokenItem<'s>>,
    place: Option<int>,
) -> Option<int> {
    match place {
        Some(at) => match statement::statement_at(items, at) {
            Ok((next, found)) => if found == tree {
                Some(next)
            } else {
                None
            },
            Err(_) => None,
        },
        None => None,
    }
}

} // verus!
