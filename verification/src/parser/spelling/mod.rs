pub(crate) mod control;
pub(crate) mod definition;
pub(crate) mod entry;
pub(crate) mod expression;
pub(crate) mod function;
pub mod laws;
pub(crate) mod name;
pub(crate) mod operand;
pub(crate) mod operator;
pub(crate) mod statement;
pub(crate) mod type_;
pub(crate) mod variable;

use crate::ast::{
    BinaryOperator, ClassMember, ClassMemberType, EnumEntry, Expression, ForInitializer,
    FunctionDefinition, FunctionParam, FunctionParams, FunctionRefParam, Identifier,
    PostfixOperator, PrefixOperator, SeparatedList1, Statement, StatementType, StructField,
    SwitchCase, TableEntry, Type, VarDefinition, Variable,
};
use crate::lexer::TokenItem;
use crate::list::List;
use crate::parser::error::{ParseError, ParseErrorType};
use crate::token::{TerminalToken, TokenType};
use vstd::prelude::*;

verus! {

/// Whether a terminal is the token at a place.
pub open spec fn is_at(items: Seq<TokenItem<'_>>, at: int, terminal: TerminalToken) -> bool {
    0 <= at < items.len() && items[at].token.ty == TokenType::Terminal(terminal)
}

/// The place behind a terminal that stands at a place.
pub open spec fn behind(
    items: Seq<TokenItem<'_>>,
    place: Option<int>,
    terminal: TerminalToken,
) -> Option<int> {
    match place {
        Some(at) => if is_at(items, at, terminal) {
            Some(at + 1)
        } else {
            None
        },
        None => None,
    }
}

/// A place, or the place behind a terminal if that one stands there.
pub open spec fn past(
    items: Seq<TokenItem<'_>>,
    place: Option<int>,
    terminal: TerminalToken,
) -> Option<int> {
    match place {
        Some(at) => if is_at(items, at, terminal) {
            Some(at + 1)
        } else {
            Some(at)
        },
        None => None,
    }
}

/// A place where a terminal does not stand.
pub open spec fn without(
    items: Seq<TokenItem<'_>>,
    place: Option<int>,
    terminal: TerminalToken,
) -> Option<int> {
    match place {
        Some(at) => if is_at(items, at, terminal) {
            None
        } else {
            Some(at)
        },
        None => None,
    }
}

/// Whether no line ends between the tokens around a place.
pub open spec fn is_inside_line(items: Seq<TokenItem<'_>>, at: int) -> bool {
    0 < at <= items.len() && items[at - 1].token.new_line is None
}

/// A place before which no line ends.
pub open spec fn inside_line(items: Seq<TokenItem<'_>>, place: Option<int>) -> Option<int> {
    match place {
        Some(at) => if is_inside_line(items, at) {
            Some(at)
        } else {
            None
        },
        None => None,
    }
}

/// The place behind a name that stands at a place.
pub open spec fn end_of_name<'s>(
    name: Identifier<'s>,
    items: Seq<TokenItem<'s>>,
    place: Option<int>,
) -> Option<int> {
    match place {
        Some(at) => if 0 <= at < items.len() && items[at].token.ty == TokenType::Identifier(
            name.value,
        ) && items[at].token == *name.token {
            Some(at + 1)
        } else {
            None
        },
        None => None,
    }
}

/// The place behind names with `::` behind each of them.
pub open spec fn end_of_outer_names<'s>(
    names: List<Identifier<'s>>,
    items: Seq<TokenItem<'s>>,
    place: Option<int>,
) -> Option<int>
    decreases names,
{
    match names {
        List::Empty => place,
        List::Item(first, rest) => end_of_outer_names(
            *rest,
            items,
            behind(items, end_of_name(*first, items, place), TerminalToken::Namespace),
        ),
    }
}

/// The place behind names with `::` between them.
pub open spec fn end_of_names<'s>(
    names: SeparatedList1<Identifier<'s>>,
    items: Seq<TokenItem<'s>>,
    place: Option<int>,
) -> Option<int> {
    without(
        items,
        end_of_name(*names.last_item, items, end_of_outer_names(names.items, items, place)),
        TerminalToken::Namespace,
    )
}

/// The token that a prefix operator is written as.
pub open spec fn prefix_token(operator: PrefixOperator) -> TerminalToken {
    match operator {
        PrefixOperator::Negate => TerminalToken::Subtract,
        PrefixOperator::LogicalNot => TerminalToken::LogicalNot,
        PrefixOperator::BitwiseNot => TerminalToken::BitwiseNot,
        PrefixOperator::Typeof => TerminalToken::Typeof,
        PrefixOperator::Clone => TerminalToken::Clone,
        PrefixOperator::Delete => TerminalToken::Delete,
        PrefixOperator::Resume => TerminalToken::Resume,
        PrefixOperator::Increment => TerminalToken::Increment,
        PrefixOperator::Decrement => TerminalToken::Decrement,
    }
}

/// The token that a postfix operator is written as.
pub open spec fn postfix_token(operator: PostfixOperator) -> TerminalToken {
    match operator {
        PostfixOperator::Increment => TerminalToken::Increment,
        PostfixOperator::Decrement => TerminalToken::Decrement,
    }
}

/// The tokens that a binary operator is written as, with nothing between them.
pub open spec fn binary_tokens(operator: BinaryOperator) -> Seq<TerminalToken> {
    match operator {
        BinaryOperator::Assign => seq![TerminalToken::Assign],
        BinaryOperator::NewSlot => seq![TerminalToken::NewSlot],
        BinaryOperator::AddAssign => seq![TerminalToken::AddAssign],
        BinaryOperator::SubtractAssign => seq![TerminalToken::SubtractAssign],
        BinaryOperator::MultiplyAssign => seq![TerminalToken::MultiplyAssign],
        BinaryOperator::DivideAssign => seq![TerminalToken::DivideAssign],
        BinaryOperator::ModuloAssign => seq![TerminalToken::ModuloAssign],
        BinaryOperator::LogicalOr => seq![TerminalToken::LogicalOr],
        BinaryOperator::LogicalAnd => seq![TerminalToken::LogicalAnd],
        BinaryOperator::BitwiseOr => seq![TerminalToken::BitwiseOr],
        BinaryOperator::BitwiseXor => seq![TerminalToken::BitwiseXor],
        BinaryOperator::BitwiseAnd => seq![TerminalToken::BitwiseAnd],
        BinaryOperator::Equal => seq![TerminalToken::Equal],
        BinaryOperator::NotEqual => seq![TerminalToken::NotEqual],
        BinaryOperator::ThreeWay => seq![TerminalToken::ThreeWay],
        BinaryOperator::Less => seq![TerminalToken::Less],
        BinaryOperator::LessEqual => seq![TerminalToken::LessEqual],
        BinaryOperator::Greater => seq![TerminalToken::Greater],
        BinaryOperator::GreaterEqual => seq![TerminalToken::GreaterEqual],
        BinaryOperator::In => seq![TerminalToken::In],
        BinaryOperator::Instanceof => seq![TerminalToken::Instanceof],
        BinaryOperator::ShiftLeft => seq![TerminalToken::ShiftLeft],
        BinaryOperator::ShiftRight => seq![TerminalToken::Greater, TerminalToken::Greater],
        BinaryOperator::UnsignedShiftRight => {
            seq![TerminalToken::Greater, TerminalToken::Greater, TerminalToken::Greater]
        },
        BinaryOperator::Add => seq![TerminalToken::Add],
        BinaryOperator::Subtract => seq![TerminalToken::Subtract],
        BinaryOperator::Multiply => seq![TerminalToken::Multiply],
        BinaryOperator::Divide => seq![TerminalToken::Divide],
        BinaryOperator::Modulo => seq![TerminalToken::Modulo],
    }
}

/// Whether a run of terminals stands at a place, with no bytes between them.
pub open spec fn stand_at(
    items: Seq<TokenItem<'_>>,
    at: int,
    terminals: Seq<TerminalToken>,
) -> bool {
    forall|i: int|
        0 <= i < terminals.len() ==> is_at(items, at + i, #[trigger] terminals[i]) && (i > 0
            ==> items[at + i - 1].token.range.end == items[at + i].token.range.start)
}

/// The place behind a binary operator that stands at a place, and is not part of a longer one.
pub open spec fn end_of_operator(
    operator: BinaryOperator,
    items: Seq<TokenItem<'_>>,
    place: Option<int>,
) -> Option<int> {
    match place {
        Some(at) => {
            let tokens = binary_tokens(operator);
            if stand_at(items, at, tokens) && !exists|longer: BinaryOperator|
                #![trigger binary_tokens(longer)]
                binary_tokens(longer).len() > tokens.len() && stand_at(
                    items,
                    at,
                    binary_tokens(longer),
                ) {
                Some(at + tokens.len())
            } else {
                None
            }
        },
        None => None,
    }
}

/// How tightly a binary operator holds its operands together.
pub open spec fn precedence(operator: BinaryOperator) -> int {
    match operator {
        BinaryOperator::Multiply | BinaryOperator::Divide | BinaryOperator::Modulo => 11,
        BinaryOperator::Add | BinaryOperator::Subtract => 10,
        BinaryOperator::ShiftLeft
        | BinaryOperator::ShiftRight
        | BinaryOperator::UnsignedShiftRight => 9,
        BinaryOperator::Less
        | BinaryOperator::LessEqual
        | BinaryOperator::Greater
        | BinaryOperator::GreaterEqual
        | BinaryOperator::In
        | BinaryOperator::Instanceof => 8,
        BinaryOperator::Equal | BinaryOperator::NotEqual | BinaryOperator::ThreeWay => 7,
        BinaryOperator::BitwiseAnd => 6,
        BinaryOperator::BitwiseXor => 5,
        BinaryOperator::BitwiseOr => 4,
        BinaryOperator::LogicalAnd => 3,
        BinaryOperator::LogicalOr => 2,
        _ => 0,
    }
}

/// How tightly the outermost part of an expression holds it together.
pub open spec fn tightness(tree: Expression<'_>) -> int {
    match tree {
        Expression::Binary(operator, _, _) => precedence(operator),
        Expression::Ternary(_, _, _) => 1,
        Expression::Prefix(_, _) => 12,
        Expression::Postfix(_, _) => 13,
        Expression::Index(_, _) => 13,
        Expression::Property(_, _) => 13,
        Expression::Call(_, _) => 13,
        _ => 14,
    }
}

/// A place, if an expression that stands there is held together tightly enough for where it stands.
pub open spec fn held(tree: Expression<'_>, tight: int, place: Option<int>) -> Option<int> {
    if tightness(tree) >= tight {
        place
    } else {
        None
    }
}

/// The place behind the tokens that an expression is written as.
#[verifier::opaque]
pub open spec fn end_of_expression<'s>(
    tree: Expression<'s>,
    items: Seq<TokenItem<'s>>,
    place: Option<int>,
) -> Option<int>
    decreases tree,
{
    match tree {
        Expression::Literal(token) => match place {
            Some(at) => if 0 <= at < items.len() && items[at].token == *token
                && items[at].token.ty is Literal {
                Some(at + 1)
            } else {
                None
            },
            None => None,
        },
        Expression::True => behind(items, place, TerminalToken::True),
        Expression::False => behind(items, place, TerminalToken::False),
        Expression::Null => behind(items, place, TerminalToken::Null),
        Expression::This => behind(items, place, TerminalToken::This),
        Expression::Base => behind(items, place, TerminalToken::Base),
        Expression::Var(name) => end_of_name(name, items, place),
        Expression::RootVar(name) => end_of_name(
            name,
            items,
            behind(items, place, TerminalToken::Namespace),
        ),
        Expression::Parens(value) => {
            let open = behind(items, place, TerminalToken::OpenBracket);
            behind(items, end_of_expression(*value, items, open), TerminalToken::CloseBracket)
        },
        Expression::Index(base, index) => {
            let base_end = held(*base, 13, end_of_expression(*base, items, place));
            let open = behind(items, inside_line(items, base_end), TerminalToken::OpenSquare);
            behind(items, end_of_expression(*index, items, open), TerminalToken::CloseSquare)
        },
        Expression::Property(base, name) => {
            let base_end = held(*base, 13, end_of_expression(*base, items, place));
            end_of_name(name, items, behind(items, base_end, TerminalToken::Dot))
        },
        Expression::Call(base, arguments) => {
            let base_end = held(*base, 13, end_of_expression(*base, items, place));
            let open = behind(items, inside_line(items, base_end), TerminalToken::OpenBracket);
            behind(items, end_of_arguments(arguments, items, open), TerminalToken::CloseBracket)
        },
        Expression::Prefix(operator, value) => {
            let open = behind(items, place, prefix_token(operator));
            held(*value, 12, end_of_expression(*value, items, open))
        },
        Expression::Postfix(operator, value) => {
            let base_end = held(*value, 13, end_of_expression(*value, items, place));
            behind(items, inside_line(items, base_end), postfix_token(operator))
        },
        Expression::Binary(operator, left, right) => {
            let tight = precedence(operator);
            let left_tight = if tight == 0 {
                1
            } else {
                tight
            };
            let right_tight = if tight == 0 {
                0
            } else {
                tight + 1
            };
            let left_end = held(*left, left_tight, end_of_expression(*left, items, place));
            let start = end_of_operator(operator, items, left_end);
            held(*right, right_tight, end_of_expression(*right, items, start))
        },
        Expression::Ternary(condition, yes, no) => {
            let start = held(*condition, 2, end_of_expression(*condition, items, place));
            let yes_start = behind(items, start, TerminalToken::Question);
            let yes_end = end_of_expression(*yes, items, yes_start);
            end_of_expression(*no, items, behind(items, yes_end, TerminalToken::Colon))
        },
        Expression::Array(elements) => {
            let open = behind(items, place, TerminalToken::OpenSquare);
            behind(items, end_of_elements(elements, items, open), TerminalToken::CloseSquare)
        },
        Expression::Table(entries) => {
            let open = behind(items, place, TerminalToken::OpenBrace);
            behind(items, end_of_entries(entries, items, open), TerminalToken::CloseBrace)
        },
        Expression::Vector(x, y, z) => {
            let open = behind(items, place, TerminalToken::Less);
            let x_end = held(*x, 10, end_of_expression(*x, items, open));
            let y_start = behind(items, x_end, TerminalToken::Comma);
            let y_end = held(*y, 10, end_of_expression(*y, items, y_start));
            let z_start = behind(items, y_end, TerminalToken::Comma);
            let z_end = held(*z, 10, end_of_expression(*z, items, z_start));
            behind(items, z_end, TerminalToken::Greater)
        },
        Expression::Function(ty, function) => {
            let start = match ty {
                Some(name) => end_of_name(name, items, place),
                None => place,
            };
            end_of_function(function, items, behind(items, start, TerminalToken::Function))
        },
        Expression::Lambda(params, value) => {
            let start = behind(items, place, TerminalToken::At);
            end_of_expression(*value, items, end_of_params(params, items, start))
        },
        Expression::Expect(ty, value) => {
            let start = behind(items, place, TerminalToken::Expect);
            let open = behind(items, end_of_type(ty, items, start), TerminalToken::OpenBracket);
            behind(items, end_of_expression(*value, items, open), TerminalToken::CloseBracket)
        },
    }
}

/// The place behind arguments with a comma between them, and perhaps one behind the last.
#[verifier::opaque]
pub open spec fn end_of_arguments<'s>(
    tree: List<Expression<'s>>,
    items: Seq<TokenItem<'s>>,
    place: Option<int>,
) -> Option<int>
    decreases tree,
{
    match tree {
        List::Empty => place,
        List::Item(first, rest) => {
            let end = end_of_expression(*first, items, place);
            if *rest is Empty {
                past(items, end, TerminalToken::Comma)
            } else {
                end_of_arguments(*rest, items, behind(items, end, TerminalToken::Comma))
            }
        },
    }
}

/// The place behind elements of an array, each with a comma behind it or not.
#[verifier::opaque]
pub open spec fn end_of_elements<'s>(
    tree: List<Expression<'s>>,
    items: Seq<TokenItem<'s>>,
    place: Option<int>,
) -> Option<int>
    decreases tree,
{
    match tree {
        List::Empty => place,
        List::Item(first, rest) => end_of_elements(
            *rest,
            items,
            past(items, end_of_expression(*first, items, place), TerminalToken::Comma),
        ),
    }
}

/// The place behind entries of a table, each with a comma behind it or not.
#[verifier::opaque]
pub open spec fn end_of_entries<'s>(
    tree: List<TableEntry<'s>>,
    items: Seq<TokenItem<'s>>,
    place: Option<int>,
) -> Option<int>
    decreases tree,
{
    match tree {
        List::Empty => place,
        List::Item(first, rest) => end_of_entries(
            *rest,
            items,
            past(items, end_of_entry(*first, items, place), TerminalToken::Comma),
        ),
    }
}

/// The place behind the tokens that an entry of a table is written as.
#[verifier::opaque]
pub open spec fn end_of_entry<'s>(
    tree: TableEntry<'s>,
    items: Seq<TokenItem<'s>>,
    place: Option<int>,
) -> Option<int>
    decreases tree,
{
    match tree {
        TableEntry::Property(name, value) => {
            let start = behind(items, end_of_name(name, items, place), TerminalToken::Assign);
            end_of_expression(value, items, start)
        },
        TableEntry::Index(key, value) => {
            let open = behind(items, place, TerminalToken::OpenSquare);
            let key_end = end_of_expression(key, items, open);
            let close = behind(items, key_end, TerminalToken::CloseSquare);
            end_of_expression(value, items, behind(items, close, TerminalToken::Assign))
        },
        TableEntry::Function(name, function) => {
            let start = behind(items, place, TerminalToken::Function);
            end_of_function(function, items, end_of_name(name, items, start))
        },
    }
}

/// The place behind a value with `=` before it, or a place where no `=` stands.
#[verifier::opaque]
pub open spec fn end_of_initializer<'s>(
    tree: Option<Expression<'s>>,
    items: Seq<TokenItem<'s>>,
    place: Option<int>,
) -> Option<int>
    decreases tree,
{
    match tree {
        Some(value) => end_of_expression(value, items, behind(items, place, TerminalToken::Assign)),
        None => without(items, place, TerminalToken::Assign),
    }
}

/// The place behind the tokens that a type is written as.
#[verifier::opaque]
pub open spec fn end_of_type<'s>(
    tree: Type<'s>,
    items: Seq<TokenItem<'s>>,
    place: Option<int>,
) -> Option<int>
    decreases tree,
{
    match tree {
        Type::Plain(name) => end_of_name(name, items, place),
        Type::Generic(name, arguments) => {
            let open = behind(items, end_of_name(name, items, place), TerminalToken::Less);
            behind(items, end_of_types(arguments, items, open), TerminalToken::Greater)
        },
        Type::Array(element, size) => {
            let element_end = inside_line(items, end_of_type(*element, items, place));
            let open = behind(items, element_end, TerminalToken::OpenSquare);
            let size_end = match size {
                Some(size) => end_of_expression(*size, items, open),
                None => open,
            };
            behind(items, size_end, TerminalToken::CloseSquare)
        },
        Type::Reference(target) => behind(
            items,
            end_of_type(*target, items, place),
            TerminalToken::BitwiseAnd,
        ),
        Type::Nullable(value) => behind(
            items,
            end_of_type(*value, items, place),
            TerminalToken::OrNull,
        ),
        Type::FunctionRef(returned, params) => {
            let start = match returned {
                Some(returned) => end_of_type(*returned, items, place),
                None => place,
            };
            let word = behind(items, start, TerminalToken::FunctionRef);
            let open = behind(items, word, TerminalToken::OpenBracket);
            behind(items, end_of_ref_params(params, items, open), TerminalToken::CloseBracket)
        },
        Type::Struct(fields) => {
            let word = behind(items, place, TerminalToken::Struct);
            let open = behind(items, word, TerminalToken::OpenBrace);
            behind(items, end_of_fields(fields, items, open), TerminalToken::CloseBrace)
        },
    }
}

/// The place behind type arguments with a comma between them, and perhaps one behind the last.
#[verifier::opaque]
pub open spec fn end_of_types<'s>(
    tree: List<Type<'s>>,
    items: Seq<TokenItem<'s>>,
    place: Option<int>,
) -> Option<int>
    decreases tree,
{
    match tree {
        List::Empty => place,
        List::Item(first, rest) => {
            let end = end_of_type(*first, items, place);
            if *rest is Empty {
                past(items, end, TerminalToken::Comma)
            } else {
                end_of_types(*rest, items, behind(items, end, TerminalToken::Comma))
            }
        },
    }
}

/// The place behind the tokens that a parameter of a function type is written as.
#[verifier::opaque]
pub open spec fn end_of_ref_param<'s>(
    tree: FunctionRefParam<'s>,
    items: Seq<TokenItem<'s>>,
    place: Option<int>,
) -> Option<int>
    decreases tree,
{
    let end = end_of_type(tree.ty, items, place);
    match tree.name {
        Some(name) => end_of_name(name, items, end),
        None => end,
    }
}

/// The place behind parameters of a function type with a comma between them, and perhaps one
/// behind the last.
#[verifier::opaque]
pub open spec fn end_of_ref_params<'s>(
    tree: List<FunctionRefParam<'s>>,
    items: Seq<TokenItem<'s>>,
    place: Option<int>,
) -> Option<int>
    decreases tree,
{
    match tree {
        List::Empty => place,
        List::Item(first, rest) => {
            let end = end_of_ref_param(*first, items, place);
            if *rest is Empty {
                past(items, end, TerminalToken::Comma)
            } else {
                end_of_ref_params(*rest, items, behind(items, end, TerminalToken::Comma))
            }
        },
    }
}

/// The place behind the tokens that a field is written as.
#[verifier::opaque]
pub open spec fn end_of_field<'s>(
    tree: StructField<'s>,
    items: Seq<TokenItem<'s>>,
    place: Option<int>,
) -> Option<int>
    decreases tree,
{
    let name_end = end_of_name(tree.name, items, end_of_type(tree.ty, items, place));
    end_of_initializer(tree.value, items, name_end)
}

/// The place behind fields, each with a comma behind it or not.
#[verifier::opaque]
pub open spec fn end_of_fields<'s>(
    tree: List<StructField<'s>>,
    items: Seq<TokenItem<'s>>,
    place: Option<int>,
) -> Option<int>
    decreases tree,
{
    match tree {
        List::Empty => place,
        List::Item(first, rest) => end_of_fields(
            *rest,
            items,
            past(items, end_of_field(*first, items, place), TerminalToken::Comma),
        ),
    }
}

/// The place behind a name with its type before it, if it has one.
#[verifier::opaque]
pub open spec fn end_of_typed_name<'s>(
    ty: Option<Type<'s>>,
    name: Identifier<'s>,
    items: Seq<TokenItem<'s>>,
    place: Option<int>,
) -> Option<int>
    decreases ty,
{
    match ty {
        Some(ty) => end_of_name(name, items, end_of_type(ty, items, place)),
        None => end_of_name(name, items, place),
    }
}

/// The place behind the tokens that a variable is written as.
#[verifier::opaque]
pub open spec fn end_of_variable<'s>(
    tree: Variable<'s>,
    items: Seq<TokenItem<'s>>,
    place: Option<int>,
) -> Option<int>
    decreases tree,
{
    end_of_initializer(tree.value, items, end_of_name(tree.name, items, place))
}

/// The place behind one or more variables with a comma between them.
#[verifier::opaque]
pub open spec fn end_of_variables<'s>(
    tree: List<Variable<'s>>,
    items: Seq<TokenItem<'s>>,
    place: Option<int>,
) -> Option<int>
    decreases tree,
{
    match tree {
        List::Empty => None,
        List::Item(first, rest) => {
            let end = end_of_variable(*first, items, place);
            if *rest is Empty {
                without(items, end, TerminalToken::Comma)
            } else {
                end_of_variables(*rest, items, behind(items, end, TerminalToken::Comma))
            }
        },
    }
}

/// The place behind the tokens that a definition of variables is written as: their type or
/// `local`, and the variables.
#[verifier::opaque]
pub open spec fn end_of_definition<'s>(
    tree: VarDefinition<'s>,
    items: Seq<TokenItem<'s>>,
    place: Option<int>,
) -> Option<int>
    decreases tree,
{
    let start = match tree.ty {
        Some(ty) => end_of_type(ty, items, place),
        None => behind(items, place, TerminalToken::Local),
    };
    end_of_variables(tree.variables, items, start)
}

/// The place behind the tokens that a parameter is written as.
#[verifier::opaque]
pub open spec fn end_of_param<'s>(
    tree: FunctionParam<'s>,
    items: Seq<TokenItem<'s>>,
    place: Option<int>,
) -> Option<int>
    decreases tree,
{
    end_of_initializer(tree.default, items, end_of_typed_name(tree.ty, tree.name, items, place))
}

/// The place behind parameters with a comma between them, and perhaps one behind the last.
#[verifier::opaque]
pub open spec fn end_of_param_list<'s>(
    tree: List<FunctionParam<'s>>,
    items: Seq<TokenItem<'s>>,
    place: Option<int>,
) -> Option<int>
    decreases tree,
{
    match tree {
        List::Empty => place,
        List::Item(first, rest) => {
            let end = end_of_param(*first, items, place);
            if *rest is Empty {
                past(items, end, TerminalToken::Comma)
            } else {
                end_of_param_list(*rest, items, behind(items, end, TerminalToken::Comma))
            }
        },
    }
}

/// The place behind the tokens that parameters are written as, with the brackets round them.
#[verifier::opaque]
pub open spec fn end_of_params<'s>(
    tree: FunctionParams<'s>,
    items: Seq<TokenItem<'s>>,
    place: Option<int>,
) -> Option<int>
    decreases tree,
{
    let open = behind(items, place, TerminalToken::OpenBracket);
    let end = end_of_param_list(tree.params, items, open);
    behind(
        items,
        if tree.is_vararg {
            behind(items, end, TerminalToken::Vararg)
        } else {
            end
        },
        TerminalToken::CloseBracket,
    )
}

/// The place behind the tokens that the parameters and the body of a function are written as.
#[verifier::opaque]
pub open spec fn end_of_function<'s>(
    tree: FunctionDefinition<'s>,
    items: Seq<TokenItem<'s>>,
    place: Option<int>,
) -> Option<int>
    decreases tree,
{
    end_of_statement(*tree.body, items, end_of_params(tree.params, items, place))
}

/// The place behind constants, each with a comma behind it or not.
#[verifier::opaque]
pub open spec fn end_of_enum_entries<'s>(
    tree: List<EnumEntry<'s>>,
    items: Seq<TokenItem<'s>>,
    place: Option<int>,
) -> Option<int>
    decreases tree,
{
    match tree {
        List::Empty => place,
        List::Item(first, rest) => end_of_enum_entries(
            *rest,
            items,
            past(items, end_of_enum_entry(*first, items, place), TerminalToken::Comma),
        ),
    }
}

/// The place behind the tokens that a constant of an `enum` is written as.
#[verifier::opaque]
pub open spec fn end_of_enum_entry<'s>(
    tree: EnumEntry<'s>,
    items: Seq<TokenItem<'s>>,
    place: Option<int>,
) -> Option<int>
    decreases tree,
{
    end_of_initializer(tree.value, items, end_of_name(tree.name, items, place))
}

/// The place behind the tokens that a member of a class is written as.
#[verifier::opaque]
pub open spec fn end_of_member<'s>(
    tree: ClassMember<'s>,
    items: Seq<TokenItem<'s>>,
    place: Option<int>,
) -> Option<int>
    decreases tree,
{
    let start = if tree.is_static {
        behind(items, place, TerminalToken::Static)
    } else {
        place
    };
    end_of_member_type(tree.ty, items, start)
}

/// The place behind the tokens that a member of a class is written as, without `static`.
#[verifier::opaque]
pub open spec fn end_of_member_type<'s>(
    tree: ClassMemberType<'s>,
    items: Seq<TokenItem<'s>>,
    place: Option<int>,
) -> Option<int>
    decreases tree,
{
    match tree {
        ClassMemberType::Property(name, value) => {
            let start = behind(items, end_of_name(name, items, place), TerminalToken::Assign);
            end_of_expression(value, items, start)
        },
        ClassMemberType::Constructor(function) => end_of_function(
            function,
            items,
            behind(items, place, TerminalToken::Constructor),
        ),
        ClassMemberType::Function(name, function) => {
            let start = behind(items, place, TerminalToken::Function);
            end_of_function(function, items, end_of_name(name, items, start))
        },
    }
}

/// The place behind members of a class, each with a semicolon behind it or not.
#[verifier::opaque]
pub open spec fn end_of_members<'s>(
    tree: List<ClassMember<'s>>,
    items: Seq<TokenItem<'s>>,
    place: Option<int>,
) -> Option<int>
    decreases tree,
{
    match tree {
        List::Empty => place,
        List::Item(first, rest) => end_of_members(
            *rest,
            items,
            past(items, end_of_member(*first, items, place), TerminalToken::Semicolon),
        ),
    }
}

/// The place behind the class that a class extends, or a place where no `extends` stands.
#[verifier::opaque]
pub open spec fn end_of_base_class<'s>(
    tree: Option<Expression<'s>>,
    items: Seq<TokenItem<'s>>,
    place: Option<int>,
) -> Option<int>
    decreases tree,
{
    match tree {
        Some(base) => held(
            base,
            13,
            end_of_expression(base, items, behind(items, place, TerminalToken::Extends)),
        ),
        None => without(items, place, TerminalToken::Extends),
    }
}

/// The place behind cases.
#[verifier::opaque]
pub open spec fn end_of_cases<'s>(
    tree: List<SwitchCase<'s>>,
    items: Seq<TokenItem<'s>>,
    place: Option<int>,
) -> Option<int>
    decreases tree,
{
    match tree {
        List::Empty => place,
        List::Item(first, rest) => end_of_cases(
            *rest,
            items,
            end_of_case(*first, items, place),
        ),
    }
}

/// The place behind the tokens that a case is written as.
#[verifier::opaque]
pub open spec fn end_of_case<'s>(
    tree: SwitchCase<'s>,
    items: Seq<TokenItem<'s>>,
    place: Option<int>,
) -> Option<int>
    decreases tree,
{
    let value_end = match tree.value {
        Some(value) => end_of_expression(value, items, behind(items, place, TerminalToken::Case)),
        None => behind(items, place, TerminalToken::Default),
    };
    end_of_statements(tree.body, items, behind(items, value_end, TerminalToken::Colon))
}

/// The place behind the tokens that the first step of a loop is written as.
#[verifier::opaque]
pub open spec fn end_of_for_initializer<'s>(
    tree: Option<ForInitializer<'s>>,
    items: Seq<TokenItem<'s>>,
    place: Option<int>,
) -> Option<int>
    decreases tree,
{
    match tree {
        Some(ForInitializer::Definition(definition)) => end_of_definition(
            definition,
            items,
            place,
        ),
        Some(ForInitializer::Expression(value)) => end_of_expression(value, items, place),
        None => place,
    }
}

/// The place behind the tokens that an expression is written as, if there is one.
#[verifier::opaque]
pub open spec fn end_of_option<'s>(
    tree: Option<Expression<'s>>,
    items: Seq<TokenItem<'s>>,
    place: Option<int>,
) -> Option<int>
    decreases tree,
{
    match tree {
        Some(value) => end_of_expression(value, items, place),
        None => place,
    }
}

/// Whether nothing that could be the value of a `return` stands at a place: the line ends there,
/// the statement does, or the block.
pub open spec fn ends_before_value(items: Seq<TokenItem<'_>>, at: int) -> bool {
    ||| at >= items.len()
    ||| !is_inside_line(items, at)
    ||| is_at(items, at, TerminalToken::Semicolon)
    ||| is_at(items, at, TerminalToken::CloseBrace)
}

/// The place behind a value that stands on the same line, or a place where none can stand.
#[verifier::opaque]
pub open spec fn end_of_value<'s>(
    tree: Option<Expression<'s>>,
    items: Seq<TokenItem<'s>>,
    place: Option<int>,
) -> Option<int>
    decreases tree,
{
    match place {
        Some(at) => match tree {
            Some(value) => if ends_before_value(items, at) {
                None
            } else {
                end_of_expression(value, items, place)
            },
            None => if ends_before_value(items, at) {
                place
            } else {
                None
            },
        },
        None => None,
    }
}

/// The place behind the other statement of a choice, or a place where no `else` stands.
#[verifier::opaque]
pub open spec fn end_of_else<'s>(
    tree: Option<Box<Statement<'s>>>,
    items: Seq<TokenItem<'s>>,
    place: Option<int>,
) -> Option<int>
    decreases tree,
{
    match tree {
        Some(body) => end_of_statement(*body, items, behind(items, place, TerminalToken::Else)),
        None => without(items, place, TerminalToken::Else),
    }
}

/// The place behind statements that stand one behind the other.
#[verifier::opaque]
pub open spec fn end_of_statements<'s>(
    tree: List<Statement<'s>>,
    items: Seq<TokenItem<'s>>,
    place: Option<int>,
) -> Option<int>
    decreases tree,
{
    match tree {
        List::Empty => place,
        List::Item(first, rest) => end_of_statements(
            *rest,
            items,
            end_of_statement(*first, items, place),
        ),
    }
}

/// Whether a statement can end before a place without a semicolon. One that ends with a body or
/// with a closing brace always can.
pub open spec fn can_end(tree: StatementType<'_>, items: Seq<TokenItem<'_>>, at: int) -> bool {
    ||| at >= items.len()
    ||| !is_inside_line(items, at)
    ||| is_at(items, at, TerminalToken::CloseBrace)
    ||| is_at(items, at, TerminalToken::Else)
    ||| tree is Block
    ||| tree is If
    ||| tree is While
    ||| tree is For
    ||| tree is Foreach
    ||| tree is Switch
    ||| tree is TryCatch
    ||| tree is EnumDefinition
    ||| tree is StructDefinition
    ||| tree is ClassDefinition
    ||| tree is FunctionDefinition
    ||| tree is Global
}

/// The place behind the tokens that a statement is written as, with the semicolon that ends it.
#[verifier::opaque]
pub open spec fn end_of_statement<'s>(
    tree: Statement<'s>,
    items: Seq<TokenItem<'s>>,
    place: Option<int>,
) -> Option<int>
    decreases tree,
{
    let end = if tree.ty is Empty {
        place
    } else {
        end_of_statement_type(tree.ty, items, place)
    };
    match end {
        Some(at) => match tree.semicolon {
            Some(token) => if is_at(items, at, TerminalToken::Semicolon) && items[at].token
                == *token {
                Some(at + 1)
            } else {
                None
            },
            None => if tree.ty !is Empty && !is_at(items, at, TerminalToken::Semicolon) && can_end(
                tree.ty,
                items,
                at,
            ) {
                Some(at)
            } else {
                None
            },
        },
        None => None,
    }
}

/// The place behind the tokens that a statement is written as, without the semicolon.
#[verifier::opaque]
pub open spec fn end_of_statement_type<'s>(
    tree: StatementType<'s>,
    items: Seq<TokenItem<'s>>,
    place: Option<int>,
) -> Option<int>
    decreases tree,
{
    match tree {
        StatementType::Empty => None,
        StatementType::Block(statements) => {
            let open = behind(items, place, TerminalToken::OpenBrace);
            behind(items, end_of_statements(statements, items, open), TerminalToken::CloseBrace)
        },
        StatementType::If(choice) => {
            let word = behind(items, place, TerminalToken::If);
            let open = behind(items, word, TerminalToken::OpenBracket);
            let condition_end = end_of_expression(choice.condition, items, open);
            let close = behind(items, condition_end, TerminalToken::CloseBracket);
            let body_end = end_of_statement(*choice.body, items, close);
            end_of_else(choice.else_body, items, body_end)
        },
        StatementType::While(repeat) => {
            let word = behind(items, place, TerminalToken::While);
            let open = behind(items, word, TerminalToken::OpenBracket);
            let condition_end = end_of_expression(repeat.condition, items, open);
            let close = behind(items, condition_end, TerminalToken::CloseBracket);
            end_of_statement(*repeat.body, items, close)
        },
        StatementType::DoWhile(repeat) => {
            let word = behind(items, place, TerminalToken::Do);
            let body_end = end_of_statement(*repeat.body, items, word);
            let again = behind(items, body_end, TerminalToken::While);
            let open = behind(items, again, TerminalToken::OpenBracket);
            let condition_end = end_of_expression(repeat.condition, items, open);
            behind(items, condition_end, TerminalToken::CloseBracket)
        },
        StatementType::For(repeat) => {
            let word = behind(items, place, TerminalToken::For);
            let open = behind(items, word, TerminalToken::OpenBracket);
            let first_end = end_of_for_initializer(repeat.initializer, items, open);
            let second = behind(items, first_end, TerminalToken::Semicolon);
            let second_end = end_of_option(repeat.condition, items, second);
            let third = behind(items, second_end, TerminalToken::Semicolon);
            let third_end = end_of_option(repeat.increment, items, third);
            let close = behind(items, third_end, TerminalToken::CloseBracket);
            end_of_statement(*repeat.body, items, close)
        },
        StatementType::Foreach(repeat) => {
            let word = behind(items, place, TerminalToken::Foreach);
            let open = behind(items, word, TerminalToken::OpenBracket);
            let start = match repeat.index {
                Some(index) => behind(
                    items,
                    end_of_typed_name(index.ty, index.name, items, open),
                    TerminalToken::Comma,
                ),
                None => open,
            };
            let value_end = end_of_typed_name(repeat.value.ty, repeat.value.name, items, start);
            let array = behind(items, value_end, TerminalToken::In);
            let array_end = end_of_expression(repeat.array, items, array);
            let close = behind(items, array_end, TerminalToken::CloseBracket);
            end_of_statement(*repeat.body, items, close)
        },
        StatementType::Switch(choice) => {
            let word = behind(items, place, TerminalToken::Switch);
            let open = behind(items, word, TerminalToken::OpenBracket);
            let value_end = end_of_expression(choice.value, items, open);
            let close = behind(items, value_end, TerminalToken::CloseBracket);
            let cases = behind(items, close, TerminalToken::OpenBrace);
            behind(items, end_of_cases(choice.cases, items, cases), TerminalToken::CloseBrace)
        },
        StatementType::Break => behind(items, place, TerminalToken::Break),
        StatementType::Continue => behind(items, place, TerminalToken::Continue),
        StatementType::Return(value) => end_of_value(
            value,
            items,
            behind(items, place, TerminalToken::Return),
        ),
        StatementType::Yield(value) => end_of_value(
            value,
            items,
            behind(items, place, TerminalToken::Yield),
        ),
        StatementType::Throw(value) => end_of_expression(
            value,
            items,
            behind(items, place, TerminalToken::Throw),
        ),
        StatementType::TryCatch(attempt) => {
            let word = behind(items, place, TerminalToken::Try);
            let body_end = end_of_statement(*attempt.body, items, word);
            let catch_word = behind(items, body_end, TerminalToken::Catch);
            let open = behind(items, catch_word, TerminalToken::OpenBracket);
            let name_end = end_of_name(attempt.name, items, open);
            let close = behind(items, name_end, TerminalToken::CloseBracket);
            end_of_statement(*attempt.handler, items, close)
        },
        StatementType::Const(constant) => {
            let word = behind(items, place, TerminalToken::Const);
            let name_end = end_of_typed_name(constant.ty, constant.name, items, word);
            end_of_expression(
                constant.value,
                items,
                behind(items, name_end, TerminalToken::Assign),
            )
        },
        StatementType::EnumDefinition(definition) => {
            let word = behind(items, place, TerminalToken::Enum);
            let name_end = end_of_name(definition.name, items, word);
            let open = behind(items, name_end, TerminalToken::OpenBrace);
            let entries_end = end_of_enum_entries(definition.entries, items, open);
            behind(items, entries_end, TerminalToken::CloseBrace)
        },
        StatementType::StructDefinition(definition) => {
            let word = behind(items, place, TerminalToken::Struct);
            let name_end = end_of_name(definition.name, items, word);
            let open = behind(items, name_end, TerminalToken::OpenBrace);
            let fields_end = end_of_fields(definition.fields, items, open);
            behind(items, fields_end, TerminalToken::CloseBrace)
        },
        StatementType::TypeDefinition(definition) => {
            let word = behind(items, place, TerminalToken::Typedef);
            end_of_type(definition.ty, items, end_of_name(definition.name, items, word))
        },
        StatementType::ClassDefinition(definition) => {
            let word = behind(items, place, TerminalToken::Class);
            let name_end = end_of_names(definition.name, items, word);
            let base_end = end_of_base_class(definition.base, items, name_end);
            let open = behind(items, base_end, TerminalToken::OpenBrace);
            let members_end = end_of_members(definition.members, items, open);
            behind(items, members_end, TerminalToken::CloseBrace)
        },
        StatementType::VarDefinition(definition) => match definition.ty {
            Some(Type::Plain(name)) => if inside_line(
                items,
                end_of_name(name, items, place),
            ) is Some {
                end_of_definition(definition, items, place)
            } else {
                None
            },
            _ => end_of_definition(definition, items, place),
        },
        StatementType::FunctionDefinition(function) => {
            let start = match function.return_type {
                Some(ty) => inside_line(items, end_of_type(ty, items, place)),
                None => place,
            };
            let word = behind(items, start, TerminalToken::Function);
            end_of_function(function.definition, items, end_of_names(function.name, items, word))
        },
        StatementType::GlobalFunction(name) => {
            let word = behind(items, place, TerminalToken::Global);
            end_of_names(name, items, behind(items, word, TerminalToken::Function))
        },
        StatementType::Global(definition) => end_of_statement(
            *definition,
            items,
            behind(items, place, TerminalToken::Global),
        ),
        StatementType::GlobalizeAllFunctions => behind(
            items,
            place,
            TerminalToken::GlobalizeAllFunctions,
        ),
        StatementType::Untyped => behind(items, place, TerminalToken::Untyped),
        StatementType::Thread(value) => end_of_expression(
            value,
            items,
            behind(items, place, TerminalToken::Thread),
        ),
        StatementType::WaitThread(value) => end_of_expression(
            value,
            items,
            behind(items, place, TerminalToken::WaitThread),
        ),
        StatementType::WaitThreadSolo(value) => end_of_expression(
            value,
            items,
            behind(items, place, TerminalToken::WaitThreadSolo),
        ),
        StatementType::DelayThread(delayed) => {
            let word = behind(items, place, TerminalToken::DelayThread);
            let open = behind(items, word, TerminalToken::OpenBracket);
            let duration_end = end_of_expression(delayed.duration, items, open);
            let close = behind(items, duration_end, TerminalToken::CloseBracket);
            end_of_expression(delayed.value, items, close)
        },
        StatementType::Wait(value) => end_of_expression(
            value,
            items,
            behind(items, place, TerminalToken::Wait),
        ),
        StatementType::Expression(value) => end_of_expression(value, items, place),
    }
}

/// Whether a member, an index, a call or a step stands at a place, so that an expression that ends
/// before it is not complete.
pub open spec fn postfix_goes_on(items: Seq<TokenItem<'_>>, at: int) -> bool {
    ||| is_at(items, at, TerminalToken::Dot)
    ||| is_inside_line(items, at) && {
        ||| is_at(items, at, TerminalToken::OpenSquare)
        ||| is_at(items, at, TerminalToken::OpenBracket)
        ||| is_at(items, at, TerminalToken::Increment)
        ||| is_at(items, at, TerminalToken::Decrement)
    }
}

/// Whether a binary operator stands at a place that binds as tightly as a bound, or more.
pub open spec fn operator_goes_on(items: Seq<TokenItem<'_>>, at: int, tight: int) -> bool {
    exists|operator: BinaryOperator|
        #![trigger binary_tokens(operator)]
        precedence(operator) >= tight && stand_at(items, at, binary_tokens(operator))
}

/// Whether an expression that ends before a place is not complete.
pub open spec fn goes_on(items: Seq<TokenItem<'_>>, at: int) -> bool {
    ||| postfix_goes_on(items, at)
    ||| operator_goes_on(items, at, 0)
    ||| is_at(items, at, TerminalToken::Question)
}

/// Whether a token starts an operand.
pub open spec fn starts_operand(ty: TokenType<'_>) -> bool {
    match ty {
        TokenType::Literal(_) | TokenType::Identifier(_) => true,
        TokenType::Terminal(terminal) => {
            ||| terminal == TerminalToken::True
            ||| terminal == TerminalToken::False
            ||| terminal == TerminalToken::Null
            ||| terminal == TerminalToken::This
            ||| terminal == TerminalToken::Base
            ||| terminal == TerminalToken::Namespace
            ||| terminal == TerminalToken::OpenBracket
            ||| terminal == TerminalToken::OpenSquare
            ||| terminal == TerminalToken::OpenBrace
            ||| terminal == TerminalToken::Less
            ||| terminal == TerminalToken::Function
            ||| terminal == TerminalToken::At
            ||| terminal == TerminalToken::Expect
        },
    }
}

/// Whether an error says what is wrong with tokens from a place on: its token is one of them or
/// their end, and is not what the error asks for.
pub open spec fn is_wrong(items: Seq<TokenItem<'_>>, from: int, error: ParseError) -> bool {
    let at = error.token_index as int;
    &&& from <= at <= items.len()
    &&& match error.ty {
        ParseErrorType::ExpectedTerminal(terminal) => !is_at(items, at, terminal),
        ParseErrorType::ExpectedIdentifier => at == items.len()
            || items[at].token.ty !is Identifier,
        ParseErrorType::ExpectedExpression => at == items.len() || !starts_operand(
            items[at].token.ty,
        ),
        ParseErrorType::ExpectedType => at == items.len() || items[at].token.ty !is Identifier
            && !is_at(items, at, TerminalToken::FunctionRef) && !is_at(
            items,
            at,
            TerminalToken::Struct,
        ),
        ParseErrorType::ExpectedDefinition => is_at(items, at - 1, TerminalToken::Global),
        ParseErrorType::ExpectedEndOfStatement => at < items.len() && is_inside_line(items, at)
            && !is_at(items, at, TerminalToken::Semicolon) && !is_at(
            items,
            at,
            TerminalToken::CloseBrace,
        ) && !is_at(items, at, TerminalToken::Else),
    }
}

} // verus!
