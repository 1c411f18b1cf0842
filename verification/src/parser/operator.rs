use crate::ast::{BinaryOperator, PrefixOperator};
use crate::lexer::TokenItem;
use crate::parser::grammar;
use crate::token::{TerminalToken, TokenType};
use vstd::prelude::*;

verus! {

/// An operator that stands before its operand.
pub open spec fn prefix_at(items: Seq<TokenItem<'_>>, at: int) -> Option<PrefixOperator> {
    if 0 <= at < items.len() {
        match items[at].token.ty {
            TokenType::Terminal(TerminalToken::Subtract) => Some(PrefixOperator::Negate),
            TokenType::Terminal(TerminalToken::LogicalNot) => Some(PrefixOperator::LogicalNot),
            TokenType::Terminal(TerminalToken::BitwiseNot) => Some(PrefixOperator::BitwiseNot),
            TokenType::Terminal(TerminalToken::Typeof) => Some(PrefixOperator::Typeof),
            TokenType::Terminal(TerminalToken::Clone) => Some(PrefixOperator::Clone),
            TokenType::Terminal(TerminalToken::Delete) => Some(PrefixOperator::Delete),
            TokenType::Terminal(TerminalToken::Resume) => Some(PrefixOperator::Resume),
            TokenType::Terminal(TerminalToken::Increment) => Some(PrefixOperator::Increment),
            TokenType::Terminal(TerminalToken::Decrement) => Some(PrefixOperator::Decrement),
            _ => None,
        }
    } else {
        None
    }
}

/// Reads an operator that stands before its operand.
pub(crate) fn prefix(items: &[TokenItem<'_>], at: usize) -> (found: Option<PrefixOperator>)
    ensures
        found == prefix_at(items@, at as int),
        found is Some ==> at < items.len(),
{
    if at < items.len() {
        match items[at].token.ty {
            TokenType::Terminal(TerminalToken::Subtract) => Some(PrefixOperator::Negate),
            TokenType::Terminal(TerminalToken::LogicalNot) => Some(PrefixOperator::LogicalNot),
            TokenType::Terminal(TerminalToken::BitwiseNot) => Some(PrefixOperator::BitwiseNot),
            TokenType::Terminal(TerminalToken::Typeof) => Some(PrefixOperator::Typeof),
            TokenType::Terminal(TerminalToken::Clone) => Some(PrefixOperator::Clone),
            TokenType::Terminal(TerminalToken::Delete) => Some(PrefixOperator::Delete),
            TokenType::Terminal(TerminalToken::Resume) => Some(PrefixOperator::Resume),
            TokenType::Terminal(TerminalToken::Increment) => Some(PrefixOperator::Increment),
            TokenType::Terminal(TerminalToken::Decrement) => Some(PrefixOperator::Decrement),
            _ => None,
        }
    } else {
        None
    }
}

/// An operator that sets its left operand.
pub open spec fn assign_at(items: Seq<TokenItem<'_>>, at: int) -> Option<BinaryOperator> {
    if 0 <= at < items.len() {
        match items[at].token.ty {
            TokenType::Terminal(TerminalToken::Assign) => Some(BinaryOperator::Assign),
            TokenType::Terminal(TerminalToken::NewSlot) => Some(BinaryOperator::NewSlot),
            TokenType::Terminal(TerminalToken::AddAssign) => Some(BinaryOperator::AddAssign),
            TokenType::Terminal(
                TerminalToken::SubtractAssign,
            ) => Some(BinaryOperator::SubtractAssign),
            TokenType::Terminal(
                TerminalToken::MultiplyAssign,
            ) => Some(BinaryOperator::MultiplyAssign),
            TokenType::Terminal(TerminalToken::DivideAssign) => Some(BinaryOperator::DivideAssign),
            TokenType::Terminal(TerminalToken::ModuloAssign) => Some(BinaryOperator::ModuloAssign),
            _ => None,
        }
    } else {
        None
    }
}

/// Reads an operator that sets its left operand.
pub(crate) fn assign(items: &[TokenItem<'_>], at: usize) -> (found: Option<BinaryOperator>)
    ensures
        found == assign_at(items@, at as int),
        found is Some ==> at < items.len(),
{
    if at < items.len() {
        match items[at].token.ty {
            TokenType::Terminal(TerminalToken::Assign) => Some(BinaryOperator::Assign),
            TokenType::Terminal(TerminalToken::NewSlot) => Some(BinaryOperator::NewSlot),
            TokenType::Terminal(TerminalToken::AddAssign) => Some(BinaryOperator::AddAssign),
            TokenType::Terminal(
                TerminalToken::SubtractAssign,
            ) => Some(BinaryOperator::SubtractAssign),
            TokenType::Terminal(
                TerminalToken::MultiplyAssign,
            ) => Some(BinaryOperator::MultiplyAssign),
            TokenType::Terminal(TerminalToken::DivideAssign) => Some(BinaryOperator::DivideAssign),
            TokenType::Terminal(TerminalToken::ModuloAssign) => Some(BinaryOperator::ModuloAssign),
            _ => None,
        }
    } else {
        None
    }
}

/// Whether two tokens `>` stand at a place with nothing between them.
pub open spec fn has_double_greater(items: Seq<TokenItem<'_>>, at: int) -> bool {
    &&& grammar::has_terminal(items, at, TerminalToken::Greater)
    &&& grammar::has_terminal(items, at + 1, TerminalToken::Greater)
    &&& items[at].token.range.end == items[at + 1].token.range.start
}

/// Whether two tokens `>` stand at a place with nothing between them.
fn double_greater(items: &[TokenItem<'_>], at: usize) -> (found: bool)
    requires
        at < items.len(),
    ensures
        found == has_double_greater(items@, at as int),
{
    grammar::at_terminal(items, at, TerminalToken::Greater) && grammar::at_terminal(
        items,
        at + 1,
        TerminalToken::Greater,
    ) && items[at].token.range.end == items[at + 1].token.range.start
}

/// An operator that stands between its operands and sets none of them, and the place behind it.
/// `>>` and `>>>` are made of tokens `>` with nothing between them.
pub open spec fn infix_at(items: Seq<TokenItem<'_>>, at: int) -> Option<(BinaryOperator, int)> {
    if 0 <= at < items.len() {
        match items[at].token.ty {
            TokenType::Terminal(TerminalToken::Greater) => {
                if !has_double_greater(items, at) {
                    Some((BinaryOperator::Greater, at + 1))
                } else if !has_double_greater(items, at + 1) {
                    Some((BinaryOperator::ShiftRight, at + 2))
                } else {
                    Some((BinaryOperator::UnsignedShiftRight, at + 3))
                }
            },
            TokenType::Terminal(
                TerminalToken::LogicalOr,
            ) => Some((BinaryOperator::LogicalOr, at + 1)),
            TokenType::Terminal(
                TerminalToken::LogicalAnd,
            ) => Some((BinaryOperator::LogicalAnd, at + 1)),
            TokenType::Terminal(
                TerminalToken::BitwiseOr,
            ) => Some((BinaryOperator::BitwiseOr, at + 1)),
            TokenType::Terminal(
                TerminalToken::BitwiseXor,
            ) => Some((BinaryOperator::BitwiseXor, at + 1)),
            TokenType::Terminal(
                TerminalToken::BitwiseAnd,
            ) => Some((BinaryOperator::BitwiseAnd, at + 1)),
            TokenType::Terminal(TerminalToken::Equal) => Some((BinaryOperator::Equal, at + 1)),
            TokenType::Terminal(
                TerminalToken::NotEqual,
            ) => Some((BinaryOperator::NotEqual, at + 1)),
            TokenType::Terminal(
                TerminalToken::ThreeWay,
            ) => Some((BinaryOperator::ThreeWay, at + 1)),
            TokenType::Terminal(TerminalToken::Less) => Some((BinaryOperator::Less, at + 1)),
            TokenType::Terminal(
                TerminalToken::LessEqual,
            ) => Some((BinaryOperator::LessEqual, at + 1)),
            TokenType::Terminal(
                TerminalToken::GreaterEqual,
            ) => Some((BinaryOperator::GreaterEqual, at + 1)),
            TokenType::Terminal(TerminalToken::In) => Some((BinaryOperator::In, at + 1)),
            TokenType::Terminal(
                TerminalToken::Instanceof,
            ) => Some((BinaryOperator::Instanceof, at + 1)),
            TokenType::Terminal(
                TerminalToken::ShiftLeft,
            ) => Some((BinaryOperator::ShiftLeft, at + 1)),
            TokenType::Terminal(TerminalToken::Add) => Some((BinaryOperator::Add, at + 1)),
            TokenType::Terminal(
                TerminalToken::Subtract,
            ) => Some((BinaryOperator::Subtract, at + 1)),
            TokenType::Terminal(
                TerminalToken::Multiply,
            ) => Some((BinaryOperator::Multiply, at + 1)),
            TokenType::Terminal(TerminalToken::Divide) => Some((BinaryOperator::Divide, at + 1)),
            TokenType::Terminal(TerminalToken::Modulo) => Some((BinaryOperator::Modulo, at + 1)),
            _ => None,
        }
    } else {
        None
    }
}

/// Reads an operator that stands between its operands and sets none of them.
pub(crate) fn infix(items: &[TokenItem<'_>], at: usize) -> (found: Option<(BinaryOperator, usize)>)
    ensures
        match found {
            Some((operator, next)) => {
                &&& infix_at(items@, at as int) == Some((operator, next as int))
                &&& at < next <= items.len()
            },
            None => infix_at(items@, at as int) is None,
        },
{
    if at < items.len() {
        match items[at].token.ty {
            TokenType::Terminal(TerminalToken::Greater) => {
                if !double_greater(items, at) {
                    Some((BinaryOperator::Greater, at + 1))
                } else if !double_greater(items, at + 1) {
                    Some((BinaryOperator::ShiftRight, at + 2))
                } else {
                    Some((BinaryOperator::UnsignedShiftRight, at + 3))
                }
            },
            TokenType::Terminal(
                TerminalToken::LogicalOr,
            ) => Some((BinaryOperator::LogicalOr, at + 1)),
            TokenType::Terminal(
                TerminalToken::LogicalAnd,
            ) => Some((BinaryOperator::LogicalAnd, at + 1)),
            TokenType::Terminal(
                TerminalToken::BitwiseOr,
            ) => Some((BinaryOperator::BitwiseOr, at + 1)),
            TokenType::Terminal(
                TerminalToken::BitwiseXor,
            ) => Some((BinaryOperator::BitwiseXor, at + 1)),
            TokenType::Terminal(
                TerminalToken::BitwiseAnd,
            ) => Some((BinaryOperator::BitwiseAnd, at + 1)),
            TokenType::Terminal(TerminalToken::Equal) => Some((BinaryOperator::Equal, at + 1)),
            TokenType::Terminal(
                TerminalToken::NotEqual,
            ) => Some((BinaryOperator::NotEqual, at + 1)),
            TokenType::Terminal(
                TerminalToken::ThreeWay,
            ) => Some((BinaryOperator::ThreeWay, at + 1)),
            TokenType::Terminal(TerminalToken::Less) => Some((BinaryOperator::Less, at + 1)),
            TokenType::Terminal(
                TerminalToken::LessEqual,
            ) => Some((BinaryOperator::LessEqual, at + 1)),
            TokenType::Terminal(
                TerminalToken::GreaterEqual,
            ) => Some((BinaryOperator::GreaterEqual, at + 1)),
            TokenType::Terminal(TerminalToken::In) => Some((BinaryOperator::In, at + 1)),
            TokenType::Terminal(
                TerminalToken::Instanceof,
            ) => Some((BinaryOperator::Instanceof, at + 1)),
            TokenType::Terminal(
                TerminalToken::ShiftLeft,
            ) => Some((BinaryOperator::ShiftLeft, at + 1)),
            TokenType::Terminal(TerminalToken::Add) => Some((BinaryOperator::Add, at + 1)),
            TokenType::Terminal(
                TerminalToken::Subtract,
            ) => Some((BinaryOperator::Subtract, at + 1)),
            TokenType::Terminal(
                TerminalToken::Multiply,
            ) => Some((BinaryOperator::Multiply, at + 1)),
            TokenType::Terminal(TerminalToken::Divide) => Some((BinaryOperator::Divide, at + 1)),
            TokenType::Terminal(TerminalToken::Modulo) => Some((BinaryOperator::Modulo, at + 1)),
            _ => None,
        }
    } else {
        None
    }
}

/// How tightly an operator binds its operands.
pub open spec fn level_of(operator: BinaryOperator) -> int {
    match operator {
        BinaryOperator::LogicalOr => 1,
        BinaryOperator::LogicalAnd => 2,
        BinaryOperator::BitwiseOr => 3,
        BinaryOperator::BitwiseXor => 4,
        BinaryOperator::BitwiseAnd => 5,
        BinaryOperator::Equal | BinaryOperator::NotEqual | BinaryOperator::ThreeWay => 6,
        BinaryOperator::Less
        | BinaryOperator::LessEqual
        | BinaryOperator::Greater
        | BinaryOperator::GreaterEqual
        | BinaryOperator::In
        | BinaryOperator::Instanceof => 7,
        BinaryOperator::ShiftLeft
        | BinaryOperator::ShiftRight
        | BinaryOperator::UnsignedShiftRight => 8,
        BinaryOperator::Add | BinaryOperator::Subtract => 9,
        BinaryOperator::Multiply | BinaryOperator::Divide | BinaryOperator::Modulo => 10,
        _ => 0,
    }
}

/// How tightly an operator binds its operands.
pub(crate) fn level(operator: BinaryOperator) -> (level: u8)
    ensures
        level == level_of(operator),
        level <= 10,
{
    match operator {
        BinaryOperator::LogicalOr => 1,
        BinaryOperator::LogicalAnd => 2,
        BinaryOperator::BitwiseOr => 3,
        BinaryOperator::BitwiseXor => 4,
        BinaryOperator::BitwiseAnd => 5,
        BinaryOperator::Equal | BinaryOperator::NotEqual | BinaryOperator::ThreeWay => 6,
        BinaryOperator::Less
        | BinaryOperator::LessEqual
        | BinaryOperator::Greater
        | BinaryOperator::GreaterEqual
        | BinaryOperator::In
        | BinaryOperator::Instanceof => 7,
        BinaryOperator::ShiftLeft
        | BinaryOperator::ShiftRight
        | BinaryOperator::UnsignedShiftRight => 8,
        BinaryOperator::Add | BinaryOperator::Subtract => 9,
        BinaryOperator::Multiply | BinaryOperator::Divide | BinaryOperator::Modulo => 10,
        _ => 0,
    }
}

} // verus!
