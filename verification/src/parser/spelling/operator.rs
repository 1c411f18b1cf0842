use crate::ast::BinaryOperator;
use crate::lexer::TokenItem;
use crate::parser::{operator, spelling};
use crate::token::TerminalToken;
use vstd::prelude::*;

verus! {

/// A prefix operator is read from the token that it is written as.
pub(crate) proof fn lemma_prefix(items: Seq<TokenItem<'_>>, at: int)
    requires
        0 <= at <= items.len(),
    ensures
        match operator::prefix_at(items, at) {
            Some(prefix) => spelling::is_at(items, at, spelling::prefix_token(prefix)),
            None => true,
        },
{
}

proof fn lemma_single(items: Seq<TokenItem<'_>>, at: int, operator: BinaryOperator)
    requires
        spelling::binary_tokens(operator).len() == 1,
    ensures
        spelling::stand_at(items, at, spelling::binary_tokens(operator)) <==> spelling::is_at(
            items,
            at,
            spelling::binary_tokens(operator)[0],
        ),
{
    let tokens = spelling::binary_tokens(operator);
    if spelling::stand_at(items, at, tokens) {
        assert(spelling::is_at(items, at + 0, tokens[0]));
    }
}

/// The shifts to the right are read from tokens `>` with nothing between them.
proof fn lemma_shifts(items: Seq<TokenItem<'_>>, at: int)
    ensures
        spelling::stand_at(items, at, spelling::binary_tokens(BinaryOperator::ShiftRight))
            <==> operator::has_double_greater(items, at),
        spelling::stand_at(items, at, spelling::binary_tokens(BinaryOperator::UnsignedShiftRight))
            <==> operator::has_double_greater(items, at) && operator::has_double_greater(
            items,
            at + 1,
        ),
{
    let two = spelling::binary_tokens(BinaryOperator::ShiftRight);
    let three = spelling::binary_tokens(BinaryOperator::UnsignedShiftRight);
    if spelling::stand_at(items, at, two) {
        assert(spelling::is_at(items, at + 0, two[0]));
        assert(spelling::is_at(items, at + 1, two[1]));
    }
    if spelling::stand_at(items, at, three) {
        assert(spelling::is_at(items, at + 0, three[0]));
        assert(spelling::is_at(items, at + 1, three[1]));
        assert(spelling::is_at(items, at + 2, three[2]));
    }
}

/// What operators stand at a place.
proof fn lemma_operators(items: Seq<TokenItem<'_>>, at: int, operator: BinaryOperator)
    ensures
        spelling::binary_tokens(operator).len() > 1 ==> operator == BinaryOperator::ShiftRight
            || operator == BinaryOperator::UnsignedShiftRight,
        spelling::binary_tokens(operator).len() == 1 ==> (spelling::stand_at(
            items,
            at,
            spelling::binary_tokens(operator),
        ) <==> spelling::is_at(items, at, spelling::binary_tokens(operator)[0])),
        spelling::binary_tokens(operator).len() >= 1,
{
    if spelling::binary_tokens(operator).len() == 1 {
        lemma_single(items, at, operator);
    }
}

/// An operator between operands is read from the tokens that it is written as, and none that
/// stands at a place is passed over.
pub(crate) proof fn lemma_infix(items: Seq<TokenItem<'_>>, at: int)
    requires
        0 <= at <= items.len(),
    ensures
        match operator::infix_at(items, at) {
            Some((infix, next)) => {
                &&& at < next <= items.len()
                &&& spelling::end_of_operator(infix, items, Some(at)) == Some(next)
                &&& spelling::precedence(infix) == operator::level_of(infix) + 1
                &&& 2 <= spelling::precedence(infix) <= 11
                &&& forall|other: BinaryOperator|
                    #![trigger spelling::binary_tokens(other)]
                    spelling::stand_at(items, at, spelling::binary_tokens(other))
                        ==> spelling::precedence(other) <= spelling::precedence(infix)
            },
            None => !spelling::operator_goes_on(items, at, 1),
        },
{
    lemma_shifts(items, at);
    assert forall|other: BinaryOperator|
        #![trigger spelling::binary_tokens(other)]
        (spelling::binary_tokens(other).len() == 1 ==> (spelling::stand_at(
            items,
            at,
            spelling::binary_tokens(other),
        ) <==> spelling::is_at(items, at, spelling::binary_tokens(other)[0]))) && (
        spelling::binary_tokens(other).len() > 1 ==> other == BinaryOperator::ShiftRight || other
            == BinaryOperator::UnsignedShiftRight) by {
        lemma_operators(items, at, other);
    }
    if let Some((infix, next)) = operator::infix_at(items, at) {
        assert(spelling::stand_at(items, at, spelling::binary_tokens(infix)));
    }
}

/// The operators that can be read at a place.
pub(crate) proof fn lemma_only_infix(items: Seq<TokenItem<'_>>, at: int, infix: BinaryOperator)
    requires
        0 <= at <= items.len(),
    ensures
        spelling::end_of_operator(infix, items, Some(at)) is Some && spelling::precedence(infix) > 0
            ==> (operator::infix_at(items, at) matches Some((found, _)) && found == infix),
        spelling::end_of_operator(infix, items, Some(at)) is Some && spelling::precedence(infix)
            == 0 ==> operator::assign_at(items, at) == Some(infix),
{
    lemma_shifts(items, at);
    lemma_operators(items, at, infix);
    let two = spelling::binary_tokens(BinaryOperator::ShiftRight);
    let three = spelling::binary_tokens(BinaryOperator::UnsignedShiftRight);
    assert(two.len() == 2 && three.len() == 3);
    if spelling::stand_at(items, at, spelling::binary_tokens(infix)) {
        assert(spelling::is_at(items, at + 0, spelling::binary_tokens(infix)[0]));
    }
}

/// An operator that sets its operand is read from the token that it is written as, and none that
/// stands at a place is passed over.
pub(crate) proof fn lemma_assign(items: Seq<TokenItem<'_>>, at: int)
    requires
        0 <= at <= items.len(),
    ensures
        match operator::assign_at(items, at) {
            Some(assign) => {
                &&& at < items.len()
                &&& spelling::end_of_operator(assign, items, Some(at)) == Some(at + 1)
                &&& spelling::precedence(assign) == 0
            },
            None => forall|other: BinaryOperator|
                #![trigger spelling::binary_tokens(other)]
                spelling::stand_at(items, at, spelling::binary_tokens(other))
                    ==> spelling::precedence(other) >= 1,
        },
{
    lemma_shifts(items, at);
    assert forall|other: BinaryOperator|
        #![trigger spelling::binary_tokens(other)]
        (spelling::binary_tokens(other).len() == 1 ==> (spelling::stand_at(
            items,
            at,
            spelling::binary_tokens(other),
        ) <==> spelling::is_at(items, at, spelling::binary_tokens(other)[0]))) && (
        spelling::binary_tokens(other).len() > 1 ==> other == BinaryOperator::ShiftRight || other
            == BinaryOperator::UnsignedShiftRight) by {
        lemma_operators(items, at, other);
    }
    if let Some(assign) = operator::assign_at(items, at) {
        assert(spelling::stand_at(items, at, spelling::binary_tokens(assign)));
    }
}

} // verus!
