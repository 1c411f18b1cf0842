use crate::ast::{BinaryOperator, Expression, PrefixOperator};
use crate::lexer::TokenItem;
use crate::parser::grammar::Parsed;
use crate::parser::parts::read;
use crate::parser::{expression, operator, spelling};
use crate::token::TerminalToken;
use vstd::prelude::*;

verus! {

/// An operator before its operand is read with the operand behind it. Where none stands, there is
/// an operand with what stands behind it.
pub proof fn law_prefix_is_read_by_its_parts<'s>(
    items: Seq<TokenItem<'s>>,
    at: int,
    next: int,
    prefix: PrefixOperator,
    value: Expression<'s>,
)
    requires
        0 <= at <= items.len() <= usize::MAX,
    ensures
        expression::unary_at(items, at) == Parsed::Ok(
            (next, Expression::Prefix(prefix, Box::new(value))),
        )
            <==> read::unary(
            value,
            items,
            spelling::behind(items, Some(at), spelling::prefix_token(prefix)),
        ) == Some(next),
        (
            forall|other: PrefixOperator| !spelling::is_at(
                items,
                at,
                #[trigger] spelling::prefix_token(other),
            )
        )
            ==> expression::unary_at(items, at) == expression::postfix_at(items, at),
        spelling::is_at(items, at, spelling::prefix_token(prefix)) ==> read::passes_on(
            expression::unary_at(items, at + 1),
            expression::unary_at(items, at),
        ),
{
    reveal(expression::unary_at);
    reveal(expression::postfix_at);
    spelling::expression::lemma_postfix(items, at);
    spelling::expression::lemma_unary(items, at);
    reveal(spelling::end_of_expression);
    if at < items.len() {
        spelling::expression::lemma_unary(items, at + 1);
    }
    if let Some(other) = operator::prefix_at(items, at) {
        assert(spelling::is_at(items, at, spelling::prefix_token(other)));
    }
    if expression::postfix_at(items, at) is Ok {
        assert(spelling::tightness(expression::postfix_at(items, at)->Ok_0.1) >= 13);
    }
}

/// The place behind operands with operators between them that set nothing.
pub open spec fn operands<'s>(
    tree: Expression<'s>,
    items: Seq<TokenItem<'s>>,
    place: Option<int>,
) -> Option<int> {
    match place {
        Some(at) => match expression::binary_at(items, at, 1) {
            Ok((next, found)) => if found == tree {
                Some(next)
            } else {
                None
            },
            Err(_) => None,
        },
        None => None,
    }
}

/// A choice is read if its parts are, with `?` and `:` between them. Where no `?` stands
/// behind the condition, there is no choice.
pub proof fn law_ternary_is_read_by_its_parts<'s>(
    items: Seq<TokenItem<'s>>,
    at: int,
    next: int,
    condition: Expression<'s>,
    yes: Expression<'s>,
    no: Expression<'s>,
)
    requires
        0 <= at <= items.len() <= usize::MAX,
    ensures
        ({
            let place = operands(condition, items, Some(at));
            let place = spelling::behind(items, place, TerminalToken::Question);
            let place = read::expression(yes, items, place);
            let place = spelling::behind(items, place, TerminalToken::Colon);
            let place = read::expression(no, items, place);
            place == Some(next) ==> expression::ternary_at(items, at) == Parsed::Ok(
                (next, Expression::Ternary(Box::new(condition), Box::new(yes), Box::new(no))),
            )
        }),
        operands(
            condition,
            items,
            Some(at),
        ) == Some(next) && !spelling::is_at(items, next, TerminalToken::Question)
            ==> expression::ternary_at(items, at)
            == Parsed::Ok((next, condition)),
        ({
            let parsed = expression::ternary_at(items, at);
            let place = spelling::behind(
                items,
                operands(condition, items, Some(at)),
                TerminalToken::Question,
            );
            let after = read::expression(yes, items, place);
            &&& read::passes_on(expression::binary_at(items, at, 1), parsed)
            &&& place is Some ==> read::passes_on(
                expression::expression_at(items, place->0),
                parsed,
            )
            &&& read::needs(items, after, TerminalToken::Colon, parsed)
            &&& after is Some && spelling::is_at(items, after->0, TerminalToken::Colon)
                ==> read::passes_on(expression::expression_at(items, after->0 + 1), parsed)
        }),
{
    reveal(expression::ternary_at);
    reveal(expression::binary_at);
    reveal(expression::expression_at);
    spelling::expression::lemma_binary(items, at, 1);
    if let Ok((n, _)) = expression::binary_at(items, at, 1) {
        if spelling::is_at(items, n, TerminalToken::Question) {
            spelling::expression::lemma_expression(items, n + 1);
            if let Ok((m, _)) = expression::expression_at(items, n + 1) {
                if spelling::is_at(items, m, TerminalToken::Colon) {
                    spelling::expression::lemma_expression(items, m + 1);
                }
            }
        }
    }
}

/// An assignment is read if its parts are, with the operator between them, and the value is all
/// that stands behind the operator. Where no such operator stands, there is no assignment.
pub proof fn law_assignment_is_read_by_its_parts<'s>(
    items: Seq<TokenItem<'s>>,
    at: int,
    next: int,
    middle: int,
    assign: BinaryOperator,
    target: Expression<'s>,
    value: Expression<'s>,
)
    requires
        0 <= at <= items.len() <= usize::MAX,
    ensures
        expression::ternary_at(items, at) == Parsed::Ok((middle, target))
            && spelling::precedence(assign)
            == 0 && read::expression(
            value,
            items,
            spelling::end_of_operator(assign, items, Some(middle)),
        ) == Some(next) ==> expression::expression_at(items, at) == Parsed::Ok(
            (next, Expression::Binary(assign, Box::new(target), Box::new(value))),
        ),
        expression::ternary_at(items, at) == Parsed::Ok((next, target))
            && !spelling::operator_goes_on(
            items,
            next,
            0,
        ) ==> expression::expression_at(items, at) == Parsed::Ok((next, target)),
        read::passes_on(expression::ternary_at(items, at), expression::expression_at(items, at)),
        expression::ternary_at(items, at) == Parsed::Ok((middle, target))
            && spelling::precedence(assign)
            == 0 && spelling::end_of_operator(assign, items, Some(middle)) == Some(next)
            ==> read::passes_on(
            expression::expression_at(items, next),
            expression::expression_at(items, at),
        ),
{
    reveal(expression::expression_at);
    reveal(expression::assignment_at);
    reveal(expression::ternary_at);
    spelling::expression::lemma_ternary(items, at);
    if let Ok((n, _)) = expression::ternary_at(items, at) {
        spelling::operator::lemma_assign(items, n);
        spelling::operator::lemma_only_infix(items, n, assign);
        if let Some(found) = operator::assign_at(items, n) {
            spelling::expression::lemma_expression(items, n + 1);
            assert(spelling::stand_at(items, n, spelling::binary_tokens(found)));
        }
    }
}

} // verus!
