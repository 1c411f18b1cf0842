use crate::ast::{BinaryOperator, Expression, Identifier, PostfixOperator};
use crate::lexer::TokenItem;
use crate::parser::{expression, grammar, name, operator, spelling};
use crate::token::TerminalToken;
use vstd::prelude::*;

verus! {

pub(crate) proof fn lemma_primary<'s>(items: Seq<TokenItem<'s>>, at: int)
    requires
        0 <= at <= items.len() <= usize::MAX,
    ensures
        match expression::primary_at(items, at) {
            Ok((next, tree)) => {
                &&& at < next <= items.len()
                &&& spelling::end_of_expression(tree, items, Some(at)) == Some(next)
                &&& spelling::tightness(tree) == 14
            },
            Err(error) => spelling::is_wrong(items, at, error),
        },
    decreases grammar::left(items, at), 8nat,
{
    reveal(expression::primary_at);
    reveal(spelling::end_of_expression);
    if at < items.len() {
        if items[at].token.ty is Identifier {
            if spelling::is_at(items, at + 1, TerminalToken::Function)
                && spelling::is_at(items, at + 2, TerminalToken::OpenBracket) {
                super::operand::lemma_typed_function(items, at);
            }
        } else if spelling::is_at(items, at, TerminalToken::Namespace) {
            super::operand::lemma_root_var(items, at);
        } else if spelling::is_at(items, at, TerminalToken::OpenBracket) {
            super::operand::lemma_parens(items, at);
        } else if spelling::is_at(items, at, TerminalToken::OpenSquare) {
            super::operand::lemma_array(items, at);
        } else if spelling::is_at(items, at, TerminalToken::OpenBrace) {
            super::operand::lemma_table(items, at);
        } else if spelling::is_at(items, at, TerminalToken::Less) {
            super::operand::lemma_vector(items, at);
        } else if spelling::is_at(items, at, TerminalToken::Function) {
            super::operand::lemma_function_value(items, at);
        } else if spelling::is_at(items, at, TerminalToken::At) {
            super::operand::lemma_lambda(items, at);
        } else if spelling::is_at(items, at, TerminalToken::Expect) {
            super::operand::lemma_expect_type(items, at);
        }
    }
}

pub(crate) proof fn lemma_postfix_tail<'s>(
    items: Seq<TokenItem<'s>>,
    from: int,
    at: int,
    base: Expression<'s>,
)
    requires
        0 <= from <= at <= items.len() <= usize::MAX,
        spelling::end_of_expression(base, items, Some(from)) == Some(at),
        spelling::tightness(base) >= 13,
    ensures
        match expression::postfix_tail_at(items, at, base) {
            Ok((next, tree)) => {
                &&& at <= next <= items.len()
                &&& spelling::end_of_expression(tree, items, Some(from)) == Some(next)
                &&& spelling::tightness(tree) >= 13
                &&& !spelling::postfix_goes_on(items, next)
            },
            Err(error) => spelling::is_wrong(items, at, error),
        },
    decreases grammar::left(items, at), 0nat,
{
    reveal(expression::postfix_tail_at);
    reveal(expression::expression_at);
    reveal(spelling::end_of_expression);
    if spelling::is_at(items, at, TerminalToken::Dot) {
        if let Ok((next, name)) = name::identifier_at(items, at + 1) {
            lemma_postfix_tail(items, from, next, Expression::Property(Box::new(base), name));
        }
    } else if !spelling::is_inside_line(items, at) {
    } else if spelling::is_at(items, at, TerminalToken::OpenSquare) {
        lemma_expression(items, at + 1);
        if let Ok((next, index)) = expression::expression_at(items, at + 1) {
            if spelling::is_at(items, next, TerminalToken::CloseSquare) {
                lemma_postfix_tail(
                    items,
                    from,
                    next + 1,
                    Expression::Index(Box::new(base), Box::new(index)),
                );
            }
        }
    } else if spelling::is_at(items, at, TerminalToken::OpenBracket) {
        let _ = super::entry::lemma_arguments(items, at + 1, Seq::empty());
        if let Ok((next, arguments)) = expression::arguments_from(items, at + 1, Seq::empty()) {
            lemma_postfix_tail(items, from, next, Expression::Call(Box::new(base), arguments));
        }
    } else if spelling::is_at(items, at, TerminalToken::Increment) {
        lemma_postfix_tail(
            items,
            from,
            at + 1,
            Expression::Postfix(PostfixOperator::Increment, Box::new(base)),
        );
    } else if spelling::is_at(items, at, TerminalToken::Decrement) {
        lemma_postfix_tail(
            items,
            from,
            at + 1,
            Expression::Postfix(PostfixOperator::Decrement, Box::new(base)),
        );
    }
}

pub(crate) proof fn lemma_postfix<'s>(items: Seq<TokenItem<'s>>, at: int)
    requires
        0 <= at <= items.len() <= usize::MAX,
    ensures
        match expression::postfix_at(items, at) {
            Ok((next, tree)) => {
                &&& at < next <= items.len()
                &&& spelling::end_of_expression(tree, items, Some(at)) == Some(next)
                &&& spelling::tightness(tree) >= 13
                &&& !spelling::postfix_goes_on(items, next)
            },
            Err(error) => spelling::is_wrong(items, at, error),
        },
    decreases grammar::left(items, at), 9nat,
{
    reveal(expression::postfix_at);
    reveal(expression::primary_at);
    reveal(expression::postfix_tail_at);
    reveal(spelling::end_of_expression);
    lemma_primary(items, at);
    if let Ok((next, base)) = expression::primary_at(items, at) {
        lemma_postfix_tail(items, at, next, base);
    }
}

pub(crate) proof fn lemma_unary<'s>(items: Seq<TokenItem<'s>>, at: int)
    requires
        0 <= at <= items.len() <= usize::MAX,
    ensures
        match expression::unary_at(items, at) {
            Ok((next, tree)) => {
                &&& at < next <= items.len()
                &&& spelling::end_of_expression(tree, items, Some(at)) == Some(next)
                &&& spelling::tightness(tree) >= 12
                &&& !spelling::postfix_goes_on(items, next)
            },
            Err(error) => spelling::is_wrong(items, at, error),
        },
    decreases grammar::left(items, at), 10nat,
{
    reveal(expression::unary_at);
    reveal(expression::postfix_at);
    reveal(spelling::end_of_expression);
    super::operator::lemma_prefix(items, at);
    match operator::prefix_at(items, at) {
        Some(_) => lemma_unary(items, at + 1),
        None => lemma_postfix(items, at),
    }
}

pub(crate) proof fn lemma_binary_tail<'s>(
    items: Seq<TokenItem<'s>>,
    from: int,
    at: int,
    level: int,
    operand: Expression<'s>,
)
    requires
        0 <= from <= at <= items.len() <= usize::MAX,
        1 <= level <= 11,
        spelling::end_of_expression(operand, items, Some(from)) == Some(at),
        spelling::tightness(operand) > level,
        !spelling::postfix_goes_on(items, at),
        forall|infix: BinaryOperator, next: int|
            operator::infix_at(items, at) == Some((infix, next)) ==> spelling::tightness(operand)
                >= spelling::precedence(infix),
    ensures
        match expression::binary_tail_at(items, at, level, operand) {
            Ok((next, tree)) => {
                &&& at <= next <= items.len()
                &&& spelling::end_of_expression(tree, items, Some(from)) == Some(next)
                &&& spelling::tightness(tree) > level
                &&& !spelling::postfix_goes_on(items, next)
                &&& !spelling::operator_goes_on(items, next, level + 1)
            },
            Err(error) => spelling::is_wrong(items, at, error),
        },
    decreases grammar::left(items, at), 0nat,
{
    reveal(expression::binary_tail_at);
    reveal(expression::binary_at);
    reveal(spelling::end_of_expression);
    super::operator::lemma_infix(items, at);
    if let Some((infix, next)) = operator::infix_at(items, at) {
        let tight = operator::level_of(infix);
        if tight >= level {
            lemma_binary(items, next, tight + 1);
            if let Ok((after, right)) = expression::binary_at(items, next, tight + 1) {
                super::operator::lemma_infix(items, after);
                lemma_binary_tail(
                    items,
                    from,
                    after,
                    level,
                    Expression::Binary(infix, Box::new(operand), Box::new(right)),
                );
            }
        }
    }
}

pub(crate) proof fn lemma_binary<'s>(items: Seq<TokenItem<'s>>, at: int, level: int)
    requires
        0 <= at <= items.len() <= usize::MAX,
        1 <= level <= 11,
    ensures
        match expression::binary_at(items, at, level) {
            Ok((next, tree)) => {
                &&& at < next <= items.len()
                &&& spelling::end_of_expression(tree, items, Some(at)) == Some(next)
                &&& spelling::tightness(tree) > level
                &&& !spelling::postfix_goes_on(items, next)
                &&& !spelling::operator_goes_on(items, next, level + 1)
            },
            Err(error) => spelling::is_wrong(items, at, error),
        },
    decreases grammar::left(items, at), 11nat,
{
    reveal(expression::binary_at);
    reveal(expression::unary_at);
    reveal(expression::binary_tail_at);
    reveal(spelling::end_of_expression);
    lemma_unary(items, at);
    if let Ok((next, operand)) = expression::unary_at(items, at) {
        super::operator::lemma_infix(items, next);
        lemma_binary_tail(items, at, next, level, operand);
    }
}

pub(crate) proof fn lemma_sum<'s>(items: Seq<TokenItem<'s>>, at: int)
    requires
        0 <= at <= items.len() <= usize::MAX,
    ensures
        match expression::sum_at(items, at) {
            Ok((next, tree)) => {
                &&& at < next <= items.len()
                &&& spelling::end_of_expression(tree, items, Some(at)) == Some(next)
                &&& spelling::tightness(tree) >= 10
            },
            Err(error) => spelling::is_wrong(items, at, error),
        },
    decreases grammar::left(items, at), 12nat,
{
    reveal(expression::sum_at);
    reveal(expression::binary_at);
    reveal(spelling::end_of_expression);
    lemma_binary(items, at, 9);
}

pub(crate) proof fn lemma_ternary<'s>(items: Seq<TokenItem<'s>>, at: int)
    requires
        0 <= at <= items.len() <= usize::MAX,
    ensures
        match expression::ternary_at(items, at) {
            Ok((next, tree)) => {
                &&& at < next <= items.len()
                &&& spelling::end_of_expression(tree, items, Some(at)) == Some(next)
                &&& spelling::tightness(tree) >= 1
                &&& !spelling::postfix_goes_on(items, next)
                &&& !spelling::operator_goes_on(items, next, 1)
                &&& !spelling::is_at(items, next, TerminalToken::Question)
            },
            Err(error) => spelling::is_wrong(items, at, error),
        },
    decreases grammar::left(items, at), 13nat,
{
    reveal(expression::ternary_at);
    reveal(expression::binary_at);
    reveal(expression::expression_at);
    reveal(spelling::end_of_expression);
    lemma_binary(items, at, 1);
    if let Ok((next, _)) = expression::binary_at(items, at, 1) {
        if spelling::is_at(items, next, TerminalToken::Question) {
            lemma_expression(items, next + 1);
            if let Ok((middle, _)) = expression::expression_at(items, next + 1) {
                if spelling::is_at(items, middle, TerminalToken::Colon) {
                    lemma_expression(items, middle + 1);
                }
            }
        }
    }
}

pub(crate) proof fn lemma_assignment<'s>(items: Seq<TokenItem<'s>>, at: int)
    requires
        0 <= at <= items.len() <= usize::MAX,
    ensures
        match expression::assignment_at(items, at) {
            Ok((next, tree)) => {
                &&& at < next <= items.len()
                &&& spelling::end_of_expression(tree, items, Some(at)) == Some(next)
                &&& !spelling::goes_on(items, next)
            },
            Err(error) => spelling::is_wrong(items, at, error),
        },
    decreases grammar::left(items, at), 14nat,
{
    reveal(expression::assignment_at);
    reveal(expression::ternary_at);
    reveal(expression::expression_at);
    reveal(spelling::end_of_expression);
    lemma_ternary(items, at);
    if let Ok((next, _)) = expression::ternary_at(items, at) {
        super::operator::lemma_assign(items, next);
        if operator::assign_at(items, next) is Some {
            lemma_expression(items, next + 1);
        }
    }
}

pub(crate) proof fn lemma_expression<'s>(items: Seq<TokenItem<'s>>, at: int)
    requires
        0 <= at <= items.len() <= usize::MAX,
    ensures
        match expression::expression_at(items, at) {
            Ok((next, tree)) => {
                &&& at < next <= items.len()
                &&& spelling::end_of_expression(tree, items, Some(at)) == Some(next)
                &&& !spelling::goes_on(items, next)
            },
            Err(error) => spelling::is_wrong(items, at, error),
        },
    decreases grammar::left(items, at), 15nat,
{
    reveal(expression::expression_at);
    reveal(expression::assignment_at);
    reveal(spelling::end_of_expression);
    lemma_assignment(items, at);
}

} // verus!
