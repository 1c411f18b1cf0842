use crate::ast::{BinaryOperator, Expression};
use crate::lexer::TokenItem;
use crate::parser::grammar::Parsed;
use crate::parser::parts::read;
use crate::parser::{expression, name, operator, spelling};
use crate::token::TerminalToken;
use vstd::prelude::*;

verus! {

/// The place behind an operand with what stands behind it, read part by part from the innermost to
/// the outermost.
pub open spec fn postfix_end<'s>(
    tree: Expression<'s>,
    items: Seq<TokenItem<'s>>,
    at: int,
) -> Option<int>
    decreases tree,
{
    match tree {
        Expression::Property(base, name) => spelling::end_of_name(
            name,
            items,
            spelling::behind(items, postfix_end(*base, items, at), TerminalToken::Dot),
        ),
        Expression::Index(base, index) => {
            let start = spelling::inside_line(items, postfix_end(*base, items, at));
            let open = spelling::behind(items, start, TerminalToken::OpenSquare);
            spelling::behind(
                items,
                read::expression(*index, items, open),
                TerminalToken::CloseSquare,
            )
        },
        Expression::Call(base, arguments) => {
            let start = spelling::inside_line(items, postfix_end(*base, items, at));
            let open = spelling::behind(items, start, TerminalToken::OpenBracket);
            read::arguments(arguments, items, open)
        },
        Expression::Postfix(operator, base) => {
            let start = spelling::inside_line(items, postfix_end(*base, items, at));
            spelling::behind(items, start, spelling::postfix_token(operator))
        },
        _ => read::primary(tree, items, Some(at)),
    }
}

proof fn lemma_postfix_end<'s>(
    items: Seq<TokenItem<'s>>,
    at: int,
    end: int,
    tree: Expression<'s>,
)
    requires
        0 <= at <= items.len() <= usize::MAX,
        postfix_end(tree, items, at) == Some(end),
    ensures
        at < end <= items.len(),
        expression::postfix_at(items, at) == expression::postfix_tail_at(items, end, tree),
    decreases tree,
{
    reveal(expression::postfix_at);
    reveal(expression::postfix_tail_at);
    match tree {
        Expression::Property(base, _) => {
            lemma_postfix_end(items, at, postfix_end(*base, items, at)->0, *base);
        },
        Expression::Index(base, _) => {
            let mid = postfix_end(*base, items, at)->0;
            lemma_postfix_end(items, at, mid, *base);
            spelling::expression::lemma_expression(items, mid + 1);
        },
        Expression::Call(base, _) => {
            let mid = postfix_end(*base, items, at)->0;
            lemma_postfix_end(items, at, mid, *base);
            let _ = spelling::entry::lemma_arguments(items, mid + 1, Seq::empty());
        },
        Expression::Postfix(_, base) => {
            lemma_postfix_end(items, at, postfix_end(*base, items, at)->0, *base);
        },
        _ => {
            spelling::expression::lemma_primary(items, at);
        },
    }
}

/// An operand is read with all members, indices, calls and steps behind it, if those are read one
/// behind the other.
pub proof fn law_postfix_is_read_by_its_parts<'s>(
    items: Seq<TokenItem<'s>>,
    at: int,
    next: int,
    tree: Expression<'s>,
)
    requires
        0 <= at <= items.len() <= usize::MAX,
        postfix_end(tree, items, at) == Some(next),
        !spelling::postfix_goes_on(items, next),
    ensures
        expression::postfix_at(items, at) == Parsed::Ok((next, tree)),
{
    lemma_postfix_end(items, at, next, tree);
    reveal(expression::postfix_tail_at);
}

/// An operand with what stands behind it fails as the part behind those that are read does.
pub proof fn law_postfix_fails_behind_its_parts<'s>(
    items: Seq<TokenItem<'s>>,
    at: int,
    next: int,
    tree: Expression<'s>,
)
    requires
        0 <= at <= items.len() <= usize::MAX,
    ensures
        read::passes_on(expression::primary_at(items, at), expression::postfix_at(items, at)),
        postfix_end(tree, items, at) == Some(next) ==> {
            let parsed = expression::postfix_at(items, at);
            let is_index = spelling::is_inside_line(items, next)
                && spelling::is_at(items, next, TerminalToken::OpenSquare);
            let index = expression::expression_at(items, next + 1);
            &&& spelling::is_at(items, next, TerminalToken::Dot)
                ==> read::passes_on(name::identifier_at(items, next + 1), parsed)
            &&& is_index ==> read::passes_on(index, parsed)
            &&& is_index ==> (index matches Ok((n, _)) ==> read::needs(
                items,
                Some(n),
                TerminalToken::CloseSquare,
                parsed,
            ))
            &&& spelling::is_inside_line(items, next)
                && spelling::is_at(items, next, TerminalToken::OpenBracket) ==> read::passes_on(
                expression::arguments_from(items, next + 1, Seq::empty()),
                parsed,
            )
        },
{
    reveal(expression::postfix_at);
    if postfix_end(tree, items, at) == Some(next) {
        lemma_postfix_end(items, at, next, tree);
        reveal(expression::postfix_tail_at);
        if next < items.len() {
            spelling::expression::lemma_expression(items, next + 1);
        }
    }
}

/// The place behind operands with operators between them, read part by part from the left. The
/// right operand of each operator is all that binds more tightly than the operator.
pub open spec fn binary_end<'s>(
    tree: Expression<'s>,
    items: Seq<TokenItem<'s>>,
    at: int,
    level: int,
) -> Option<int>
    decreases tree,
{
    match tree {
        Expression::Binary(operator, left, right) => {
            let tight = spelling::precedence(operator);
            let start = spelling::end_of_operator(
                operator,
                items,
                binary_end(*left, items, at, level),
            );
            match start {
                Some(start) => if tight > level && expression::binary_at(items, start, tight)
                    is Ok && expression::binary_at(items, start, tight)->Ok_0.1 == *right {
                    Some(expression::binary_at(items, start, tight)->Ok_0.0)
                } else {
                    None
                },
                None => None,
            }
        },
        _ => read::unary(tree, items, Some(at)),
    }
}

proof fn lemma_binary_end<'s>(
    items: Seq<TokenItem<'s>>,
    at: int,
    end: int,
    level: int,
    tree: Expression<'s>,
)
    requires
        0 <= at <= items.len() <= usize::MAX,
        1 <= level <= 11,
        binary_end(tree, items, at, level) == Some(end),
    ensures
        at < end <= items.len(),
        expression::binary_at(items, at, level) == expression::binary_tail_at(
            items,
            end,
            level,
            tree,
        ),
    decreases tree,
{
    reveal(expression::binary_at);
    reveal(expression::binary_tail_at);
    match tree {
        Expression::Binary(operator, left, _) => {
            let mid = binary_end(*left, items, at, level)->0;
            lemma_binary_end(items, at, mid, level, *left);
            spelling::operator::lemma_infix(items, mid);
            spelling::operator::lemma_only_infix(items, mid, operator);
            let start = spelling::end_of_operator(operator, items, Some(mid))->0;
            spelling::expression::lemma_binary(items, start, spelling::precedence(operator));
        },
        _ => {
            spelling::expression::lemma_unary(items, at);
        },
    }
}

/// Operands are read with all operators between them that bind as tightly as asked for, from the
/// left.
pub proof fn law_binary_is_read_by_its_parts<'s>(
    items: Seq<TokenItem<'s>>,
    at: int,
    next: int,
    level: int,
    tree: Expression<'s>,
)
    requires
        0 <= at <= items.len() <= usize::MAX,
        1 <= level <= 11,
        binary_end(tree, items, at, level) == Some(next),
        !spelling::operator_goes_on(items, next, level + 1),
    ensures
        expression::binary_at(items, at, level) == Parsed::Ok((next, tree)),
{
    lemma_binary_end(items, at, next, level, tree);
    reveal(expression::binary_tail_at);
    spelling::operator::lemma_infix(items, next);
    if let Some((infix, _)) = operator::infix_at(items, next) {
        assert(spelling::stand_at(items, next, spelling::binary_tokens(infix)));
    }
}

/// Operands with operators between them fail as the part behind those that are read does.
pub proof fn law_binary_fails_behind_its_parts<'s>(
    items: Seq<TokenItem<'s>>,
    at: int,
    next: int,
    after: int,
    level: int,
    infix: BinaryOperator,
    tree: Expression<'s>,
)
    requires
        0 <= at <= items.len() <= usize::MAX,
        1 <= level <= 11,
    ensures
        read::passes_on(expression::unary_at(items, at), expression::binary_at(items, at, level)),
        binary_end(tree, items, at, level) == Some(next) && spelling::precedence(infix) > level
            && spelling::end_of_operator(infix, items, Some(next)) == Some(after)
            ==> read::passes_on(
            expression::binary_at(items, after, spelling::precedence(infix)),
            expression::binary_at(items, at, level),
        ),
{
    reveal(expression::binary_at);
    if binary_end(tree, items, at, level) == Some(next) {
        lemma_binary_end(items, at, next, level, tree);
        reveal(expression::binary_tail_at);
        spelling::operator::lemma_infix(items, next);
        spelling::operator::lemma_only_infix(items, next, infix);
    }
}

/// The parts of a vector bind at least as tightly as a sum.
pub proof fn law_sums_are_operands_of_their_level<'s>(items: Seq<TokenItem<'s>>, at: int)
    ensures
        expression::sum_at(items, at) == expression::binary_at(
            items,
            at,
            spelling::precedence(BinaryOperator::Add) - 1,
        ),
{
    reveal(expression::sum_at);
    reveal(expression::binary_at);
}

} // verus!
