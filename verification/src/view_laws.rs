use crate::lexer::error::{ErrorTypeView, LexerError, LexerErrorType};
use crate::lexer::{PartialTokenization, TokenItem, TokenRegion};
use crate::parser::{ParseRecovery, ParsedStatement, PartialParse};
use crate::token::{
    Comment, CommentView, LiteralToken, LiteralView, TerminalToken, Token, TokenLine, TokenType,
    TypeView,
};
use vstd::prelude::*;
use vstd::string::StringSliceAdditionalSpecFns;

verus! {

/// The kind of a token and its text are in its value, and two kinds never have the same value
/// unless they are the same terminal or the same kind with the same text.
pub proof fn law_kinds_keep_their_text(ty: TokenType<'_>, terminal: TerminalToken, text: Seq<u8>)
    ensures
        ty@ == TypeView::Terminal(terminal) <==> ty == TokenType::Terminal(terminal),
        ty@ == TypeView::Identifier(text) <==> (ty matches TokenType::Identifier(found)
            && found.spec_bytes() == text),
        ty@ == TypeView::Literal(LiteralView::Int(text)) <==> (ty matches TokenType::Literal(
            LiteralToken::Int(found),
        ) && found.spec_bytes() == text),
        ty@ == TypeView::Literal(LiteralView::Float(text)) <==> (ty matches TokenType::Literal(
            LiteralToken::Float(found),
        ) && found.spec_bytes() == text),
        ty@ == TypeView::Literal(LiteralView::Char(text)) <==> (ty matches TokenType::Literal(
            LiteralToken::Char(found),
        ) && found.spec_bytes() == text),
        ty@ == TypeView::Literal(LiteralView::String(text)) <==> (ty matches TokenType::Literal(
            LiteralToken::String(found),
        ) && found.spec_bytes() == text),
        ty@ == TypeView::Literal(LiteralView::VerbatimString(text)) <==> (
        ty matches TokenType::Literal(LiteralToken::VerbatimString(found)) && found.spec_bytes()
            == text),
        ty@ == TypeView::Literal(LiteralView::Asset(text)) <==> (ty matches TokenType::Literal(
            LiteralToken::Asset(found),
        ) && found.spec_bytes() == text),
{
}

/// The kind of a comment and its text are in its value.
pub proof fn law_comments_keep_their_text(comment: Comment<'_>, text: Seq<u8>)
    ensures
        comment@ == CommentView::SingleLine(text) <==> (comment matches Comment::SingleLine(found)
            && found.spec_bytes() == text),
        comment@ == CommentView::MultiLine(text) <==> (comment matches Comment::MultiLine(found)
            && found.spec_bytes() == text),
        comment@ == CommentView::ScriptStyle(text) <==> (comment matches Comment::ScriptStyle(
            found,
        ) && found.spec_bytes() == text),
{
}

/// A line has the comments that it holds, in their order.
pub proof fn law_lines_keep_their_comments(line: TokenLine<'_>, index: int)
    ensures
        line@.len() == line.comments@.len(),
        0 <= index < line@.len() ==> line@[index] == line.comments@[index]@,
{
}

/// A token has the kind, the range, the comments and the lines that it holds.
pub proof fn law_tokens_keep_what_they_hold(token: Token<'_>, index: int)
    ensures
        token@.ty == token.ty@,
        token@.start == token.range.start,
        token@.end == token.range.end,
        token@.comments.len() == token.comments@.len(),
        0 <= index < token@.comments.len() ==> token@.comments[index] == token.comments@[index]@,
        token@.before_lines.len() == token.before_lines@.len(),
        0 <= index < token@.before_lines.len() ==> token@.before_lines[index]
            == token.before_lines@[index]@,
        token@.new_line is Some <==> token.new_line is Some,
        token.new_line matches Some(line) ==> token@.new_line == Some(line@),
{
}

/// An item has the token and the index that it holds, and a region has its items in their order.
pub proof fn law_regions_keep_what_they_hold(
    item: TokenItem<'_>,
    region: TokenRegion<'_>,
    index: int,
)
    ensures
        item@.token == item.token@,
        item@.close_index is Some <==> item.close_index is Some,
        item.close_index matches Some(close) ==> item@.close_index == Some(close as int),
        region@.ends_at_error == region.ends_at_error,
        region@.tokens.len() == region.tokens@.len(),
        0 <= index < region@.tokens.len() ==> region@.tokens[index] == region.tokens@[index]@,
{
}

/// What is recovered from a text has its regions and its errors in their order.
pub proof fn law_recovered_text_keeps_what_it_holds(partial: PartialTokenization<'_>, index: int)
    ensures
        partial@.regions.len() == partial.regions@.len(),
        0 <= index < partial@.regions.len() ==> partial@.regions[index]
            == partial.regions@[index]@,
        partial@.errors.len() == partial.errors@.len(),
        0 <= index < partial@.errors.len() ==> partial@.errors[index] == partial.errors@[index]@,
{
}

/// An error about a text has the range that it holds, and says what is wrong with the same tokens.
pub proof fn law_errors_keep_what_they_hold(error: LexerError<'_>)
    ensures
        error@.start == error.range.start,
        error@.end == error.range.end,
        error@.ty is InvalidInput <==> error.ty is InvalidInput,
        error@.ty is EndOfLineInsideString <==> error.ty is EndOfLineInsideString,
        error@.ty is EndOfInputInsideString <==> error.ty is EndOfInputInsideString,
        error@.ty is EndOfInputInsideComment <==> error.ty is EndOfInputInsideComment,
        error.ty matches LexerErrorType::MismatchedClose { open, expected_close, actual_close }
            ==> error@.ty == (ErrorTypeView::MismatchedClose {
            open: open@,
            expected_close: expected_close@,
            actual_close: actual_close@,
        }),
        error.ty matches LexerErrorType::UnmatchedClose { close } ==> error@.ty == (
        ErrorTypeView::UnmatchedClose { close: close@ }),
        error.ty matches LexerErrorType::UnmatchedOpener { open, close } ==> error@.ty == (
        ErrorTypeView::UnmatchedOpener { open: open@, close: close@ }),
{
}

/// A statement and an error that stands in place of one have the ranges that they hold.
pub proof fn law_statements_keep_their_ranges(statement: ParsedStatement<'_>, error: ParseRecovery)
    ensures
        statement@.statement == statement.statement,
        statement@.start == statement.token_range.start,
        statement@.end == statement.token_range.end,
        error@.error == error.error,
        error@.start == error.token_range.start,
        error@.end == error.token_range.end,
{
}

/// What is recovered from tokens has its statements and its errors in their order.
pub proof fn law_recovered_program_keeps_what_it_holds(partial: PartialParse<'_>, index: int)
    ensures
        partial@.statements.len() == partial.statements@.len(),
        0 <= index < partial@.statements.len() ==> partial@.statements[index]
            == partial.statements@[index]@,
        partial@.errors.len() == partial.errors@.len(),
        0 <= index < partial@.errors.len() ==> partial@.errors[index] == partial.errors@[index]@,
{
}

} // verus!
