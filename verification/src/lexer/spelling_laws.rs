use crate::flavor::Flavor;
use crate::lexer::token_iter::Lexed;
use crate::lexer::{lexeme, spelling, terminal, token_iter, trivia};
use crate::token::{CommentView, LiteralView, TerminalToken, TypeView};
use vstd::prelude::*;
use vstd::string::StringSliceAdditionalSpecFns;

verus! {

/// An operator or a delimiter is read if and only if its bytes stand at a place, and the longest
/// one is.
pub proof fn law_symbols_are_read_from_their_bytes(bytes: Seq<u8>, at: int)
    requires
        0 <= at < bytes.len(),
    ensures
        match terminal::symbol_at(bytes, at) {
            Some((symbol, end)) => {
                &&& spelling::is_symbol(symbol)
                &&& at < end <= bytes.len()
                &&& bytes.subrange(at, end) == spelling::terminal_bytes(symbol)
                &&& forall|other: TerminalToken|
                    #![trigger spelling::terminal_bytes(other)]
                    spelling::is_symbol(other) && spelling::holds_at(
                        bytes,
                        at,
                        spelling::terminal_bytes(other),
                    ) ==> spelling::terminal_bytes(other).len() <= end - at
            },
            None => forall|other: TerminalToken|
                #![trigger spelling::terminal_bytes(other)]
                spelling::is_symbol(other) ==> !spelling::holds_at(
                    bytes,
                    at,
                    spelling::terminal_bytes(other),
                ),
        },
{
    reveal(terminal::symbol_at);
    if let Some((symbol, end)) = terminal::symbol_at(bytes, at) {
        assert(bytes.subrange(at, end) =~= spelling::terminal_bytes(symbol));
    }
    assert forall|other: TerminalToken|
        #![trigger spelling::terminal_bytes(other)]
        spelling::is_symbol(other) && spelling::holds_at(
            bytes,
            at,
            spelling::terminal_bytes(other),
        ) implies (terminal::symbol_at(bytes, at) matches Some((_, end))
        && spelling::terminal_bytes(other).len() <= end - at) by {
        let part = spelling::terminal_bytes(other);
        assert(bytes[at + 0] == part[0]);
        if part.len() > 1 {
            assert(bytes[at + 1] == part[1]);
        }
        if part.len() > 2 {
            assert(bytes[at + 2] == part[2]);
        }
    }
}

/// A word is a keyword if and only if it is written as one.
pub proof fn law_keywords_are_read_from_their_bytes(word: Seq<u8>)
    ensures
        match terminal::keyword_of(word) {
            Some(keyword) => !spelling::is_symbol(keyword) && word == spelling::terminal_bytes(
                keyword,
            ),
            None => forall|keyword: TerminalToken|
                #![trigger spelling::terminal_bytes(keyword)]
                !spelling::is_symbol(keyword) ==> word != spelling::terminal_bytes(keyword),
        },
{
    reveal(terminal::keyword_of);
}

proof fn lemma_word(bytes: Seq<u8>, at: int)
    requires
        0 <= at <= bytes.len(),
    ensures
        at <= lexeme::word_end(bytes, at) <= bytes.len(),
        forall|i: int|
            at <= i < lexeme::word_end(bytes, at) ==> spelling::is_letter(#[trigger] bytes[i])
                || spelling::is_decimal(bytes[i]),
        lexeme::word_end(bytes, at) < bytes.len() ==> !spelling::is_letter(
            bytes[lexeme::word_end(bytes, at)],
        ) && !spelling::is_decimal(bytes[lexeme::word_end(bytes, at)]),
    decreases bytes.len() - at,
{
    if at < bytes.len() && (lexeme::starts_word(bytes[at]) || lexeme::is_digit(bytes[at])) {
        lemma_word(bytes, at + 1);
    }
}

proof fn lemma_digits(bytes: Seq<u8>, at: int)
    requires
        0 <= at <= bytes.len(),
    ensures
        at <= lexeme::digits_end(bytes, at) <= bytes.len(),
        forall|i: int|
            at <= i < lexeme::digits_end(bytes, at) ==> spelling::is_decimal(#[trigger] bytes[i]),
        lexeme::digits_end(bytes, at) < bytes.len() ==> !spelling::is_decimal(
            bytes[lexeme::digits_end(bytes, at)],
        ),
    decreases bytes.len() - at,
{
    if at < bytes.len() && lexeme::is_digit(bytes[at]) {
        lemma_digits(bytes, at + 1);
    }
}

proof fn lemma_hex(bytes: Seq<u8>, at: int)
    requires
        0 <= at <= bytes.len(),
    ensures
        at <= lexeme::hex_end(bytes, at) <= bytes.len(),
        forall|i: int|
            at <= i < lexeme::hex_end(bytes, at) ==> spelling::is_hexadecimal(#[trigger] bytes[i]),
        lexeme::hex_end(bytes, at) < bytes.len() ==> !spelling::is_hexadecimal(
            bytes[lexeme::hex_end(bytes, at)],
        ),
    decreases bytes.len() - at,
{
    if at < bytes.len() && lexeme::is_hex_digit(bytes[at]) {
        lemma_hex(bytes, at + 1);
    }
}

proof fn lemma_character(bytes: Seq<u8>, at: int)
    requires
        0 <= at <= bytes.len(),
    ensures
        at <= lexeme::character_end(bytes, at) <= bytes.len(),
        forall|i: int|
            at <= i < lexeme::character_end(bytes, at) ==> vstd::utf8::is_continuation_byte(
                #[trigger] bytes[i],
            ),
        lexeme::character_end(bytes, at) < bytes.len() ==> !vstd::utf8::is_continuation_byte(
            bytes[lexeme::character_end(bytes, at)],
        ),
    decreases bytes.len() - at,
{
    if at < bytes.len() && vstd::utf8::is_continuation_byte(bytes[at]) {
        lemma_character(bytes, at + 1);
    }
}

proof fn lemma_number(bytes: Seq<u8>, at: int)
    requires
        0 <= at < bytes.len(),
        spelling::is_decimal(bytes[at]),
    ensures
        ({
            let (number, end) = lexeme::number_at(bytes, at);
            &&& at < end <= bytes.len()
            &&& spelling::is_literal(number, bytes, at, end)
        }),
{
    let (number, end) = lexeme::number_at(bytes, at);
    if lexeme::starts_hex(bytes, at) {
        lemma_hex(bytes, at + 2);
        assert(spelling::hexadecimal_starts(bytes, at));
        assert(lexeme::hex_end(bytes, at + 2) > at + 2);
    } else {
        lemma_digits(bytes, at);
        let whole = lexeme::digits_end(bytes, at);
        assert(whole > at);
        assert(spelling::is_digits(bytes, at, whole));
        let fraction = lexeme::fraction_end(bytes, whole);
        if spelling::fraction_starts(bytes, whole) {
            lemma_digits(bytes, whole + 2);
            assert(spelling::is_digits(bytes, whole + 1, fraction));
        }
        match spelling::exponent_digits(bytes, fraction) {
            Some(digits) => {
                lemma_digits(bytes, digits + 1);
                assert(spelling::is_digits(bytes, digits, end));
            },
            None => {},
        }
        if whole < end {
            assert(spelling::is_float_split(bytes, at, whole, fraction, end));
        }
    }
}

proof fn lemma_quoted(bytes: Seq<u8>, at: int, quote: u8)
    requires
        0 <= at <= bytes.len(),
        quote != '\\' as u8,
        quote != '\n' as u8,
    ensures
        match lexeme::quoted_end(bytes, at, quote) {
            Ok(end) => {
                &&& at < end <= bytes.len()
                &&& bytes[end - 1] == quote
                &&& spelling::is_quotable(bytes, at, end - 1, quote)
            },
            Err((ty, end)) => {
                &&& at <= end <= bytes.len()
                &&& spelling::is_still_quoted(bytes, at, end, quote)
                &&& ty is EndOfLineInsideString && spelling::byte_at(bytes, end, '\n' as u8)
                    || ty is EndOfInputInsideString && end == bytes.len()
            },
        },
    decreases bytes.len() - at,
{
    if at < bytes.len() && bytes[at] != quote && bytes[at] != '\n' as u8 {
        if bytes[at] == '\\' as u8 && at + 1 < bytes.len() && bytes[at + 1] != '\n' as u8 {
            lemma_quoted(bytes, at + 2, quote);
        } else if bytes[at] == '\\' as u8 {
            lemma_quoted(bytes, at + 1, quote);
            assert(spelling::is_quotable(bytes, at, at, quote));
        } else {
            lemma_quoted(bytes, at + 1, quote);
        }
    }
}

proof fn lemma_verbatim(bytes: Seq<u8>, at: int)
    requires
        0 <= at <= bytes.len(),
    ensures
        match lexeme::verbatim_end(bytes, at) {
            Some(end) => {
                &&& at < end <= bytes.len()
                &&& bytes[end - 1] == '"' as u8
                &&& spelling::is_verbatim(bytes, at, end - 1)
                &&& !spelling::byte_at(bytes, end, '"' as u8)
            },
            None => spelling::is_verbatim(bytes, at, bytes.len() as int),
        },
    decreases bytes.len() - at,
{
    if at < bytes.len() {
        if bytes[at] == '"' as u8 {
            if spelling::byte_at(bytes, at + 1, '"' as u8) {
                lemma_verbatim(bytes, at + 2);
            } else {
                assert(spelling::is_verbatim(bytes, at, at));
            }
        } else {
            lemma_verbatim(bytes, at + 1);
        }
    }
}

/// What is read at a place where neither a blank nor a comment that is closed stands is a whole
/// token, or text that no token can be read from.
pub proof fn law_tokens_are_read_from_their_bytes(bytes: Seq<u8>, at: int)
    requires
        0 <= at < bytes.len(),
        !spelling::comment_starts(bytes, at),
    ensures
        match lexeme::lexeme_at(bytes, at) {
            Ok((ty, end)) => at < end <= bytes.len() && spelling::is_token(ty, bytes, at, end),
            Err((ty, end)) => spelling::is_no_token(ty, bytes, at, end),
        },
{
    let first = bytes[at];
    let double = '"' as u8;
    let single = '\'' as u8;
    if lexeme::starts_word(first) {
        lemma_word(bytes, at);
        let end = lexeme::word_end(bytes, at);
        assert(end > at);
        assert(spelling::is_word(bytes, at, end));
        law_keywords_are_read_from_their_bytes(bytes.subrange(at, end));
    } else if lexeme::is_digit(first) {
        lemma_number(bytes, at);
    } else if first == double {
        lemma_quoted(bytes, at + 1, double);
    } else if first == single {
        lemma_quoted(bytes, at + 1, single);
    } else if first == '$' as u8 && spelling::byte_at(bytes, at + 1, double) {
        lemma_quoted(bytes, at + 2, double);
    } else if first == '@' as u8 && spelling::byte_at(bytes, at + 1, double) {
        lemma_verbatim(bytes, at + 2);
    } else if first == '/' as u8 && spelling::byte_at(bytes, at + 1, '*' as u8) {
        assert(spelling::is_open_comment(bytes, at));
    } else {
        law_symbols_are_read_from_their_bytes(bytes, at);
        lemma_character(bytes, at + 1);
    }
}

proof fn lemma_line(bytes: Seq<u8>, at: int)
    requires
        0 <= at <= bytes.len(),
    ensures
        spelling::ends_with_line(bytes, at, trivia::line_end(bytes, at)),
    decreases bytes.len() - at,
{
    if at < bytes.len() && bytes[at] != '\n' as u8 {
        lemma_line(bytes, at + 1);
    }
}

/// A block comment ends behind the first `*/` behind its start, and is left open if and only if
/// there is none.
pub proof fn law_block_comments_end_with_the_first_mark(bytes: Seq<u8>, at: int)
    requires
        0 <= at,
    ensures
        match trivia::block_end(bytes, at) {
            Some(end) => {
                &&& at + 2 <= end <= bytes.len()
                &&& spelling::closes_comment(bytes, end - 2)
                &&& forall|p: int| at <= p < end - 2 ==> !#[trigger] spelling::closes_comment(
                    bytes,
                    p,
                )
            },
            None => forall|p: int| at <= p ==> !#[trigger] spelling::closes_comment(bytes, p),
        },
    decreases bytes.len() - at,
{
    if at < bytes.len() && !spelling::closes_comment(bytes, at) {
        law_block_comments_end_with_the_first_mark(bytes, at + 1);
    }
}

/// A comment is read if and only if one that is closed starts at a place, and it is read to its
/// end.
pub proof fn law_comments_are_read_from_their_bytes(bytes: Seq<u8>, at: int)
    requires
        0 <= at <= bytes.len(),
    ensures
        match trivia::comment_at(bytes, at) {
            Some((comment, end)) => {
                &&& at < end <= bytes.len()
                &&& end == at + spelling::comment_bytes(comment).len()
                &&& spelling::is_comment(comment, bytes, at, end)
            },
            None => !spelling::comment_starts(bytes, at),
        },
{
    if spelling::byte_at(bytes, at, '#' as u8) {
        lemma_line(bytes, at + 1);
    } else if spelling::byte_at(bytes, at, '/' as u8) {
        if spelling::byte_at(bytes, at + 1, '/' as u8) {
            lemma_line(bytes, at + 2);
        } else {
            law_block_comments_end_with_the_first_mark(bytes, at + 2);
        }
    }
}

proof fn lemma_line_comments(bytes: Seq<u8>, at: int, found: Seq<CommentView>) -> (read: Seq<
    CommentView,
>)
    requires
        0 <= at <= bytes.len(),
    ensures
        trivia::rest_of_line(bytes, at, found).0 == found + read,
        spelling::end_of_comments(read, bytes, at) == Some(
            trivia::rest_of_line(bytes, at, found).1,
        ),
        at <= trivia::rest_of_line(bytes, at, found).1 <= bytes.len(),
    decreases bytes.len() - at,
{
    if at < bytes.len() && trivia::is_blank(bytes[at]) {
        let read = lemma_line_comments(bytes, at + 1, found);
        assert(spelling::behind_blanks(bytes, at) == spelling::behind_blanks(bytes, at + 1));
        read
    } else {
        law_comments_are_read_from_their_bytes(bytes, at);
        assert(spelling::behind_blanks(bytes, at) == at);
        match trivia::comment_at(bytes, at) {
            Some((comment, end)) => {
                let rest = lemma_line_comments(bytes, end, found.push(comment));
                let read = seq![comment] + rest;
                assert(found.push(comment) + rest =~= found + read);
                assert(read.drop_first() =~= rest);
                read
            },
            None => {
                assert(found + Seq::empty() =~= found);
                Seq::empty()
            },
        }
    }
}

/// The comments of the rest of a line are read in their order, with nothing but blanks between
/// them.
pub proof fn law_line_comments_are_read_from_their_bytes(bytes: Seq<u8>, at: int)
    requires
        0 <= at <= bytes.len(),
    ensures
        spelling::end_of_comments(trivia::rest_of_line(bytes, at, Seq::empty()).0, bytes, at)
            == Some(trivia::rest_of_line(bytes, at, Seq::empty()).1),
{
    let read = lemma_line_comments(bytes, at, Seq::empty());
    assert(Seq::empty() + read =~= read);
}

proof fn lemma_gap(bytes: Seq<u8>, at: int, lines: Seq<Seq<CommentView>>) -> (read: Seq<
    Seq<CommentView>,
>)
    requires
        0 <= at <= bytes.len(),
    ensures
        trivia::gap_from(bytes, at, lines).lines == lines + read,
        spelling::end_of_gap(read, trivia::gap_from(bytes, at, lines).comments, bytes, at) == Some(
            trivia::gap_from(bytes, at, lines).end,
        ),
        at <= trivia::gap_from(bytes, at, lines).end <= bytes.len(),
    decreases bytes.len() - at,
{
    let (comments, end) = trivia::rest_of_line(bytes, at, Seq::empty());
    trivia::lemma_rest_of_line(bytes, at, Seq::empty());
    law_line_comments_are_read_from_their_bytes(bytes, at);
    if spelling::byte_at(bytes, end, '\n' as u8) {
        let rest = lemma_gap(bytes, end + 1, lines.push(comments));
        let read = seq![comments] + rest;
        assert(lines.push(comments) + rest =~= lines + read);
        assert(read.drop_first() =~= rest);
        read
    } else {
        assert(lines + Seq::empty() =~= lines);
        Seq::empty()
    }
}

proof fn lemma_gap_end(
    lines: Seq<Seq<CommentView>>,
    comments: Seq<CommentView>,
    bytes: Seq<u8>,
    at: int,
)
    ensures
        spelling::end_of_gap(lines, comments, bytes, at) matches Some(end)
            ==> !spelling::comment_starts(bytes, end),
    decreases lines.len(),
{
    if lines.len() == 0 {
        lemma_comments_end(comments, bytes, at);
    } else if let Some(end) = spelling::end_of_comments(lines[0], bytes, at) {
        lemma_gap_end(lines.drop_first(), comments, bytes, end + 1);
    }
}

proof fn lemma_comments_end(comments: Seq<CommentView>, bytes: Seq<u8>, at: int)
    ensures
        spelling::end_of_comments(comments, bytes, at) matches Some(end)
            ==> !spelling::comment_starts(bytes, end),
    decreases comments.len(),
{
    if comments.len() > 0 {
        let end = spelling::behind_blanks(bytes, at) + spelling::comment_bytes(comments[0]).len();
        lemma_comments_end(comments.drop_first(), bytes, end);
    }
}

/// Whether the rest of a text holds nothing but blanks, line breaks and comments.
pub open spec fn is_only_gap(bytes: Seq<u8>, at: int) -> bool {
    exists|lines: Seq<Seq<CommentView>>, comments: Seq<CommentView>|
        #[trigger] spelling::end_of_gap(lines, comments, bytes, at) == Some(bytes.len() as int)
}

/// Whether only blanks, line breaks and comments stand between two places, and none behind.
pub open spec fn is_gap(bytes: Seq<u8>, start: int, end: int) -> bool {
    exists|lines: Seq<Seq<CommentView>>, comments: Seq<CommentView>|
        #[trigger] spelling::end_of_gap(lines, comments, bytes, start) == Some(end)
}

/// Each step reads everything that stands in the text: the lines and comments before a token, the
/// token, and the rest of its line if it is the last one there. An error takes text that no token
/// can be read from. The text ends where nothing but blanks, line breaks and comments is left.
pub proof fn law_steps_read_all_of_the_text(bytes: Seq<u8>, at: int)
    requires
        0 <= at <= bytes.len(),
    ensures
        match token_iter::next_from(bytes, at) {
            Some((Ok(token), next)) => {
                &&& spelling::end_of_gap(token.before_lines, token.comments, bytes, at) == Some(
                    token.start,
                )
                &&& token.start < token.end <= next <= bytes.len()
                &&& spelling::is_token(token.ty, bytes, token.start, token.end)
                &&& match token.new_line {
                    Some(comments) => {
                        &&& spelling::end_of_comments(comments, bytes, token.end) == Some(next - 1)
                        &&& spelling::byte_at(bytes, next - 1, '\n' as u8)
                    },
                    None => {
                        &&& next == token.end
                        &&& exists|comments: Seq<CommentView>|
                            (#[trigger] spelling::end_of_comments(comments, bytes, token.end)
                                matches Some(end) && !spelling::byte_at(bytes, end, '\n' as u8))
                    },
                }
            },
            Some((Err(error), next)) => {
                &&& is_gap(bytes, at, error.start)
                &&& next == error.end
                &&& spelling::is_no_token(error.ty, bytes, error.start, error.end)
            },
            None => is_only_gap(bytes, at),
        },
{
    let gap = trivia::gap_from(bytes, at, Seq::empty());
    let read = lemma_gap(bytes, at, Seq::empty());
    assert(Seq::empty() + read =~= read);
    assert(spelling::end_of_gap(gap.lines, gap.comments, bytes, at) == Some(gap.end));
    lemma_gap_end(gap.lines, gap.comments, bytes, at);
    if gap.end < bytes.len() {
        law_tokens_are_read_from_their_bytes(bytes, gap.end);
        if let Ok((ty, end)) = lexeme::lexeme_at(bytes, gap.end) {
            law_line_comments_are_read_from_their_bytes(bytes, end);
            trivia::lemma_rest_of_line(bytes, end, Seq::empty());
        }
    }
}

/// Whether tokens and errors are what stands in a text from a place on, with nothing left out.
pub open spec fn reads_text(found: Seq<Lexed>, bytes: Seq<u8>, at: int) -> bool
    decreases found.len(),
{
    if found.len() == 0 {
        is_only_gap(bytes, at)
    } else {
        match found[0] {
            Ok(token) => {
                &&& spelling::end_of_gap(token.before_lines, token.comments, bytes, at) == Some(
                    token.start,
                )
                &&& spelling::is_token(token.ty, bytes, token.start, token.end)
                &&& match token.new_line {
                    Some(comments) => match spelling::end_of_comments(comments, bytes, token.end) {
                        Some(end) => spelling::byte_at(bytes, end, '\n' as u8) && reads_text(
                            found.drop_first(),
                            bytes,
                            end + 1,
                        ),
                        None => false,
                    },
                    None => reads_text(found.drop_first(), bytes, token.end),
                }
            },
            Err(error) => {
                &&& is_gap(bytes, at, error.start)
                &&& spelling::is_no_token(error.ty, bytes, error.start, error.end)
                &&& reads_text(found.drop_first(), bytes, error.end)
            },
        }
    }
}

proof fn lemma_reads_text(bytes: Seq<u8>, at: int)
    requires
        0 <= at <= bytes.len(),
    ensures
        reads_text(token_iter::lexed_from(bytes, at), bytes, at),
    decreases bytes.len() - at,
{
    law_steps_read_all_of_the_text(bytes, at);
    token_iter::lemma_next_progress(bytes, at);
    if let Some((step, next)) = token_iter::next_from(bytes, at) {
        let found = token_iter::lexed_from(bytes, at);
        assert(found.drop_first() =~= token_iter::lexed_from(bytes, next));
        lemma_reads_text(bytes, next);
    }
}

/// The tokens and errors of a text account for all of it: between them stand only blanks, line
/// breaks and comments, and the tokens keep those comments.
pub proof fn law_tokens_account_for_the_text(bytes: Seq<u8>, flavor: Flavor)
    ensures
        reads_text(token_iter::lexed(bytes, flavor), bytes, 0),
{
    lemma_reads_text(bytes, 0);
}

} // verus!
