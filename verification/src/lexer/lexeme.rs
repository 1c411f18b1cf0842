use crate::lexer::error::{ErrorTypeView, LexerErrorType};
use crate::lexer::terminal::{byte_is, keyword, symbol};
use crate::lexer::{terminal, text};
use crate::lexer::text::slice_text;
use crate::token::{LiteralToken, LiteralView, TokenType, TypeView};
use vstd::prelude::*;
use vstd::string::StringSliceAdditionalSpecFns;

verus! {

/// The bytes that a name can start with.
pub open spec fn starts_word(byte: u8) -> bool {
    ||| 'a' as u8 <= byte <= 'z' as u8
    ||| 'A' as u8 <= byte <= 'Z' as u8
    ||| byte == '_' as u8
}

pub open spec fn is_digit(byte: u8) -> bool {
    '0' as u8 <= byte <= '9' as u8
}

pub open spec fn is_hex_digit(byte: u8) -> bool {
    ||| is_digit(byte)
    ||| 'a' as u8 <= byte <= 'f' as u8
    ||| 'A' as u8 <= byte <= 'F' as u8
}

pub open spec fn has_digit(bytes: Seq<u8>, at: int) -> bool {
    0 <= at < bytes.len() && is_digit(bytes[at])
}

/// The end of the run of name bytes that starts at a byte.
pub open spec fn word_end(bytes: Seq<u8>, at: int) -> int
    decreases bytes.len() - at,
{
    if at < bytes.len() && (starts_word(bytes[at]) || is_digit(bytes[at])) {
        word_end(bytes, at + 1)
    } else {
        at
    }
}

/// The end of the run of digits that starts at a byte.
pub open spec fn digits_end(bytes: Seq<u8>, at: int) -> int
    decreases bytes.len() - at,
{
    if at < bytes.len() && is_digit(bytes[at]) {
        digits_end(bytes, at + 1)
    } else {
        at
    }
}

/// The end of the run of hexadecimal digits that starts at a byte.
pub open spec fn hex_end(bytes: Seq<u8>, at: int) -> int
    decreases bytes.len() - at,
{
    if at < bytes.len() && is_hex_digit(bytes[at]) {
        hex_end(bytes, at + 1)
    } else {
        at
    }
}

/// The end of the continuation bytes that start at a byte.
pub open spec fn character_end(bytes: Seq<u8>, at: int) -> int
    decreases bytes.len() - at,
{
    if at < bytes.len() && vstd::utf8::is_continuation_byte(bytes[at]) {
        character_end(bytes, at + 1)
    } else {
        at
    }
}

/// Whether `0x` and a hexadecimal digit stand at a byte.
pub open spec fn starts_hex(bytes: Seq<u8>, at: int) -> bool {
    &&& terminal::has_byte(bytes, at, '0' as u8)
    &&& terminal::has_byte(bytes, at + 1, 'x' as u8) || terminal::has_byte(
        bytes,
        at + 1,
        'X' as u8,
    )
    &&& at + 2 < bytes.len() && is_hex_digit(bytes[at + 2])
}

/// The end of the fraction that starts at a byte, or that byte if there is none.
pub open spec fn fraction_end(bytes: Seq<u8>, at: int) -> int {
    if terminal::has_byte(bytes, at, '.' as u8) && has_digit(bytes, at + 1) {
        digits_end(bytes, at + 2)
    } else {
        at
    }
}

/// The end of the exponent that starts at a byte, or that byte if there is none.
pub open spec fn exponent_end(bytes: Seq<u8>, at: int) -> int {
    if terminal::has_byte(bytes, at, 'e' as u8) || terminal::has_byte(bytes, at, 'E' as u8) {
        let digits = if terminal::has_byte(bytes, at + 1, '+' as u8) || terminal::has_byte(
            bytes,
            at + 1,
            '-' as u8,
        ) {
            at + 2
        } else {
            at + 1
        };
        if has_digit(bytes, digits) {
            digits_end(bytes, digits + 1)
        } else {
            at
        }
    } else {
        at
    }
}

/// The number that starts at a digit, and where it ends.
pub open spec fn number_at(bytes: Seq<u8>, at: int) -> (LiteralView, int) {
    if starts_hex(bytes, at) {
        let end = hex_end(bytes, at + 2);
        (LiteralView::Int(bytes.subrange(at, end)), end)
    } else {
        let whole = digits_end(bytes, at);
        let end = exponent_end(bytes, fraction_end(bytes, whole));
        if end == whole {
            (LiteralView::Int(bytes.subrange(at, end)), end)
        } else {
            (LiteralView::Float(bytes.subrange(at, end)), end)
        }
    }
}

/// The end of a quoted literal whose inner bytes start at a byte, or why and where it breaks off.
///
/// A backslash keeps the byte behind it from closing the literal. No literal holds a line break.
pub open spec fn quoted_end(bytes: Seq<u8>, at: int, quote: u8) -> Result<
    int,
    (ErrorTypeView, int),
>
    decreases bytes.len() - at,
{
    if at >= bytes.len() {
        Err((ErrorTypeView::EndOfInputInsideString, bytes.len() as int))
    } else if bytes[at] == quote {
        Ok(at + 1)
    } else if bytes[at] == '\n' as u8 {
        Err((ErrorTypeView::EndOfLineInsideString, at))
    } else if bytes[at] == '\\' as u8 && at + 1 < bytes.len() && bytes[at + 1] != '\n' as u8 {
        quoted_end(bytes, at + 2, quote)
    } else {
        quoted_end(bytes, at + 1, quote)
    }
}

/// The end of a verbatim string whose inner bytes start at a byte, if it is closed.
///
/// Two quotes in a row stand for a quote inside of the string.
pub open spec fn verbatim_end(bytes: Seq<u8>, at: int) -> Option<int>
    decreases bytes.len() - at,
{
    if at >= bytes.len() {
        None
    } else if bytes[at] == '"' as u8 {
        if terminal::has_byte(bytes, at + 1, '"' as u8) {
            verbatim_end(bytes, at + 2)
        } else {
            Some(at + 1)
        }
    } else {
        verbatim_end(bytes, at + 1)
    }
}

/// The token that starts at a byte and where it ends, or the error there and where it ends.
///
/// The byte starts neither blank space nor a comment that is closed.
pub open spec fn lexeme_at(bytes: Seq<u8>, at: int) -> Result<
    (TypeView, int),
    (ErrorTypeView, int),
> {
    let first = bytes[at];
    if starts_word(first) {
        let end = word_end(bytes, at);
        let word = bytes.subrange(at, end);
        match terminal::keyword_of(word) {
            Some(keyword) => Ok((TypeView::Terminal(keyword), end)),
            None => Ok((TypeView::Identifier(word), end)),
        }
    } else if is_digit(first) {
        let (number, end) = number_at(bytes, at);
        Ok((TypeView::Literal(number), end))
    } else if first == '"' as u8 {
        match quoted_end(bytes, at + 1, '"' as u8) {
            Ok(end) => Ok((TypeView::Literal(LiteralView::String(bytes.subrange(at, end))), end)),
            Err(error) => Err(error),
        }
    } else if first == '\'' as u8 {
        match quoted_end(bytes, at + 1, '\'' as u8) {
            Ok(end) => Ok((TypeView::Literal(LiteralView::Char(bytes.subrange(at, end))), end)),
            Err(error) => Err(error),
        }
    } else if first == '$' as u8 && terminal::has_byte(bytes, at + 1, '"' as u8) {
        match quoted_end(bytes, at + 2, '"' as u8) {
            Ok(end) => Ok((TypeView::Literal(LiteralView::Asset(bytes.subrange(at, end))), end)),
            Err(error) => Err(error),
        }
    } else if first == '@' as u8 && terminal::has_byte(bytes, at + 1, '"' as u8) {
        match verbatim_end(bytes, at + 2) {
            Some(end) => Ok(
                (TypeView::Literal(LiteralView::VerbatimString(bytes.subrange(at, end))), end),
            ),
            None => Err((ErrorTypeView::EndOfInputInsideString, bytes.len() as int)),
        }
    } else if first == '/' as u8 && terminal::has_byte(bytes, at + 1, '*' as u8) {
        Err((ErrorTypeView::EndOfInputInsideComment, bytes.len() as int))
    } else {
        match terminal::symbol_at(bytes, at) {
            Some((terminal, end)) => Ok((TypeView::Terminal(terminal), end)),
            None => Err((ErrorTypeView::InvalidInput, character_end(bytes, at + 1))),
        }
    }
}

proof fn lemma_word_end(bytes: Seq<u8>, at: int)
    requires
        0 <= at <= bytes.len(),
    ensures
        at <= word_end(bytes, at) <= bytes.len(),
        at < bytes.len() && (starts_word(bytes[at]) || is_digit(bytes[at])) ==> at < word_end(
            bytes,
            at,
        ),
    decreases bytes.len() - at,
{
    if at < bytes.len() && (starts_word(bytes[at]) || is_digit(bytes[at])) {
        lemma_word_end(bytes, at + 1);
    }
}

proof fn lemma_digits_end(bytes: Seq<u8>, at: int)
    requires
        0 <= at <= bytes.len(),
    ensures
        at <= digits_end(bytes, at) <= bytes.len(),
        at < bytes.len() && is_digit(bytes[at]) ==> at < digits_end(bytes, at),
    decreases bytes.len() - at,
{
    if at < bytes.len() && is_digit(bytes[at]) {
        lemma_digits_end(bytes, at + 1);
    }
}

proof fn lemma_hex_end(bytes: Seq<u8>, at: int)
    requires
        0 <= at <= bytes.len(),
    ensures
        at <= hex_end(bytes, at) <= bytes.len(),
        at < bytes.len() && is_hex_digit(bytes[at]) ==> at < hex_end(bytes, at),
    decreases bytes.len() - at,
{
    if at < bytes.len() && is_hex_digit(bytes[at]) {
        lemma_hex_end(bytes, at + 1);
    }
}

proof fn lemma_character_end(bytes: Seq<u8>, at: int)
    requires
        0 <= at <= bytes.len(),
    ensures
        at <= character_end(bytes, at) <= bytes.len(),
        at < bytes.len() && vstd::utf8::is_continuation_byte(bytes[at]) ==> at < character_end(
            bytes,
            at,
        ),
    decreases bytes.len() - at,
{
    if at < bytes.len() && vstd::utf8::is_continuation_byte(bytes[at]) {
        lemma_character_end(bytes, at + 1);
    }
}

proof fn lemma_number_end(bytes: Seq<u8>, at: int)
    requires
        0 <= at < bytes.len(),
        is_digit(bytes[at]),
    ensures
        at < number_at(bytes, at).1 <= bytes.len(),
{
    if starts_hex(bytes, at) {
        lemma_hex_end(bytes, at + 2);
    } else {
        lemma_digits_end(bytes, at);
        let whole = digits_end(bytes, at);
        if whole + 2 <= bytes.len() {
            lemma_digits_end(bytes, whole + 2);
        }
        let fraction = fraction_end(bytes, whole);
        if fraction + 2 <= bytes.len() {
            lemma_digits_end(bytes, fraction + 2);
        }
        if fraction + 3 <= bytes.len() {
            lemma_digits_end(bytes, fraction + 3);
        }
    }
}

proof fn lemma_quoted_end(bytes: Seq<u8>, at: int, quote: u8)
    requires
        0 <= at <= bytes.len(),
    ensures
        match quoted_end(bytes, at, quote) {
            Ok(end) => at < end <= bytes.len(),
            Err((_, end)) => at <= end <= bytes.len(),
        },
    decreases bytes.len() - at,
{
    if at < bytes.len() {
        lemma_quoted_end(bytes, at + 1, quote);
        if at + 2 <= bytes.len() {
            lemma_quoted_end(bytes, at + 2, quote);
        }
    }
}

proof fn lemma_verbatim_end(bytes: Seq<u8>, at: int)
    requires
        0 <= at <= bytes.len(),
    ensures
        verbatim_end(bytes, at) matches Some(end) ==> at < end <= bytes.len(),
    decreases bytes.len() - at,
{
    if at < bytes.len() {
        lemma_verbatim_end(bytes, at + 1);
        if at + 2 <= bytes.len() {
            lemma_verbatim_end(bytes, at + 2);
        }
    }
}

/// A token or an error takes up at least one byte.
pub proof fn lemma_lexeme_end(bytes: Seq<u8>, at: int)
    requires
        0 <= at < bytes.len(),
    ensures
        match lexeme_at(bytes, at) {
            Ok((_, end)) => at < end <= bytes.len(),
            Err((_, end)) => at < end <= bytes.len(),
        },
{
    lemma_word_end(bytes, at);
    lemma_character_end(bytes, at + 1);
    lemma_quoted_end(bytes, at + 1, '"' as u8);
    lemma_quoted_end(bytes, at + 1, '\'' as u8);
    if at + 2 <= bytes.len() {
        lemma_quoted_end(bytes, at + 2, '"' as u8);
        lemma_verbatim_end(bytes, at + 2);
    }
    if is_digit(bytes[at]) {
        lemma_number_end(bytes, at);
    }
    terminal::lemma_symbol_end(bytes, at);
}

/// Tests whether a name can start with a byte.
fn byte_starts_word(byte: u8) -> (found: bool)
    ensures
        found == starts_word(byte),
{
    ('a' as u8 <= byte && byte <= 'z' as u8) || ('A' as u8 <= byte && byte <= 'Z' as u8) || byte
        == '_' as u8
}

/// Tests whether a byte is a decimal digit.
fn byte_is_digit(byte: u8) -> (found: bool)
    ensures
        found == is_digit(byte),
{
    '0' as u8 <= byte && byte <= '9' as u8
}

/// Tests whether a byte is a hexadecimal digit.
fn byte_is_hex_digit(byte: u8) -> (found: bool)
    ensures
        found == is_hex_digit(byte),
{
    byte_is_digit(byte) || ('a' as u8 <= byte && byte <= 'f' as u8) || ('A' as u8 <= byte && byte
        <= 'F' as u8)
}

/// Tests whether a decimal digit stands at a place of a text.
fn digit_is(bytes: &[u8], at: usize) -> (found: bool)
    ensures
        found == has_digit(bytes@, at as int),
{
    at < bytes.len() && byte_is_digit(bytes[at])
}

/// Finds the end of a run of name bytes.
fn find_word_end(bytes: &[u8], start: usize) -> (end: usize)
    requires
        start <= bytes.len(),
    ensures
        end == word_end(bytes@, start as int),
        start <= end <= bytes.len(),
        start < bytes.len() && (starts_word(bytes@[start as int]) || is_digit(
            bytes@[start as int],
        )) ==> start < end,
        forall|i: int| start <= i < end ==> #[trigger] bytes@[i] < 0x80,
{
    let mut end = start;
    while end < bytes.len() && (byte_starts_word(bytes[end]) || byte_is_digit(bytes[end]))
        invariant
            start <= end <= bytes.len(),
            word_end(bytes@, end as int) == word_end(bytes@, start as int),
            forall|i: int| start <= i < end ==> #[trigger] bytes@[i] < 0x80,
        decreases bytes.len() - end,
    {
        end += 1;
    }
    end
}

/// Finds the end of a run of decimal digits.
fn find_digits_end(bytes: &[u8], start: usize) -> (end: usize)
    requires
        start <= bytes.len(),
    ensures
        end == digits_end(bytes@, start as int),
        start <= end <= bytes.len(),
        start < bytes.len() && is_digit(bytes@[start as int]) ==> start < end,
        forall|i: int| start <= i < end ==> #[trigger] bytes@[i] < 0x80,
{
    let mut end = start;
    while end < bytes.len() && byte_is_digit(bytes[end])
        invariant
            start <= end <= bytes.len(),
            digits_end(bytes@, end as int) == digits_end(bytes@, start as int),
            forall|i: int| start <= i < end ==> #[trigger] bytes@[i] < 0x80,
        decreases bytes.len() - end,
    {
        end += 1;
    }
    end
}

/// Finds the end of a run of hexadecimal digits.
fn find_hex_end(bytes: &[u8], start: usize) -> (end: usize)
    requires
        start <= bytes.len(),
    ensures
        end == hex_end(bytes@, start as int),
        start <= end <= bytes.len(),
        start < bytes.len() && is_hex_digit(bytes@[start as int]) ==> start < end,
        forall|i: int| start <= i < end ==> #[trigger] bytes@[i] < 0x80,
{
    let mut end = start;
    while end < bytes.len() && byte_is_hex_digit(bytes[end])
        invariant
            start <= end <= bytes.len(),
            hex_end(bytes@, end as int) == hex_end(bytes@, start as int),
            forall|i: int| start <= i < end ==> #[trigger] bytes@[i] < 0x80,
        decreases bytes.len() - end,
    {
        end += 1;
    }
    end
}

/// Finds the end of the continuation bytes of a character.
fn find_character_end(bytes: &[u8], start: usize) -> (end: usize)
    requires
        start <= bytes.len(),
    ensures
        end == character_end(bytes@, start as int),
        start <= end <= bytes.len(),
        text::is_cut(bytes@, end as int),
{
    let mut end = start;
    while end < bytes.len() && (0x80 <= bytes[end] && bytes[end] <= 0xbf)
        invariant
            start <= end <= bytes.len(),
            character_end(bytes@, end as int) == character_end(bytes@, start as int),
        decreases bytes.len() - end,
    {
        end += 1;
    }
    end
}

/// Finds the end of a fraction.
fn find_fraction_end(bytes: &[u8], start: usize) -> (end: usize)
    requires
        start <= bytes.len(),
    ensures
        end == fraction_end(bytes@, start as int),
        start <= end <= bytes.len(),
        forall|i: int| start <= i < end ==> #[trigger] bytes@[i] < 0x80,
{
    if byte_is(bytes, start, '.' as u8) && digit_is(bytes, start + 1) {
        find_digits_end(bytes, start + 2)
    } else {
        start
    }
}

/// Finds the end of an exponent.
fn find_exponent_end(bytes: &[u8], start: usize) -> (end: usize)
    requires
        start <= bytes.len(),
    ensures
        end == exponent_end(bytes@, start as int),
        start <= end <= bytes.len(),
        forall|i: int| start <= i < end ==> #[trigger] bytes@[i] < 0x80,
{
    if byte_is(bytes, start, 'e' as u8) || byte_is(bytes, start, 'E' as u8) {
        let digits: usize = if byte_is(bytes, start + 1, '+' as u8) || byte_is(
            bytes,
            start + 1,
            '-' as u8,
        ) {
            start + 2
        } else {
            start + 1
        };
        if digit_is(bytes, digits) {
            find_digits_end(bytes, digits + 1)
        } else {
            start
        }
    } else {
        start
    }
}

/// Reads the number that starts at a digit.
fn number<'s>(source: &'s str, bytes: &[u8], start: usize) -> (found: (LiteralToken<'s>, usize))
    requires
        bytes@ == source.spec_bytes(),
        start < bytes.len(),
        is_digit(bytes@[start as int]),
    ensures
        number_at(bytes@, start as int) == (found.0@, found.1 as int),
        start < found.1 <= bytes.len(),
        text::is_cut(bytes@, found.1 as int),
{
    proof {
        vstd::utf8::encode_utf8_valid_utf8(source@);
    }
    if byte_is(bytes, start, '0' as u8) && (byte_is(bytes, start + 1, 'x' as u8) || byte_is(
        bytes,
        start + 1,
        'X' as u8,
    )) && start + 1 < bytes.len() - 1 && byte_is_hex_digit(bytes[start + 2]) {
        let end = find_hex_end(bytes, start + 2);
        proof {
            assert(bytes@[end - 1] < 0x80);
            text::lemma_cut_after_ascii(bytes@, end - 1);
        }
        (LiteralToken::Int(slice_text(source, start, end)), end)
    } else {
        let whole = find_digits_end(bytes, start);
        let fraction = find_fraction_end(bytes, whole);
        let end = find_exponent_end(bytes, fraction);
        proof {
            assert(bytes@[end - 1] < 0x80);
            text::lemma_cut_after_ascii(bytes@, end - 1);
        }
        let spelling = slice_text(source, start, end);
        if end == whole {
            (LiteralToken::Int(spelling), end)
        } else {
            (LiteralToken::Float(spelling), end)
        }
    }
}

/// Finds the end of a quoted literal.
fn find_quoted_end<'s>(bytes: &[u8], start: usize, quote: u8) -> (found: Result<
    usize,
    (LexerErrorType<'s>, usize),
>)
    requires
        vstd::utf8::valid_utf8(bytes@),
        start <= bytes.len(),
        quote < 0x80,
    ensures
        match found {
            Ok(end) => {
                &&& quoted_end(bytes@, start as int, quote) == Ok::<int, (ErrorTypeView, int)>(
                    end as int,
                )
                &&& start < end <= bytes.len()
                &&& text::is_cut(bytes@, end as int)
            },
            Err((ty, end)) => {
                &&& quoted_end(bytes@, start as int, quote) == Err::<int, (ErrorTypeView, int)>(
                    (ty@, end as int),
                )
                &&& start <= end <= bytes.len()
                &&& text::is_cut(bytes@, end as int)
            },
        },
{
    let mut at = start;
    while at < bytes.len()
        invariant
            vstd::utf8::valid_utf8(bytes@),
            start <= at <= bytes.len(),
            quote < 0x80,
            quoted_end(bytes@, at as int, quote) == quoted_end(bytes@, start as int, quote),
        decreases bytes.len() - at,
    {
        if bytes[at] == quote {
            proof {
                text::lemma_cut_after_ascii(bytes@, at as int);
            }
            return Ok(at + 1);
        }
        if bytes[at] == '\n' as u8 {
            return Err((LexerErrorType::EndOfLineInsideString, at));
        }
        if bytes[at] == '\\' as u8 && at + 1 < bytes.len() && bytes[at + 1] != '\n' as u8 {
            at += 2;
        } else {
            at += 1;
        }
    }
    Err((LexerErrorType::EndOfInputInsideString, bytes.len()))
}

/// Finds the end of a verbatim string.
fn find_verbatim_end(bytes: &[u8], start: usize) -> (found: Option<usize>)
    requires
        vstd::utf8::valid_utf8(bytes@),
        start <= bytes.len(),
    ensures
        match found {
            Some(end) => {
                &&& verbatim_end(bytes@, start as int) == Some(end as int)
                &&& start < end <= bytes.len()
                &&& text::is_cut(bytes@, end as int)
            },
            None => verbatim_end(bytes@, start as int) is None,
        },
{
    let mut at = start;
    while at < bytes.len()
        invariant
            vstd::utf8::valid_utf8(bytes@),
            start <= at <= bytes.len(),
            verbatim_end(bytes@, at as int) == verbatim_end(bytes@, start as int),
        decreases bytes.len() - at,
    {
        if bytes[at] == '"' as u8 {
            if byte_is(bytes, at + 1, '"' as u8) {
                at += 2;
            } else {
                proof {
                    text::lemma_cut_after_ascii(bytes@, at as int);
                }
                return Some(at + 1);
            }
        } else {
            at += 1;
        }
    }
    None
}

/// Whether a token or error that was read is the one that starts at a byte.
pub open spec fn reads_lexeme(
    found: Result<(TokenType<'_>, usize), (LexerErrorType<'_>, usize)>,
    bytes: Seq<u8>,
    at: int,
) -> bool {
    match found {
        Ok((ty, end)) => lexeme_at(bytes, at) == Ok::<(TypeView, int), (ErrorTypeView, int)>(
            (ty@, end as int),
        ),
        Err((ty, end)) => lexeme_at(bytes, at) == Err::<(TypeView, int), (ErrorTypeView, int)>(
            (ty@, end as int),
        ),
    }
}

/// The end of a token or error that was read.
pub open spec fn lexeme_end(
    found: Result<(TokenType<'_>, usize), (LexerErrorType<'_>, usize)>,
) -> int {
    match found {
        Ok((_, end)) => end as int,
        Err((_, end)) => end as int,
    }
}

/// Reads the token that starts at a byte.
pub fn lexeme<'s>(source: &'s str, bytes: &[u8], start: usize) -> (found: Result<
    (TokenType<'s>, usize),
    (LexerErrorType<'s>, usize),
>)
    requires
        bytes@ == source.spec_bytes(),
        start < bytes.len(),
        text::is_cut(bytes@, start as int),
    ensures
        reads_lexeme(found, bytes@, start as int),
        start < lexeme_end(found) <= bytes.len(),
        text::is_cut(bytes@, lexeme_end(found)),
{
    proof {
        vstd::utf8::encode_utf8_valid_utf8(source@);
    }
    let first = bytes[start];
    if byte_starts_word(first) {
        let end = find_word_end(bytes, start);
        proof {
            assert(bytes@[end - 1] < 0x80);
            text::lemma_cut_after_ascii(bytes@, end - 1);
        }
        let word = slice_text(source, start, end);
        match keyword(word.as_bytes()) {
            Some(keyword) => Ok((TokenType::Terminal(keyword), end)),
            None => Ok((TokenType::Identifier(word), end)),
        }
    } else if byte_is_digit(first) {
        let (number, end) = number(source, bytes, start);
        Ok((TokenType::Literal(number), end))
    } else if first == '"' as u8 {
        match find_quoted_end(bytes, start + 1, '"' as u8) {
            Ok(end) => Ok(
                (TokenType::Literal(LiteralToken::String(slice_text(source, start, end))), end),
            ),
            Err(error) => Err(error),
        }
    } else if first == '\'' as u8 {
        match find_quoted_end(bytes, start + 1, '\'' as u8) {
            Ok(end) => Ok(
                (TokenType::Literal(LiteralToken::Char(slice_text(source, start, end))), end),
            ),
            Err(error) => Err(error),
        }
    } else if first == '$' as u8 && byte_is(bytes, start + 1, '"' as u8) {
        match find_quoted_end(bytes, start + 2, '"' as u8) {
            Ok(end) => Ok(
                (TokenType::Literal(LiteralToken::Asset(slice_text(source, start, end))), end),
            ),
            Err(error) => Err(error),
        }
    } else if first == '@' as u8 && byte_is(bytes, start + 1, '"' as u8) {
        match find_verbatim_end(bytes, start + 2) {
            Some(end) => Ok(
                (
                    TokenType::Literal(
                        LiteralToken::VerbatimString(slice_text(source, start, end)),
                    ),
                    end,
                ),
            ),
            None => Err((LexerErrorType::EndOfInputInsideString, bytes.len())),
        }
    } else if first == '/' as u8 && byte_is(bytes, start + 1, '*' as u8) {
        Err((LexerErrorType::EndOfInputInsideComment, bytes.len()))
    } else {
        match symbol(bytes, start) {
            Some((terminal, end)) => {
                proof {
                    assert(bytes@[end - 1] < 0x80);
            text::lemma_cut_after_ascii(bytes@, end - 1);
                }
                Ok((TokenType::Terminal(terminal), end))
            },
            None => Err((LexerErrorType::InvalidInput, find_character_end(bytes, start + 1))),
        }
    }
}

} // verus!
