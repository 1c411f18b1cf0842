use crate::lexer::error::ErrorTypeView;
use crate::token::{CommentView, LiteralView, TerminalToken, TypeView};
use vstd::prelude::*;
use vstd::string::StringSliceAdditionalSpecFns;

verus! {

/// The bytes that a terminal is written as.
pub open spec fn terminal_bytes(terminal: TerminalToken) -> Seq<u8> {
    match terminal {
        TerminalToken::OpenBrace => seq!['{' as u8],
        TerminalToken::CloseBrace => seq!['}' as u8],
        TerminalToken::OpenSquare => seq!['[' as u8],
        TerminalToken::CloseSquare => seq![']' as u8],
        TerminalToken::OpenBracket => seq!['(' as u8],
        TerminalToken::CloseBracket => seq![')' as u8],
        TerminalToken::OpenAttributes => seq!['<' as u8, '/' as u8],
        TerminalToken::CloseAttributes => seq!['/' as u8, '>' as u8],
        TerminalToken::Semicolon => seq![';' as u8],
        TerminalToken::Comma => seq![',' as u8],
        TerminalToken::Dot => seq!['.' as u8],
        TerminalToken::Vararg => seq!['.' as u8, '.' as u8, '.' as u8],
        TerminalToken::Colon => seq![':' as u8],
        TerminalToken::Namespace => seq![':' as u8, ':' as u8],
        TerminalToken::Question => seq!['?' as u8],
        TerminalToken::At => seq!['@' as u8],
        TerminalToken::Assign => seq!['=' as u8],
        TerminalToken::AddAssign => seq!['+' as u8, '=' as u8],
        TerminalToken::SubtractAssign => seq!['-' as u8, '=' as u8],
        TerminalToken::MultiplyAssign => seq!['*' as u8, '=' as u8],
        TerminalToken::DivideAssign => seq!['/' as u8, '=' as u8],
        TerminalToken::ModuloAssign => seq!['%' as u8, '=' as u8],
        TerminalToken::NewSlot => seq!['<' as u8, '-' as u8],
        TerminalToken::Increment => seq!['+' as u8, '+' as u8],
        TerminalToken::Decrement => seq!['-' as u8, '-' as u8],
        TerminalToken::Add => seq!['+' as u8],
        TerminalToken::Subtract => seq!['-' as u8],
        TerminalToken::Multiply => seq!['*' as u8],
        TerminalToken::Divide => seq!['/' as u8],
        TerminalToken::Modulo => seq!['%' as u8],
        TerminalToken::Equal => seq!['=' as u8, '=' as u8],
        TerminalToken::NotEqual => seq!['!' as u8, '=' as u8],
        TerminalToken::Less => seq!['<' as u8],
        TerminalToken::LessEqual => seq!['<' as u8, '=' as u8],
        TerminalToken::Greater => seq!['>' as u8],
        TerminalToken::GreaterEqual => seq!['>' as u8, '=' as u8],
        TerminalToken::ThreeWay => seq!['<' as u8, '=' as u8, '>' as u8],
        TerminalToken::ShiftLeft => seq!['<' as u8, '<' as u8],
        TerminalToken::LogicalNot => seq!['!' as u8],
        TerminalToken::LogicalAnd => seq!['&' as u8, '&' as u8],
        TerminalToken::LogicalOr => seq!['|' as u8, '|' as u8],
        TerminalToken::BitwiseNot => seq!['~' as u8],
        TerminalToken::BitwiseAnd => seq!['&' as u8],
        TerminalToken::BitwiseOr => seq!['|' as u8],
        TerminalToken::BitwiseXor => seq!['^' as u8],
        TerminalToken::Base => "base".spec_bytes(),
        TerminalToken::Break => "break".spec_bytes(),
        TerminalToken::Case => "case".spec_bytes(),
        TerminalToken::Catch => "catch".spec_bytes(),
        TerminalToken::Class => "class".spec_bytes(),
        TerminalToken::Clone => "clone".spec_bytes(),
        TerminalToken::Const => "const".spec_bytes(),
        TerminalToken::Constructor => "constructor".spec_bytes(),
        TerminalToken::Continue => "continue".spec_bytes(),
        TerminalToken::Default => "default".spec_bytes(),
        TerminalToken::DelayThread => "delaythread".spec_bytes(),
        TerminalToken::Delete => "delete".spec_bytes(),
        TerminalToken::Do => "do".spec_bytes(),
        TerminalToken::Else => "else".spec_bytes(),
        TerminalToken::Enum => "enum".spec_bytes(),
        TerminalToken::Expect => "expect".spec_bytes(),
        TerminalToken::Extends => "extends".spec_bytes(),
        TerminalToken::False => "false".spec_bytes(),
        TerminalToken::For => "for".spec_bytes(),
        TerminalToken::Foreach => "foreach".spec_bytes(),
        TerminalToken::Function => "function".spec_bytes(),
        TerminalToken::FunctionRef => "functionref".spec_bytes(),
        TerminalToken::Global => "global".spec_bytes(),
        TerminalToken::GlobalizeAllFunctions => "globalize_all_functions".spec_bytes(),
        TerminalToken::If => "if".spec_bytes(),
        TerminalToken::In => "in".spec_bytes(),
        TerminalToken::Instanceof => "instanceof".spec_bytes(),
        TerminalToken::Local => "local".spec_bytes(),
        TerminalToken::Null => "null".spec_bytes(),
        TerminalToken::OrNull => "ornull".spec_bytes(),
        TerminalToken::Resume => "resume".spec_bytes(),
        TerminalToken::Return => "return".spec_bytes(),
        TerminalToken::Static => "static".spec_bytes(),
        TerminalToken::Struct => "struct".spec_bytes(),
        TerminalToken::Switch => "switch".spec_bytes(),
        TerminalToken::This => "this".spec_bytes(),
        TerminalToken::Thread => "thread".spec_bytes(),
        TerminalToken::Throw => "throw".spec_bytes(),
        TerminalToken::True => "true".spec_bytes(),
        TerminalToken::Try => "try".spec_bytes(),
        TerminalToken::Typedef => "typedef".spec_bytes(),
        TerminalToken::Typeof => "typeof".spec_bytes(),
        TerminalToken::Untyped => "untyped".spec_bytes(),
        TerminalToken::Wait => "wait".spec_bytes(),
        TerminalToken::WaitThread => "waitthread".spec_bytes(),
        TerminalToken::WaitThreadSolo => "waitthreadsolo".spec_bytes(),
        TerminalToken::While => "while".spec_bytes(),
        TerminalToken::Yield => "yield".spec_bytes(),
    }
}

/// Whether a terminal is an operator or a delimiter, and not a keyword.
pub open spec fn is_symbol(terminal: TerminalToken) -> bool {
    match terminal {
        TerminalToken::OpenBrace
        | TerminalToken::CloseBrace
        | TerminalToken::OpenSquare
        | TerminalToken::CloseSquare
        | TerminalToken::OpenBracket
        | TerminalToken::CloseBracket
        | TerminalToken::OpenAttributes
        | TerminalToken::CloseAttributes
        | TerminalToken::Semicolon
        | TerminalToken::Comma
        | TerminalToken::Dot
        | TerminalToken::Vararg
        | TerminalToken::Colon
        | TerminalToken::Namespace
        | TerminalToken::Question
        | TerminalToken::At
        | TerminalToken::Assign
        | TerminalToken::AddAssign
        | TerminalToken::SubtractAssign
        | TerminalToken::MultiplyAssign
        | TerminalToken::DivideAssign
        | TerminalToken::ModuloAssign
        | TerminalToken::NewSlot
        | TerminalToken::Increment
        | TerminalToken::Decrement
        | TerminalToken::Add
        | TerminalToken::Subtract
        | TerminalToken::Multiply
        | TerminalToken::Divide
        | TerminalToken::Modulo
        | TerminalToken::Equal
        | TerminalToken::NotEqual
        | TerminalToken::Less
        | TerminalToken::LessEqual
        | TerminalToken::Greater
        | TerminalToken::GreaterEqual
        | TerminalToken::ThreeWay
        | TerminalToken::ShiftLeft
        | TerminalToken::LogicalNot
        | TerminalToken::LogicalAnd
        | TerminalToken::LogicalOr
        | TerminalToken::BitwiseNot
        | TerminalToken::BitwiseAnd
        | TerminalToken::BitwiseOr
        | TerminalToken::BitwiseXor => true,
        _ => false,
    }
}

/// Whether a text holds given bytes at a place.
pub open spec fn holds_at(bytes: Seq<u8>, at: int, part: Seq<u8>) -> bool {
    &&& 0 <= at
    &&& at + part.len() <= bytes.len()
    &&& forall|i: int| 0 <= i < part.len() ==> bytes[at + i] == #[trigger] part[i]
}

/// Whether a text holds a given byte at a place.
pub open spec fn byte_at(bytes: Seq<u8>, at: int, byte: u8) -> bool {
    0 <= at < bytes.len() && bytes[at] == byte
}

/// Whether a byte is a letter or an underscore.
pub open spec fn is_letter(byte: u8) -> bool {
    ||| 'a' as u8 <= byte <= 'z' as u8
    ||| 'A' as u8 <= byte <= 'Z' as u8
    ||| byte == '_' as u8
}

/// Whether a byte is a decimal digit.
pub open spec fn is_decimal(byte: u8) -> bool {
    '0' as u8 <= byte <= '9' as u8
}

/// Whether a byte is a hexadecimal digit.
pub open spec fn is_hexadecimal(byte: u8) -> bool {
    ||| is_decimal(byte)
    ||| 'a' as u8 <= byte <= 'f' as u8
    ||| 'A' as u8 <= byte <= 'F' as u8
}

/// Whether a decimal digit stands at a place.
pub open spec fn decimal_at(bytes: Seq<u8>, at: int) -> bool {
    0 <= at < bytes.len() && is_decimal(bytes[at])
}

/// Whether a part of a text is a whole word: a letter or an underscore, then letters, underscores
/// and digits, as many as there are.
pub open spec fn is_word(bytes: Seq<u8>, start: int, end: int) -> bool {
    &&& 0 <= start < end <= bytes.len()
    &&& is_letter(bytes[start])
    &&& forall|i: int|
        start <= i < end ==> is_letter(#[trigger] bytes[i]) || is_decimal(bytes[i])
    &&& end < bytes.len() ==> !is_letter(bytes[end]) && !is_decimal(bytes[end])
}

/// Whether a part of a text is a run of decimal digits, as long as it can be.
pub open spec fn is_digits(bytes: Seq<u8>, start: int, end: int) -> bool {
    &&& 0 <= start < end <= bytes.len()
    &&& forall|i: int| start <= i < end ==> is_decimal(#[trigger] bytes[i])
    &&& end < bytes.len() ==> !is_decimal(bytes[end])
}

/// Whether a fraction starts at a place: a dot with a digit behind it.
pub open spec fn fraction_starts(bytes: Seq<u8>, at: int) -> bool {
    byte_at(bytes, at, '.' as u8) && decimal_at(bytes, at + 1)
}

/// Where the digits of an exponent start that starts at a place, if one does.
pub open spec fn exponent_digits(bytes: Seq<u8>, at: int) -> Option<int> {
    if !byte_at(bytes, at, 'e' as u8) && !byte_at(bytes, at, 'E' as u8) {
        None
    } else if decimal_at(bytes, at + 1) {
        Some(at + 1)
    } else if (byte_at(bytes, at + 1, '+' as u8) || byte_at(bytes, at + 1, '-' as u8))
        && decimal_at(bytes, at + 2) {
        Some(at + 2)
    } else {
        None
    }
}

/// Whether a hexadecimal number starts at a place.
pub open spec fn hexadecimal_starts(bytes: Seq<u8>, at: int) -> bool {
    &&& byte_at(bytes, at, '0' as u8)
    &&& byte_at(bytes, at + 1, 'x' as u8) || byte_at(bytes, at + 1, 'X' as u8)
    &&& at + 2 < bytes.len() && is_hexadecimal(bytes[at + 2])
}

/// Whether a part of a text is a whole integer.
pub open spec fn is_integer(bytes: Seq<u8>, start: int, end: int) -> bool {
    if hexadecimal_starts(bytes, start) {
        &&& start + 2 < end <= bytes.len()
        &&& forall|i: int| start + 2 <= i < end ==> is_hexadecimal(#[trigger] bytes[i])
        &&& end < bytes.len() ==> !is_hexadecimal(bytes[end])
    } else {
        &&& is_digits(bytes, start, end)
        &&& !fraction_starts(bytes, end)
        &&& exponent_digits(bytes, end) is None
    }
}

/// Whether a part of a text is a whole number with a fraction, an exponent or both, where the
/// digits before and behind the dot end at given places.
pub open spec fn is_float_split(
    bytes: Seq<u8>,
    start: int,
    whole: int,
    fraction: int,
    end: int,
) -> bool {
    &&& !hexadecimal_starts(bytes, start)
    &&& is_digits(bytes, start, whole)
    &&& if fraction_starts(bytes, whole) {
        is_digits(bytes, whole + 1, fraction)
    } else {
        fraction == whole
    }
    &&& match exponent_digits(bytes, fraction) {
        Some(digits) => is_digits(bytes, digits, end),
        None => end == fraction,
    }
    &&& whole < end
}

/// Whether a part of a text is a whole number with a fraction, an exponent or both.
pub open spec fn is_float(bytes: Seq<u8>, start: int, end: int) -> bool {
    exists|whole: int, fraction: int| is_float_split(bytes, start, whole, fraction, end)
}

/// Whether a part of a text can stand inside of a quoted literal: it holds no line break and no
/// quote, but for what stands behind a backslash.
pub open spec fn is_quotable(bytes: Seq<u8>, start: int, end: int, quote: u8) -> bool
    decreases end - start,
{
    if start >= end {
        start == end
    } else if bytes[start] == '\\' as u8 {
        start + 1 < end && bytes[start + 1] != '\n' as u8 && is_quotable(
            bytes,
            start + 2,
            end,
            quote,
        )
    } else {
        bytes[start] != quote && bytes[start] != '\n' as u8 && is_quotable(
            bytes,
            start + 1,
            end,
            quote,
        )
    }
}

/// Whether a quoted literal that starts before a part of a text is still open at the end of the
/// part.
pub open spec fn is_still_quoted(bytes: Seq<u8>, start: int, end: int, quote: u8) -> bool {
    ||| is_quotable(bytes, start, end, quote)
    ||| start < end && bytes[end - 1] == '\\' as u8 && is_quotable(bytes, start, end - 1, quote)
}

/// Whether a part of a text can stand inside of a verbatim string: each quote in it is doubled.
pub open spec fn is_verbatim(bytes: Seq<u8>, start: int, end: int) -> bool
    decreases end - start,
{
    if start >= end {
        start == end
    } else if bytes[start] == '"' as u8 {
        start + 1 < end && byte_at(bytes, start + 1, '"' as u8) && is_verbatim(
            bytes,
            start + 2,
            end,
        )
    } else {
        is_verbatim(bytes, start + 1, end)
    }
}

/// Whether a part of a text is a whole quoted literal, whose first quote stands behind a mark of
/// a given length.
pub open spec fn is_quoted(bytes: Seq<u8>, start: int, mark: int, end: int, quote: u8) -> bool {
    &&& start + mark + 2 <= end <= bytes.len()
    &&& bytes[start + mark] == quote
    &&& bytes[end - 1] == quote
    &&& is_quotable(bytes, start + mark + 1, end - 1, quote)
}

/// Whether a part of a text is a whole literal.
pub open spec fn is_literal(
    literal: LiteralView,
    bytes: Seq<u8>,
    start: int,
    end: int,
) -> bool {
    match literal {
        LiteralView::Int(text) => text == bytes.subrange(start, end) && is_integer(
            bytes,
            start,
            end,
        ),
        LiteralView::Float(text) => text == bytes.subrange(start, end) && is_float(
            bytes,
            start,
            end,
        ),
        LiteralView::Char(text) => text == bytes.subrange(start, end) && is_quoted(
            bytes,
            start,
            0,
            end,
            '\'' as u8,
        ),
        LiteralView::String(text) => text == bytes.subrange(start, end) && is_quoted(
            bytes,
            start,
            0,
            end,
            '"' as u8,
        ),
        LiteralView::Asset(text) => text == bytes.subrange(start, end) && is_quoted(
            bytes,
            start,
            1,
            end,
            '"' as u8,
        ) && bytes[start] == '$' as u8,
        LiteralView::VerbatimString(text) => {
            &&& text == bytes.subrange(start, end)
            &&& start + 3 <= end <= bytes.len()
            &&& bytes[start] == '@' as u8
            &&& bytes[start + 1] == '"' as u8
            &&& bytes[end - 1] == '"' as u8
            &&& is_verbatim(bytes, start + 2, end - 1)
            &&& !byte_at(bytes, end, '"' as u8)
        },
    }
}

/// Whether a part of a text is a whole token.
pub open spec fn is_token(ty: TypeView, bytes: Seq<u8>, start: int, end: int) -> bool {
    match ty {
        TypeView::Terminal(terminal) => {
            &&& bytes.subrange(start, end) == terminal_bytes(terminal)
            &&& if is_symbol(terminal) {
                forall|other: TerminalToken|
                    #![trigger terminal_bytes(other)]
                    is_symbol(other) && holds_at(bytes, start, terminal_bytes(other))
                        ==> terminal_bytes(other).len() <= end - start
            } else {
                is_word(bytes, start, end)
            }
        },
        TypeView::Identifier(text) => {
            &&& text == bytes.subrange(start, end)
            &&& is_word(bytes, start, end)
            &&& forall|keyword: TerminalToken|
                #![trigger terminal_bytes(keyword)]
                !is_symbol(keyword) ==> text != terminal_bytes(keyword)
        },
        TypeView::Literal(literal) => is_literal(literal, bytes, start, end),
    }
}

/// Whether `*/` stands at a place.
pub open spec fn closes_comment(bytes: Seq<u8>, at: int) -> bool {
    byte_at(bytes, at, '*' as u8) && byte_at(bytes, at + 1, '/' as u8)
}

/// Whether `/*` stands at a place, and no `*/` anywhere behind it.
pub open spec fn is_open_comment(bytes: Seq<u8>, at: int) -> bool {
    &&& byte_at(bytes, at, '/' as u8)
    &&& byte_at(bytes, at + 1, '*' as u8)
    &&& forall|p: int| at + 2 <= p ==> !#[trigger] closes_comment(bytes, p)
}

/// Whether a part of a text is one that no token can be read from, for a given reason.
pub open spec fn is_no_token(ty: ErrorTypeView, bytes: Seq<u8>, start: int, end: int) -> bool {
    let first = bytes[start];
    &&& 0 <= start < end <= bytes.len()
    &&& match ty {
        ErrorTypeView::InvalidInput => {
            &&& !is_letter(first)
            &&& !is_decimal(first)
            &&& first != '"' as u8
            &&& first != '\'' as u8
            &&& forall|symbol: TerminalToken|
                #![trigger terminal_bytes(symbol)]
                is_symbol(symbol) ==> !holds_at(bytes, start, terminal_bytes(symbol))
            &&& forall|i: int|
                start < i < end ==> vstd::utf8::is_continuation_byte(#[trigger] bytes[i])
            &&& end < bytes.len() ==> !vstd::utf8::is_continuation_byte(bytes[end])
        },
        ErrorTypeView::EndOfLineInsideString => {
            &&& byte_at(bytes, end, '\n' as u8)
            &&& {
                ||| first == '"' as u8 && is_still_quoted(bytes, start + 1, end, '"' as u8)
                ||| first == '\'' as u8 && is_still_quoted(bytes, start + 1, end, '\'' as u8)
                ||| first == '$' as u8 && byte_at(bytes, start + 1, '"' as u8) && is_still_quoted(
                    bytes,
                    start + 2,
                    end,
                    '"' as u8,
                )
            }
        },
        ErrorTypeView::EndOfInputInsideString => {
            &&& end == bytes.len()
            &&& {
                ||| first == '"' as u8 && is_still_quoted(bytes, start + 1, end, '"' as u8)
                ||| first == '\'' as u8 && is_still_quoted(bytes, start + 1, end, '\'' as u8)
                ||| first == '$' as u8 && byte_at(bytes, start + 1, '"' as u8) && is_still_quoted(
                    bytes,
                    start + 2,
                    end,
                    '"' as u8,
                )
                ||| first == '@' as u8 && byte_at(bytes, start + 1, '"' as u8) && is_verbatim(
                    bytes,
                    start + 2,
                    end,
                )
            }
        },
        ErrorTypeView::EndOfInputInsideComment => end == bytes.len() && is_open_comment(
            bytes,
            start,
        ),
        _ => false,
    }
}

/// The first place at or behind a place that holds no blank.
pub open spec fn behind_blanks(bytes: Seq<u8>, at: int) -> int
    decreases bytes.len() - at,
{
    if byte_at(bytes, at, ' ' as u8) || byte_at(bytes, at, '\t' as u8) || byte_at(
        bytes,
        at,
        '\r' as u8,
    ) {
        behind_blanks(bytes, at + 1)
    } else {
        at
    }
}

/// Whether a part of a text holds no line break, and ends with its line.
pub open spec fn ends_with_line(bytes: Seq<u8>, start: int, end: int) -> bool {
    &&& 0 <= start <= end <= bytes.len()
    &&& forall|i: int| start <= i < end ==> #[trigger] bytes[i] != '\n' as u8
    &&& end < bytes.len() ==> bytes[end] == '\n' as u8
}

/// Whether a part of a text is a whole comment. A block comment ends with the first `*/` behind
/// its start, whatever stands between them.
pub open spec fn is_comment(comment: CommentView, bytes: Seq<u8>, start: int, end: int) -> bool {
    match comment {
        CommentView::SingleLine(text) => {
            &&& text == bytes.subrange(start, end)
            &&& start + 2 <= end
            &&& byte_at(bytes, start, '/' as u8)
            &&& byte_at(bytes, start + 1, '/' as u8)
            &&& ends_with_line(bytes, start, end)
        },
        CommentView::ScriptStyle(text) => {
            &&& text == bytes.subrange(start, end)
            &&& start < end
            &&& byte_at(bytes, start, '#' as u8)
            &&& ends_with_line(bytes, start, end)
        },
        CommentView::MultiLine(text) => {
            &&& text == bytes.subrange(start, end)
            &&& start + 4 <= end <= bytes.len()
            &&& byte_at(bytes, start, '/' as u8)
            &&& byte_at(bytes, start + 1, '*' as u8)
            &&& closes_comment(bytes, end - 2)
            &&& forall|p: int| start + 2 <= p < end - 2 ==> !#[trigger] closes_comment(bytes, p)
        },
    }
}

/// Whether a comment that is closed starts at a place.
pub open spec fn comment_starts(bytes: Seq<u8>, at: int) -> bool {
    ||| byte_at(bytes, at, '#' as u8)
    ||| byte_at(bytes, at, '/' as u8) && byte_at(bytes, at + 1, '/' as u8)
    ||| byte_at(bytes, at, '/' as u8) && byte_at(bytes, at + 1, '*' as u8) && !is_open_comment(
        bytes,
        at,
    )
}

/// The bytes of a comment.
pub open spec fn comment_bytes(comment: CommentView) -> Seq<u8> {
    match comment {
        CommentView::SingleLine(text) => text,
        CommentView::ScriptStyle(text) => text,
        CommentView::MultiLine(text) => text,
    }
}

/// The place behind given comments with blanks around them, where no further comment stands.
pub open spec fn end_of_comments(
    comments: Seq<CommentView>,
    bytes: Seq<u8>,
    at: int,
) -> Option<int>
    decreases comments.len(),
{
    let start = behind_blanks(bytes, at);
    if comments.len() == 0 {
        if comment_starts(bytes, start) {
            None
        } else {
            Some(start)
        }
    } else {
        let end = start + comment_bytes(comments[0]).len();
        if is_comment(comments[0], bytes, start, end) {
            end_of_comments(comments.drop_first(), bytes, end)
        } else {
            None
        }
    }
}

/// The place behind lines that hold given comments and no tokens, and behind given comments in the
/// line that follows.
pub open spec fn end_of_gap(
    lines: Seq<Seq<CommentView>>,
    comments: Seq<CommentView>,
    bytes: Seq<u8>,
    at: int,
) -> Option<int>
    decreases lines.len(),
{
    if lines.len() == 0 {
        match end_of_comments(comments, bytes, at) {
            Some(end) => if byte_at(bytes, end, '\n' as u8) {
                None
            } else {
                Some(end)
            },
            None => None,
        }
    } else {
        match end_of_comments(lines[0], bytes, at) {
            Some(end) => if byte_at(bytes, end, '\n' as u8) {
                end_of_gap(lines.drop_first(), comments, bytes, end + 1)
            } else {
                None
            },
            None => None,
        }
    }
}

} // verus!
