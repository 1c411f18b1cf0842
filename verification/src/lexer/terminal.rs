use crate::lexer::text::same_bytes;
use crate::token::TerminalToken;
use vstd::prelude::*;
use vstd::string::StringSliceAdditionalSpecFns;

verus! {

/// Whether a given byte stands at a place of a text.
pub open spec fn has_byte(bytes: Seq<u8>, at: int, byte: u8) -> bool {
    0 <= at < bytes.len() && bytes[at] == byte
}

/// Tests whether a given byte stands at a place of a text.
pub fn byte_is(bytes: &[u8], at: usize, byte: u8) -> (found: bool)
    ensures
        found == has_byte(bytes@, at as int, byte),
{
    at < bytes.len() && bytes[at] == byte
}

/// The keyword that a word is, if it is one.
#[verifier::opaque]
pub open spec fn keyword_of(word: Seq<u8>) -> Option<TerminalToken> {
    if word == "base".spec_bytes() {
        Some(TerminalToken::Base)
    } else if word == "break".spec_bytes() {
        Some(TerminalToken::Break)
    } else if word == "case".spec_bytes() {
        Some(TerminalToken::Case)
    } else if word == "catch".spec_bytes() {
        Some(TerminalToken::Catch)
    } else if word == "class".spec_bytes() {
        Some(TerminalToken::Class)
    } else if word == "clone".spec_bytes() {
        Some(TerminalToken::Clone)
    } else if word == "const".spec_bytes() {
        Some(TerminalToken::Const)
    } else if word == "constructor".spec_bytes() {
        Some(TerminalToken::Constructor)
    } else if word == "continue".spec_bytes() {
        Some(TerminalToken::Continue)
    } else if word == "default".spec_bytes() {
        Some(TerminalToken::Default)
    } else if word == "delaythread".spec_bytes() {
        Some(TerminalToken::DelayThread)
    } else if word == "delete".spec_bytes() {
        Some(TerminalToken::Delete)
    } else if word == "do".spec_bytes() {
        Some(TerminalToken::Do)
    } else if word == "else".spec_bytes() {
        Some(TerminalToken::Else)
    } else if word == "enum".spec_bytes() {
        Some(TerminalToken::Enum)
    } else if word == "expect".spec_bytes() {
        Some(TerminalToken::Expect)
    } else if word == "extends".spec_bytes() {
        Some(TerminalToken::Extends)
    } else if word == "false".spec_bytes() {
        Some(TerminalToken::False)
    } else if word == "for".spec_bytes() {
        Some(TerminalToken::For)
    } else if word == "foreach".spec_bytes() {
        Some(TerminalToken::Foreach)
    } else if word == "function".spec_bytes() {
        Some(TerminalToken::Function)
    } else if word == "functionref".spec_bytes() {
        Some(TerminalToken::FunctionRef)
    } else if word == "global".spec_bytes() {
        Some(TerminalToken::Global)
    } else if word == "globalize_all_functions".spec_bytes() {
        Some(TerminalToken::GlobalizeAllFunctions)
    } else if word == "if".spec_bytes() {
        Some(TerminalToken::If)
    } else if word == "in".spec_bytes() {
        Some(TerminalToken::In)
    } else if word == "instanceof".spec_bytes() {
        Some(TerminalToken::Instanceof)
    } else if word == "local".spec_bytes() {
        Some(TerminalToken::Local)
    } else if word == "null".spec_bytes() {
        Some(TerminalToken::Null)
    } else if word == "ornull".spec_bytes() {
        Some(TerminalToken::OrNull)
    } else if word == "resume".spec_bytes() {
        Some(TerminalToken::Resume)
    } else if word == "return".spec_bytes() {
        Some(TerminalToken::Return)
    } else if word == "static".spec_bytes() {
        Some(TerminalToken::Static)
    } else if word == "struct".spec_bytes() {
        Some(TerminalToken::Struct)
    } else if word == "switch".spec_bytes() {
        Some(TerminalToken::Switch)
    } else if word == "this".spec_bytes() {
        Some(TerminalToken::This)
    } else if word == "thread".spec_bytes() {
        Some(TerminalToken::Thread)
    } else if word == "throw".spec_bytes() {
        Some(TerminalToken::Throw)
    } else if word == "true".spec_bytes() {
        Some(TerminalToken::True)
    } else if word == "try".spec_bytes() {
        Some(TerminalToken::Try)
    } else if word == "typedef".spec_bytes() {
        Some(TerminalToken::Typedef)
    } else if word == "typeof".spec_bytes() {
        Some(TerminalToken::Typeof)
    } else if word == "untyped".spec_bytes() {
        Some(TerminalToken::Untyped)
    } else if word == "wait".spec_bytes() {
        Some(TerminalToken::Wait)
    } else if word == "waitthread".spec_bytes() {
        Some(TerminalToken::WaitThread)
    } else if word == "waitthreadsolo".spec_bytes() {
        Some(TerminalToken::WaitThreadSolo)
    } else if word == "while".spec_bytes() {
        Some(TerminalToken::While)
    } else if word == "yield".spec_bytes() {
        Some(TerminalToken::Yield)
    } else {
        None
    }
}

/// Finds the keyword that a word is.
pub fn keyword(word: &[u8]) -> (found: Option<TerminalToken>)
    ensures
        found == keyword_of(word@),
{
    reveal(keyword_of);
    if same_bytes(word, "base".as_bytes()) {
        Some(TerminalToken::Base)
    } else if same_bytes(word, "break".as_bytes()) {
        Some(TerminalToken::Break)
    } else if same_bytes(word, "case".as_bytes()) {
        Some(TerminalToken::Case)
    } else if same_bytes(word, "catch".as_bytes()) {
        Some(TerminalToken::Catch)
    } else if same_bytes(word, "class".as_bytes()) {
        Some(TerminalToken::Class)
    } else if same_bytes(word, "clone".as_bytes()) {
        Some(TerminalToken::Clone)
    } else if same_bytes(word, "const".as_bytes()) {
        Some(TerminalToken::Const)
    } else if same_bytes(word, "constructor".as_bytes()) {
        Some(TerminalToken::Constructor)
    } else if same_bytes(word, "continue".as_bytes()) {
        Some(TerminalToken::Continue)
    } else if same_bytes(word, "default".as_bytes()) {
        Some(TerminalToken::Default)
    } else if same_bytes(word, "delaythread".as_bytes()) {
        Some(TerminalToken::DelayThread)
    } else if same_bytes(word, "delete".as_bytes()) {
        Some(TerminalToken::Delete)
    } else if same_bytes(word, "do".as_bytes()) {
        Some(TerminalToken::Do)
    } else if same_bytes(word, "else".as_bytes()) {
        Some(TerminalToken::Else)
    } else if same_bytes(word, "enum".as_bytes()) {
        Some(TerminalToken::Enum)
    } else if same_bytes(word, "expect".as_bytes()) {
        Some(TerminalToken::Expect)
    } else if same_bytes(word, "extends".as_bytes()) {
        Some(TerminalToken::Extends)
    } else if same_bytes(word, "false".as_bytes()) {
        Some(TerminalToken::False)
    } else if same_bytes(word, "for".as_bytes()) {
        Some(TerminalToken::For)
    } else if same_bytes(word, "foreach".as_bytes()) {
        Some(TerminalToken::Foreach)
    } else if same_bytes(word, "function".as_bytes()) {
        Some(TerminalToken::Function)
    } else if same_bytes(word, "functionref".as_bytes()) {
        Some(TerminalToken::FunctionRef)
    } else if same_bytes(word, "global".as_bytes()) {
        Some(TerminalToken::Global)
    } else if same_bytes(word, "globalize_all_functions".as_bytes()) {
        Some(TerminalToken::GlobalizeAllFunctions)
    } else if same_bytes(word, "if".as_bytes()) {
        Some(TerminalToken::If)
    } else if same_bytes(word, "in".as_bytes()) {
        Some(TerminalToken::In)
    } else if same_bytes(word, "instanceof".as_bytes()) {
        Some(TerminalToken::Instanceof)
    } else if same_bytes(word, "local".as_bytes()) {
        Some(TerminalToken::Local)
    } else if same_bytes(word, "null".as_bytes()) {
        Some(TerminalToken::Null)
    } else if same_bytes(word, "ornull".as_bytes()) {
        Some(TerminalToken::OrNull)
    } else if same_bytes(word, "resume".as_bytes()) {
        Some(TerminalToken::Resume)
    } else if same_bytes(word, "return".as_bytes()) {
        Some(TerminalToken::Return)
    } else if same_bytes(word, "static".as_bytes()) {
        Some(TerminalToken::Static)
    } else if same_bytes(word, "struct".as_bytes()) {
        Some(TerminalToken::Struct)
    } else if same_bytes(word, "switch".as_bytes()) {
        Some(TerminalToken::Switch)
    } else if same_bytes(word, "this".as_bytes()) {
        Some(TerminalToken::This)
    } else if same_bytes(word, "thread".as_bytes()) {
        Some(TerminalToken::Thread)
    } else if same_bytes(word, "throw".as_bytes()) {
        Some(TerminalToken::Throw)
    } else if same_bytes(word, "true".as_bytes()) {
        Some(TerminalToken::True)
    } else if same_bytes(word, "try".as_bytes()) {
        Some(TerminalToken::Try)
    } else if same_bytes(word, "typedef".as_bytes()) {
        Some(TerminalToken::Typedef)
    } else if same_bytes(word, "typeof".as_bytes()) {
        Some(TerminalToken::Typeof)
    } else if same_bytes(word, "untyped".as_bytes()) {
        Some(TerminalToken::Untyped)
    } else if same_bytes(word, "wait".as_bytes()) {
        Some(TerminalToken::Wait)
    } else if same_bytes(word, "waitthread".as_bytes()) {
        Some(TerminalToken::WaitThread)
    } else if same_bytes(word, "waitthreadsolo".as_bytes()) {
        Some(TerminalToken::WaitThreadSolo)
    } else if same_bytes(word, "while".as_bytes()) {
        Some(TerminalToken::While)
    } else if same_bytes(word, "yield".as_bytes()) {
        Some(TerminalToken::Yield)
    } else {
        None
    }
}

/// The longest operator or delimiter that starts at a byte, and where it ends.
#[verifier::opaque]
pub open spec fn symbol_at(bytes: Seq<u8>, at: int) -> Option<(TerminalToken, int)> {
    let first = bytes[at];
    if first == '{' as u8 {
        Some((TerminalToken::OpenBrace, at + 1))
    } else if first == '}' as u8 {
        Some((TerminalToken::CloseBrace, at + 1))
    } else if first == '[' as u8 {
        Some((TerminalToken::OpenSquare, at + 1))
    } else if first == ']' as u8 {
        Some((TerminalToken::CloseSquare, at + 1))
    } else if first == '(' as u8 {
        Some((TerminalToken::OpenBracket, at + 1))
    } else if first == ')' as u8 {
        Some((TerminalToken::CloseBracket, at + 1))
    } else if first == ';' as u8 {
        Some((TerminalToken::Semicolon, at + 1))
    } else if first == ',' as u8 {
        Some((TerminalToken::Comma, at + 1))
    } else if first == '?' as u8 {
        Some((TerminalToken::Question, at + 1))
    } else if first == '@' as u8 {
        Some((TerminalToken::At, at + 1))
    } else if first == '~' as u8 {
        Some((TerminalToken::BitwiseNot, at + 1))
    } else if first == '^' as u8 {
        Some((TerminalToken::BitwiseXor, at + 1))
    } else if first == '.' as u8 {
        if has_byte(bytes, at + 1, '.' as u8) && has_byte(bytes, at + 2, '.' as u8) {
            Some((TerminalToken::Vararg, at + 3))
        } else {
            Some((TerminalToken::Dot, at + 1))
        }
    } else if first == ':' as u8 {
        if has_byte(bytes, at + 1, ':' as u8) {
            Some((TerminalToken::Namespace, at + 2))
        } else {
            Some((TerminalToken::Colon, at + 1))
        }
    } else if first == '=' as u8 {
        if has_byte(bytes, at + 1, '=' as u8) {
            Some((TerminalToken::Equal, at + 2))
        } else {
            Some((TerminalToken::Assign, at + 1))
        }
    } else if first == '+' as u8 {
        if has_byte(bytes, at + 1, '+' as u8) {
            Some((TerminalToken::Increment, at + 2))
        } else if has_byte(bytes, at + 1, '=' as u8) {
            Some((TerminalToken::AddAssign, at + 2))
        } else {
            Some((TerminalToken::Add, at + 1))
        }
    } else if first == '-' as u8 {
        if has_byte(bytes, at + 1, '-' as u8) {
            Some((TerminalToken::Decrement, at + 2))
        } else if has_byte(bytes, at + 1, '=' as u8) {
            Some((TerminalToken::SubtractAssign, at + 2))
        } else {
            Some((TerminalToken::Subtract, at + 1))
        }
    } else if first == '*' as u8 {
        if has_byte(bytes, at + 1, '=' as u8) {
            Some((TerminalToken::MultiplyAssign, at + 2))
        } else {
            Some((TerminalToken::Multiply, at + 1))
        }
    } else if first == '/' as u8 {
        if has_byte(bytes, at + 1, '=' as u8) {
            Some((TerminalToken::DivideAssign, at + 2))
        } else if has_byte(bytes, at + 1, '>' as u8) {
            Some((TerminalToken::CloseAttributes, at + 2))
        } else {
            Some((TerminalToken::Divide, at + 1))
        }
    } else if first == '%' as u8 {
        if has_byte(bytes, at + 1, '=' as u8) {
            Some((TerminalToken::ModuloAssign, at + 2))
        } else {
            Some((TerminalToken::Modulo, at + 1))
        }
    } else if first == '!' as u8 {
        if has_byte(bytes, at + 1, '=' as u8) {
            Some((TerminalToken::NotEqual, at + 2))
        } else {
            Some((TerminalToken::LogicalNot, at + 1))
        }
    } else if first == '&' as u8 {
        if has_byte(bytes, at + 1, '&' as u8) {
            Some((TerminalToken::LogicalAnd, at + 2))
        } else {
            Some((TerminalToken::BitwiseAnd, at + 1))
        }
    } else if first == '|' as u8 {
        if has_byte(bytes, at + 1, '|' as u8) {
            Some((TerminalToken::LogicalOr, at + 2))
        } else {
            Some((TerminalToken::BitwiseOr, at + 1))
        }
    } else if first == '<' as u8 {
        if has_byte(bytes, at + 1, '=' as u8) && has_byte(bytes, at + 2, '>' as u8) {
            Some((TerminalToken::ThreeWay, at + 3))
        } else if has_byte(bytes, at + 1, '=' as u8) {
            Some((TerminalToken::LessEqual, at + 2))
        } else if has_byte(bytes, at + 1, '<' as u8) {
            Some((TerminalToken::ShiftLeft, at + 2))
        } else if has_byte(bytes, at + 1, '-' as u8) {
            Some((TerminalToken::NewSlot, at + 2))
        } else if has_byte(bytes, at + 1, '/' as u8) {
            Some((TerminalToken::OpenAttributes, at + 2))
        } else {
            Some((TerminalToken::Less, at + 1))
        }
    } else if first == '>' as u8 {
        if has_byte(bytes, at + 1, '=' as u8) {
            Some((TerminalToken::GreaterEqual, at + 2))
        } else {
            Some((TerminalToken::Greater, at + 1))
        }
    } else {
        None
    }
}

/// An operator or delimiter takes up at least one byte.
pub proof fn lemma_symbol_end(bytes: Seq<u8>, at: int)
    requires
        0 <= at < bytes.len(),
    ensures
        symbol_at(bytes, at) matches Some((_, end)) ==> at < end <= bytes.len(),
{
    reveal(symbol_at);
}

/// Finds the longest operator or delimiter that starts at a byte.
pub fn symbol(bytes: &[u8], at: usize) -> (found: Option<(TerminalToken, usize)>)
    requires
        at < bytes.len(),
    ensures
        match found {
            Some((terminal, end)) => {
                &&& symbol_at(bytes@, at as int) == Some((terminal, end as int))
                &&& at < end <= bytes.len()
                &&& forall|i: int| at <= i < end ==> #[trigger] bytes@[i] < 0x80
            },
            None => symbol_at(bytes@, at as int) is None,
        },
{
    reveal(symbol_at);
    let first = bytes[at];
    if first == '{' as u8 {
        Some((TerminalToken::OpenBrace, at + 1))
    } else if first == '}' as u8 {
        Some((TerminalToken::CloseBrace, at + 1))
    } else if first == '[' as u8 {
        Some((TerminalToken::OpenSquare, at + 1))
    } else if first == ']' as u8 {
        Some((TerminalToken::CloseSquare, at + 1))
    } else if first == '(' as u8 {
        Some((TerminalToken::OpenBracket, at + 1))
    } else if first == ')' as u8 {
        Some((TerminalToken::CloseBracket, at + 1))
    } else if first == ';' as u8 {
        Some((TerminalToken::Semicolon, at + 1))
    } else if first == ',' as u8 {
        Some((TerminalToken::Comma, at + 1))
    } else if first == '?' as u8 {
        Some((TerminalToken::Question, at + 1))
    } else if first == '@' as u8 {
        Some((TerminalToken::At, at + 1))
    } else if first == '~' as u8 {
        Some((TerminalToken::BitwiseNot, at + 1))
    } else if first == '^' as u8 {
        Some((TerminalToken::BitwiseXor, at + 1))
    } else if first == '.' as u8 {
        if byte_is(bytes, at + 1, '.' as u8) && byte_is(bytes, at + 2, '.' as u8) {
            Some((TerminalToken::Vararg, at + 3))
        } else {
            Some((TerminalToken::Dot, at + 1))
        }
    } else if first == ':' as u8 {
        if byte_is(bytes, at + 1, ':' as u8) {
            Some((TerminalToken::Namespace, at + 2))
        } else {
            Some((TerminalToken::Colon, at + 1))
        }
    } else if first == '=' as u8 {
        if byte_is(bytes, at + 1, '=' as u8) {
            Some((TerminalToken::Equal, at + 2))
        } else {
            Some((TerminalToken::Assign, at + 1))
        }
    } else if first == '+' as u8 {
        if byte_is(bytes, at + 1, '+' as u8) {
            Some((TerminalToken::Increment, at + 2))
        } else if byte_is(bytes, at + 1, '=' as u8) {
            Some((TerminalToken::AddAssign, at + 2))
        } else {
            Some((TerminalToken::Add, at + 1))
        }
    } else if first == '-' as u8 {
        if byte_is(bytes, at + 1, '-' as u8) {
            Some((TerminalToken::Decrement, at + 2))
        } else if byte_is(bytes, at + 1, '=' as u8) {
            Some((TerminalToken::SubtractAssign, at + 2))
        } else {
            Some((TerminalToken::Subtract, at + 1))
        }
    } else if first == '*' as u8 {
        if byte_is(bytes, at + 1, '=' as u8) {
            Some((TerminalToken::MultiplyAssign, at + 2))
        } else {
            Some((TerminalToken::Multiply, at + 1))
        }
    } else if first == '/' as u8 {
        if byte_is(bytes, at + 1, '=' as u8) {
            Some((TerminalToken::DivideAssign, at + 2))
        } else if byte_is(bytes, at + 1, '>' as u8) {
            Some((TerminalToken::CloseAttributes, at + 2))
        } else {
            Some((TerminalToken::Divide, at + 1))
        }
    } else if first == '%' as u8 {
        if byte_is(bytes, at + 1, '=' as u8) {
            Some((TerminalToken::ModuloAssign, at + 2))
        } else {
            Some((TerminalToken::Modulo, at + 1))
        }
    } else if first == '!' as u8 {
        if byte_is(bytes, at + 1, '=' as u8) {
            Some((TerminalToken::NotEqual, at + 2))
        } else {
            Some((TerminalToken::LogicalNot, at + 1))
        }
    } else if first == '&' as u8 {
        if byte_is(bytes, at + 1, '&' as u8) {
            Some((TerminalToken::LogicalAnd, at + 2))
        } else {
            Some((TerminalToken::BitwiseAnd, at + 1))
        }
    } else if first == '|' as u8 {
        if byte_is(bytes, at + 1, '|' as u8) {
            Some((TerminalToken::LogicalOr, at + 2))
        } else {
            Some((TerminalToken::BitwiseOr, at + 1))
        }
    } else if first == '<' as u8 {
        if byte_is(bytes, at + 1, '=' as u8) && byte_is(bytes, at + 2, '>' as u8) {
            Some((TerminalToken::ThreeWay, at + 3))
        } else if byte_is(bytes, at + 1, '=' as u8) {
            Some((TerminalToken::LessEqual, at + 2))
        } else if byte_is(bytes, at + 1, '<' as u8) {
            Some((TerminalToken::ShiftLeft, at + 2))
        } else if byte_is(bytes, at + 1, '-' as u8) {
            Some((TerminalToken::NewSlot, at + 2))
        } else if byte_is(bytes, at + 1, '/' as u8) {
            Some((TerminalToken::OpenAttributes, at + 2))
        } else {
            Some((TerminalToken::Less, at + 1))
        }
    } else if first == '>' as u8 {
        if byte_is(bytes, at + 1, '=' as u8) {
            Some((TerminalToken::GreaterEqual, at + 2))
        } else {
            Some((TerminalToken::Greater, at + 1))
        }
    } else {
        None
    }
}

} // verus!
