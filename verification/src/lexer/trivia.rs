use crate::lexer::terminal::byte_is;
use crate::lexer::text::slice_text;
use crate::lexer::{terminal, text};
use crate::token;
use crate::token::{Comment, CommentView, TokenLine};
use vstd::prelude::*;
use vstd::string::StringSliceAdditionalSpecFns;

verus! {

/// The bytes that separate tokens within a line.
pub open spec fn is_blank(byte: u8) -> bool {
    byte == ' ' as u8 || byte == '\t' as u8 || byte == '\r' as u8
}

/// The first line break at or behind a byte, or the end of the text.
pub open spec fn line_end(bytes: Seq<u8>, at: int) -> int
    decreases bytes.len() - at,
{
    if at < bytes.len() && bytes[at] != '\n' as u8 {
        line_end(bytes, at + 1)
    } else {
        at
    }
}

/// The end of the first `*/` at or behind a byte, if there is one.
pub open spec fn block_end(bytes: Seq<u8>, at: int) -> Option<int>
    decreases bytes.len() - at,
{
    if at >= bytes.len() {
        None
    } else if bytes[at] == '*' as u8 && terminal::has_byte(bytes, at + 1, '/' as u8) {
        Some(at + 2)
    } else {
        block_end(bytes, at + 1)
    }
}

/// The comment that starts at a byte, and where it ends.
pub open spec fn comment_at(bytes: Seq<u8>, at: int) -> Option<(CommentView, int)> {
    if terminal::has_byte(bytes, at, '#' as u8) {
        let end = line_end(bytes, at + 1);
        Some((CommentView::ScriptStyle(bytes.subrange(at, end)), end))
    } else if terminal::has_byte(bytes, at, '/' as u8) && terminal::has_byte(
        bytes,
        at + 1,
        '/' as u8,
    ) {
        let end = line_end(bytes, at + 2);
        Some((CommentView::SingleLine(bytes.subrange(at, end)), end))
    } else if terminal::has_byte(bytes, at, '/' as u8) && terminal::has_byte(
        bytes,
        at + 1,
        '*' as u8,
    ) {
        match block_end(bytes, at + 2) {
            Some(end) => Some((CommentView::MultiLine(bytes.subrange(at, end)), end)),
            None => None,
        }
    } else {
        None
    }
}

pub proof fn lemma_line_end(bytes: Seq<u8>, at: int)
    requires
        0 <= at <= bytes.len(),
    ensures
        at <= line_end(bytes, at) <= bytes.len(),
    decreases bytes.len() - at,
{
    if at < bytes.len() && bytes[at] != '\n' as u8 {
        lemma_line_end(bytes, at + 1);
    }
}

pub proof fn lemma_block_end(bytes: Seq<u8>, at: int)
    requires
        0 <= at <= bytes.len(),
    ensures
        block_end(bytes, at) matches Some(end) ==> at < end <= bytes.len(),
    decreases bytes.len() - at,
{
    if at < bytes.len() {
        lemma_block_end(bytes, at + 1);
    }
}

/// A comment takes up at least one byte.
pub proof fn lemma_comment_end(bytes: Seq<u8>, at: int)
    ensures
        comment_at(bytes, at) matches Some((_, end)) ==> 0 <= at < end <= bytes.len(),
{
    if 0 <= at < bytes.len() {
        lemma_line_end(bytes, at + 1);
        if at + 2 <= bytes.len() {
            lemma_line_end(bytes, at + 2);
            lemma_block_end(bytes, at + 2);
        }
    }
}

/// The comments from a byte on in its line, behind those found before, and the first byte that
/// belongs to neither a comment nor blank space.
pub open spec fn rest_of_line(bytes: Seq<u8>, at: int, found: Seq<CommentView>) -> (
    Seq<CommentView>,
    int,
)
    decreases bytes.len() - at,
{
    if 0 <= at < bytes.len() && is_blank(bytes[at]) {
        rest_of_line(bytes, at + 1, found)
    } else {
        proof {
            lemma_comment_end(bytes, at);
        }
        match comment_at(bytes, at) {
            Some((comment, end)) => rest_of_line(bytes, end, found.push(comment)),
            None => (found, at),
        }
    }
}

pub proof fn lemma_rest_of_line(bytes: Seq<u8>, at: int, found: Seq<CommentView>)
    requires
        0 <= at <= bytes.len(),
    ensures
        at <= rest_of_line(bytes, at, found).1 <= bytes.len(),
    decreases bytes.len() - at,
{
    if at < bytes.len() && is_blank(bytes[at]) {
        lemma_rest_of_line(bytes, at + 1, found);
    } else {
        lemma_comment_end(bytes, at);
        if let Some((comment, end)) = comment_at(bytes, at) {
            lemma_rest_of_line(bytes, end, found.push(comment));
        }
    }
}

/// What stands between a byte and the next token.
pub struct Gap {
    /// The lines that end before the line of the token, as their comments.
    pub lines: Seq<Seq<CommentView>>,
    /// The comments before the token in its own line.
    pub comments: Seq<CommentView>,
    /// The first byte of the token, or the end of the text.
    pub end: int,
}

/// What stands between a byte and the next token, behind the lines found before.
pub open spec fn gap_from(bytes: Seq<u8>, at: int, lines: Seq<Seq<CommentView>>) -> Gap
    decreases bytes.len() - at,
{
    let (comments, end) = rest_of_line(bytes, at, Seq::empty());
    if 0 <= at && terminal::has_byte(bytes, end, '\n' as u8) {
        proof {
            if at <= bytes.len() {
                lemma_rest_of_line(bytes, at, Seq::empty());
            }
        }
        gap_from(bytes, end + 1, lines.push(comments))
    } else {
        Gap { lines, comments, end }
    }
}

pub proof fn lemma_gap(bytes: Seq<u8>, at: int, lines: Seq<Seq<CommentView>>)
    requires
        0 <= at <= bytes.len(),
    ensures
        at <= gap_from(bytes, at, lines).end <= bytes.len(),
    decreases bytes.len() - at,
{
    lemma_rest_of_line(bytes, at, Seq::empty());
    let (comments, end) = rest_of_line(bytes, at, Seq::empty());
    if terminal::has_byte(bytes, end, '\n' as u8) {
        lemma_gap(bytes, end + 1, lines.push(comments));
    }
}

/// Finds the end of a line.
fn find_line_end(bytes: &[u8], start: usize) -> (end: usize)
    requires
        start <= bytes.len(),
    ensures
        end == line_end(bytes@, start as int),
        start <= end <= bytes.len(),
        text::is_cut(bytes@, end as int),
{
    let mut end = start;
    while end < bytes.len() && bytes[end] != '\n' as u8
        invariant
            start <= end <= bytes.len(),
            line_end(bytes@, end as int) == line_end(bytes@, start as int),
        decreases bytes.len() - end,
    {
        end += 1;
    }
    end
}

/// Finds the end of a block comment.
fn find_block_end(bytes: &[u8], start: usize) -> (found: Option<usize>)
    requires
        vstd::utf8::valid_utf8(bytes@),
        start <= bytes.len(),
    ensures
        match found {
            Some(end) => {
                &&& block_end(bytes@, start as int) == Some(end as int)
                &&& start < end <= bytes.len()
                &&& text::is_cut(bytes@, end as int)
            },
            None => block_end(bytes@, start as int) is None,
        },
{
    let mut at = start;
    while at < bytes.len()
        invariant
            vstd::utf8::valid_utf8(bytes@),
            start <= at <= bytes.len(),
            block_end(bytes@, at as int) == block_end(bytes@, start as int),
        decreases bytes.len() - at,
    {
        if bytes[at] == '*' as u8 && byte_is(bytes, at + 1, '/' as u8) {
            proof {
                text::lemma_cut_after_ascii(bytes@, at + 1);
            }
            return Some(at + 2);
        }
        at += 1;
    }
    None
}

/// Reads the comment that starts at a byte.
fn comment<'s>(source: &'s str, bytes: &[u8], start: usize) -> (found: Option<
    (Comment<'s>, usize),
>)
    requires
        bytes@ == source.spec_bytes(),
        start <= bytes.len(),
    ensures
        match found {
            Some((comment, end)) => {
                &&& comment_at(bytes@, start as int) == Some((comment@, end as int))
                &&& start < end <= bytes.len()
                &&& text::is_cut(bytes@, end as int)
            },
            None => comment_at(bytes@, start as int) is None,
        },
{
    proof {
        vstd::utf8::encode_utf8_valid_utf8(source@);
    }
    if byte_is(bytes, start, '#' as u8) {
        let end = find_line_end(bytes, start + 1);
        Some((Comment::ScriptStyle(slice_text(source, start, end)), end))
    } else if byte_is(bytes, start, '/' as u8) && byte_is(bytes, start + 1, '/' as u8) {
        let end = find_line_end(bytes, start + 2);
        Some((Comment::SingleLine(slice_text(source, start, end)), end))
    } else if byte_is(bytes, start, '/' as u8) && byte_is(bytes, start + 1, '*' as u8) {
        match find_block_end(bytes, start + 2) {
            Some(end) => Some((Comment::MultiLine(slice_text(source, start, end)), end)),
            None => None,
        }
    } else {
        None
    }
}

/// Reads the comments from a byte on in its line.
pub fn line_trivia<'s>(source: &'s str, bytes: &[u8], start: usize) -> (found: (
    Vec<Comment<'s>>,
    usize,
))
    requires
        bytes@ == source.spec_bytes(),
        text::is_cut(bytes@, start as int),
    ensures
        rest_of_line(bytes@, start as int, Seq::empty()) == (
            token::comment_views(found.0@),
            found.1 as int,
        ),
        start <= found.1 <= bytes.len(),
        text::is_cut(bytes@, found.1 as int),
{
    proof {
        vstd::utf8::encode_utf8_valid_utf8(source@);
    }
    let mut comments: Vec<Comment<'s>> = Vec::new();
    let mut at = start;
    assert(token::comment_views(comments@) =~= Seq::empty());
    loop
        invariant
            bytes@ == source.spec_bytes(),
            vstd::utf8::valid_utf8(bytes@),
            start <= at <= bytes.len(),
            text::is_cut(bytes@, at as int),
            rest_of_line(bytes@, at as int, token::comment_views(comments@)) == rest_of_line(
                bytes@,
                start as int,
                Seq::empty(),
            ),
        ensures
            start <= at <= bytes.len(),
            text::is_cut(bytes@, at as int),
            rest_of_line(bytes@, start as int, Seq::empty()) == (
                token::comment_views(comments@),
                at as int,
            ),
        decreases bytes.len() - at,
    {
        if at < bytes.len() && (bytes[at] == ' ' as u8 || bytes[at] == '\t' as u8 || bytes[at]
            == '\r' as u8) {
            proof {
                text::lemma_cut_after_ascii(bytes@, at as int);
            }
            at += 1;
        } else {
            match comment(source, bytes, at) {
                Some((comment, end)) => {
                    let ghost before = comments@;
                    comments.push(comment);
                    assert(token::comment_views(comments@) =~= token::comment_views(before).push(
                        comment@,
                    ));
                    at = end;
                },
                None => {
                    break;
                },
            }
        }
    }
    (comments, at)
}

/// Reads what stands between a byte and the next token.
pub fn gap<'s>(source: &'s str, bytes: &[u8], start: usize) -> (found: (
    Vec<TokenLine<'s>>,
    Vec<Comment<'s>>,
    usize,
))
    requires
        bytes@ == source.spec_bytes(),
        text::is_cut(bytes@, start as int),
    ensures
        gap_from(bytes@, start as int, Seq::empty()) == (Gap {
            lines: token::line_views(found.0@),
            comments: token::comment_views(found.1@),
            end: found.2 as int,
        }),
        start <= found.2 <= bytes.len(),
        text::is_cut(bytes@, found.2 as int),
{
    proof {
        vstd::utf8::encode_utf8_valid_utf8(source@);
    }
    let mut lines: Vec<TokenLine<'s>> = Vec::new();
    let mut at = start;
    assert(token::line_views(lines@) =~= Seq::empty());
    loop
        invariant
            bytes@ == source.spec_bytes(),
            vstd::utf8::valid_utf8(bytes@),
            start <= at <= bytes.len(),
            text::is_cut(bytes@, at as int),
            gap_from(bytes@, at as int, token::line_views(lines@)) == gap_from(
                bytes@,
                start as int,
                Seq::empty(),
            ),
        decreases bytes.len() - at,
    {
        let (comments, end) = line_trivia(source, bytes, at);
        if !byte_is(bytes, end, '\n' as u8) {
            return (lines, comments, end);
        }
        let ghost before = lines@;
        lines.push(TokenLine { comments });
        assert(token::line_views(lines@) =~= token::line_views(before).push(
            token::comment_views(comments@),
        ));
        proof {
            text::lemma_cut_after_ascii(bytes@, end as int);
        }
        at = end + 1;
    }
}

} // verus!
