use crate::flavor::Flavor;
use crate::lexer::error::{ErrorView, LexerError};
use crate::lexer::lexeme::lexeme;
use crate::lexer::terminal::byte_is;
use crate::lexer::trivia::{gap, line_trivia};
use crate::lexer::{lexeme, terminal, text, trivia};
use crate::token::{Token, TokenLine, TokenView};
use vstd::prelude::*;
use vstd::string::StringSliceAdditionalSpecFns;

verus! {

/// What a step of the iterator finds: a token, or an error in place of one.
pub type Lexed = Result<TokenView, ErrorView>;

/// The next token or error from a byte on, and where the step behind it starts.
///
/// A token that is the last one of its line takes the rest of the line with it. Behind an error the
/// next step starts where the erroneous text ends.
pub open spec fn next_from(bytes: Seq<u8>, at: int) -> Option<(Lexed, int)> {
    let gap = trivia::gap_from(bytes, at, Seq::empty());
    if gap.end >= bytes.len() {
        None
    } else {
        match lexeme::lexeme_at(bytes, gap.end) {
            Ok((ty, end)) => {
                let (rest, rest_end) = trivia::rest_of_line(bytes, end, Seq::empty());
                let ends_line = terminal::has_byte(bytes, rest_end, '\n' as u8);
                let token = TokenView {
                    ty,
                    start: gap.end,
                    end,
                    comments: gap.comments,
                    before_lines: gap.lines,
                    new_line: if ends_line {
                        Some(rest)
                    } else {
                        None
                    },
                };
                Some(
                    (
                        Ok(token),
                        if ends_line {
                            rest_end + 1
                        } else {
                            end
                        },
                    ),
                )
            },
            Err((ty, end)) => Some((Err(ErrorView { ty, start: gap.end, end }), end)),
        }
    }
}

/// Each step takes up at least one byte.
pub proof fn lemma_next_progress(bytes: Seq<u8>, at: int)
    requires
        0 <= at <= bytes.len(),
    ensures
        next_from(bytes, at) matches Some((_, next)) ==> at < next <= bytes.len(),
{
    lemma_next_range(bytes, at);
}

/// What a step finds lies between where the step starts and where the next one does.
pub proof fn lemma_next_range(bytes: Seq<u8>, at: int)
    requires
        0 <= at <= bytes.len(),
    ensures
        match next_from(bytes, at) {
            Some((Ok(token), next)) => at <= token.start < token.end <= next <= bytes.len(),
            Some((Err(error), next)) => at <= error.start < error.end <= next <= bytes.len(),
            None => true,
        },
{
    trivia::lemma_gap(bytes, at, Seq::empty());
    let start = trivia::gap_from(bytes, at, Seq::empty()).end;
    if start < bytes.len() {
        lexeme::lemma_lexeme_end(bytes, start);
        if let Ok((_, end)) = lexeme::lexeme_at(bytes, start) {
            trivia::lemma_rest_of_line(bytes, end, Seq::empty());
        }
    }
}

/// All tokens and errors from a byte on, in the order of the text.
pub open spec fn lexed_from(bytes: Seq<u8>, at: int) -> Seq<Lexed>
    decreases bytes.len() - at,
{
    if 0 <= at <= bytes.len() {
        proof {
            lemma_next_progress(bytes, at);
        }
        match next_from(bytes, at) {
            Some((found, next)) => seq![found] + lexed_from(bytes, next),
            None => Seq::empty(),
        }
    } else {
        Seq::empty()
    }
}

/// All tokens and errors of a text that is written in a dialect.
pub open spec fn lexed(bytes: Seq<u8>, flavor: Flavor) -> Seq<Lexed> {
    match flavor {
        Flavor::SquirrelRespawn => lexed_from(bytes, 0),
    }
}

/// The value of what a step of the iterator returns.
pub open spec fn step_view(found: Result<Token<'_>, LexerError<'_>>) -> Lexed {
    match found {
        Ok(token) => Ok(token@),
        Err(error) => Err(error@),
    }
}

/// Reads the tokens of a text one by one.
pub struct TokenIter<'s> {
    source: &'s str,
    bytes: &'s [u8],
    position: usize,
}

impl<'s> TokenIter<'s> {
    /// Whether the iterator stands between two characters of its text.
    pub closed spec fn wf(&self) -> bool {
        &&& self.bytes@ == self.source.spec_bytes()
        &&& text::is_cut(self.bytes@, self.position as int)
    }

    /// The tokens and errors that are still to come.
    pub closed spec fn remaining(&self) -> Seq<Lexed> {
        lexed_from(self.source.spec_bytes(), self.position as int)
    }

    /// Starts to read a text.
    pub fn new(source: &'s str, flavor: Flavor) -> (iter: Self)
        ensures
            iter.wf(),
            iter.remaining() == lexed(source.spec_bytes(), flavor),
    {
        proof {
            vstd::utf8::encode_utf8_valid_utf8(source@);
        }
        match flavor {
            Flavor::SquirrelRespawn => TokenIter { source, bytes: source.as_bytes(), position: 0 },
        }
    }

    /// Reads the next token, or the error that stands in its place.
    pub fn next(&mut self) -> (found: Option<Result<Token<'s>, LexerError<'s>>>)
        requires
            old(self).wf(),
        ensures
            final(self).wf(),
            match found {
                Some(step) => {
                    &&& old(self).remaining().len() > 0
                    &&& step_view(step) == old(self).remaining()[0]
                    &&& final(self).remaining() == old(self).remaining().drop_first()
                },
                None => {
                    &&& old(self).remaining().len() == 0
                    &&& final(self).remaining() == old(self).remaining()
                },
            },
    {
        proof {
            vstd::utf8::encode_utf8_valid_utf8(self.source@);
            lemma_next_progress(self.bytes@, self.position as int);
        }
        let ghost at = self.position as int;
        let (before_lines, comments, start) = gap(self.source, self.bytes, self.position);
        if start >= self.bytes.len() {
            return None;
        }
        match lexeme(self.source, self.bytes, start) {
            Ok((ty, end)) => {
                let (rest, rest_end) = line_trivia(self.source, self.bytes, end);
                let new_line = if byte_is(self.bytes, rest_end, '\n' as u8) {
                    proof {
                        text::lemma_cut_after_ascii(self.bytes@, rest_end as int);
                    }
                    self.position = rest_end + 1;
                    Some(TokenLine { comments: rest })
                } else {
                    self.position = end;
                    None
                };
                let token = Token { ty, range: start..end, comments, before_lines, new_line };
                assert(next_from(self.bytes@, at) == Some(
                    (Ok::<TokenView, ErrorView>(token@), self.position as int),
                ));
                assert(lexed_from(self.bytes@, at).drop_first() =~= lexed_from(
                    self.bytes@,
                    self.position as int,
                ));
                Some(Ok(token))
            },
            Err((ty, end)) => {
                self.position = end;
                let error = LexerError::new(ty, start..end);
                assert(lexed_from(self.bytes@, at).drop_first() =~= lexed_from(
                    self.bytes@,
                    self.position as int,
                ));
                Some(Err(error))
            },
        }
    }
}

} // verus!
