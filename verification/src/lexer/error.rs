use crate::token::{TokenType, TypeView};
use std::ops::Range;
use vstd::prelude::*;

verus! {

/// What is wrong with a part of a source text.
#[derive(Debug, Clone, Copy, PartialEq)]
pub enum LexerErrorType<'s> {
    /// A character that starts no token.
    InvalidInput,

    /// A string or character literal that is not closed in its line.
    EndOfLineInsideString,

    /// A string or character literal that is not closed at all.
    EndOfInputInsideString,

    /// A `/*` that is not closed.
    EndOfInputInsideComment,

    /// A closing delimiter that is not the one that the innermost open delimiter needs.
    MismatchedClose {
        /// The innermost open delimiter.
        open: TokenType<'s>,
        /// The delimiter that closes it.
        expected_close: TokenType<'s>,
        /// The delimiter that was found.
        actual_close: TokenType<'s>,
    },

    /// A closing delimiter where no delimiter is open.
    UnmatchedClose {
        /// The closing delimiter.
        close: TokenType<'s>,
    },

    /// An opening delimiter that is never closed.
    UnmatchedOpener {
        /// The opening delimiter.
        open: TokenType<'s>,
        /// The delimiter that would close it.
        close: TokenType<'s>,
    },
}

/// An error in a source text, and where it is.
#[derive(Debug, PartialEq)]
pub struct LexerError<'s> {
    /// What is wrong.
    pub ty: LexerErrorType<'s>,

    /// The bytes of the source that the error is about.
    pub range: Range<usize>,
}

/// The value of a [`LexerErrorType`].
pub enum ErrorTypeView {
    InvalidInput,
    EndOfLineInsideString,
    EndOfInputInsideString,
    EndOfInputInsideComment,
    MismatchedClose { open: TypeView, expected_close: TypeView, actual_close: TypeView },
    UnmatchedClose { close: TypeView },
    UnmatchedOpener { open: TypeView, close: TypeView },
}

/// The value of a [`LexerError`].
pub struct ErrorView {
    pub ty: ErrorTypeView,
    pub start: int,
    pub end: int,
}

impl View for LexerErrorType<'_> {
    type V = ErrorTypeView;

    open spec fn view(&self) -> ErrorTypeView {
        match *self {
            LexerErrorType::InvalidInput => ErrorTypeView::InvalidInput,
            LexerErrorType::EndOfLineInsideString => ErrorTypeView::EndOfLineInsideString,
            LexerErrorType::EndOfInputInsideString => ErrorTypeView::EndOfInputInsideString,
            LexerErrorType::EndOfInputInsideComment => ErrorTypeView::EndOfInputInsideComment,
            LexerErrorType::MismatchedClose { open, expected_close, actual_close } =>
                ErrorTypeView::MismatchedClose {
                    open: open@,
                    expected_close: expected_close@,
                    actual_close: actual_close@,
                },
            LexerErrorType::UnmatchedClose { close } => ErrorTypeView::UnmatchedClose {
                close: close@,
            },
            LexerErrorType::UnmatchedOpener { open, close } => ErrorTypeView::UnmatchedOpener {
                open: open@,
                close: close@,
            },
        }
    }
}

impl View for LexerError<'_> {
    type V = ErrorView;

    open spec fn view(&self) -> ErrorView {
        ErrorView {
            ty: self.ty@,
            start: self.range.start as int,
            end: self.range.end as int,
        }
    }
}

/// The values of a run of errors.
pub open spec fn error_views<'s>(errors: Seq<LexerError<'s>>) -> Seq<ErrorView> {
    Seq::new(errors.len(), |i: int| errors[i]@)
}

impl<'s> LexerError<'s> {
    /// Creates an error about a range of the source.
    pub fn new(ty: LexerErrorType<'s>, range: Range<usize>) -> (error: Self)
        ensures
            error.ty == ty,
            error.range == range,
    {
        LexerError { ty, range }
    }
}

impl Clone for LexerError<'_> {
    fn clone(&self) -> (copy: Self)
        ensures
            copy == *self,
    {
        LexerError { ty: self.ty, range: self.range.start..self.range.end }
    }
}

} // verus!
