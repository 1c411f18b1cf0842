pub mod control;
pub mod definition;
pub mod error;
pub mod expression;
pub mod function;
pub mod grammar;
pub mod laws;
pub mod name;
pub mod operator;
pub mod parts;
pub mod recovery;
pub mod spelling;
pub mod statement;
pub mod type_;
pub mod variable;

pub use self::error::{ParseError, ParseErrorType};

use self::recovery::recovery_end;
use self::statement::flavored_statement;
use crate::ast::{Program, Statement};
use crate::flavor::Flavor;
use crate::lexer;
use crate::lexer::TokenItem;
use std::ops::Range;
use vstd::prelude::*;

verus! {

/// The statements from a place on behind those found before, or the first error.
pub open spec fn statements_from<'s>(
    items: Seq<TokenItem<'s>>,
    flavor: Flavor,
    at: int,
    found: Seq<Statement<'s>>,
) -> Result<Seq<Statement<'s>>, ParseError>
    decreases grammar::left(items, at),
{
    if at >= items.len() {
        Ok(found)
    } else {
        match statement::statement_of(items, flavor, at) {
            Ok((next, statement)) => statements_from(items, flavor, next, found.push(statement)),
            Err(error) => Err(error),
        }
    }
}

/// Parses an input token list into a syntax tree.
///
/// # Example
/// ```
/// use sqparse::{Flavor, parse, tokenize};
///
/// let source = r#"
/// global function MyFunction
///
/// struct {
///     int a
/// } file
///
/// string function MyFunction( List<number> values ) {
///     values.push(1 + 2)
/// }
/// "#;
/// let tokens = tokenize(source, Flavor::SquirrelRespawn).unwrap();
///
/// let program = parse(&tokens, Flavor::SquirrelRespawn).unwrap();
/// assert_eq!(program.statements.len(), 3);
/// ```
pub fn parse<'s>(items: &'s [TokenItem<'s>], flavor: Flavor) -> (parsed: Result<
    Program<'s>,
    ParseError,
>)
    ensures
        match parsed {
            Ok(program) => statements_from(items@, flavor, 0, Seq::empty()) == Ok::<
                Seq<Statement<'s>>,
                ParseError,
            >(program.statements@),
            Err(error) => statements_from(items@, flavor, 0, Seq::empty()) == Err::<
                Seq<Statement<'s>>,
                ParseError,
            >(error),
        },
{
    let mut statements: Vec<Statement<'s>> = Vec::new();
    let mut at: usize = 0;
    while at < items.len()
        invariant
            at <= items.len(),
            statements_from(items@, flavor, at as int, statements@) == statements_from(
                items@,
                flavor,
                0,
                Seq::empty(),
            ),
        decreases items.len() - at,
    {
        let (next, parsed) = flavored_statement(items, flavor, at)?;
        statements.push(parsed);
        at = next;
    }
    Ok(Program { statements })
}

/// Statements and errors recovered from a token list that may contain parser errors.
///
/// Every returned statement was parsed normally from the original tokens. Malformed top-level
/// regions are omitted rather than represented by synthetic AST nodes. Tokenization must still
/// succeed, so this does not recover from unmatched delimiters or lexer errors.
#[derive(Debug)]
pub struct PartialParse<'s> {
    /// Independently valid top-level statements.
    pub statements: Vec<ParsedStatement<'s>>,

    /// Parser errors and the token regions discarded to resume parsing.
    pub errors: Vec<ParseRecovery>,
}

/// A normally parsed statement and the absolute token range it consumed.
#[derive(Debug)]
pub struct ParsedStatement<'s> {
    /// The parsed statement.
    pub statement: Statement<'s>,

    /// Absolute token indices consumed by the statement.
    pub token_range: Range<usize>,
}

/// A parser error and the top-level token region discarded after it.
#[derive(Debug)]
pub struct ParseRecovery {
    /// The original parser error.
    pub error: ParseError,

    /// Absolute token indices discarded before parsing resumed.
    pub token_range: Range<usize>,
}

/// The value of a [`ParsedStatement`].
pub struct StatementView<'s> {
    pub statement: Statement<'s>,
    pub start: int,
    pub end: int,
}

/// The value of a [`ParseRecovery`].
pub struct RecoveryView {
    pub error: ParseError,
    pub start: int,
    pub end: int,
}

/// The value of a [`PartialParse`].
pub struct PartialView<'s> {
    pub statements: Seq<StatementView<'s>>,
    pub errors: Seq<RecoveryView>,
}

impl<'s> View for ParsedStatement<'s> {
    type V = StatementView<'s>;

    open spec fn view(&self) -> StatementView<'s> {
        StatementView {
            statement: self.statement,
            start: self.token_range.start as int,
            end: self.token_range.end as int,
        }
    }
}

impl View for ParseRecovery {
    type V = RecoveryView;

    open spec fn view(&self) -> RecoveryView {
        RecoveryView {
            error: self.error,
            start: self.token_range.start as int,
            end: self.token_range.end as int,
        }
    }
}

impl Clone for ParsedStatement<'_> {
    fn clone(&self) -> (copy: Self)
        ensures
            copy == *self,
    {
        ParsedStatement {
            statement: self.statement.clone(),
            token_range: self.token_range.start..self.token_range.end,
        }
    }
}

impl Clone for ParseRecovery {
    fn clone(&self) -> (copy: Self)
        ensures
            copy == *self,
    {
        ParseRecovery {
            error: self.error,
            token_range: self.token_range.start..self.token_range.end,
        }
    }
}

/// The values of statements.
pub open spec fn statement_views<'s>(statements: Seq<ParsedStatement<'s>>) -> Seq<
    StatementView<'s>,
> {
    Seq::new(statements.len(), |i: int| statements[i]@)
}

/// The values of errors.
pub open spec fn recovery_views(errors: Seq<ParseRecovery>) -> Seq<RecoveryView> {
    Seq::new(errors.len(), |i: int| errors[i]@)
}

impl<'s> View for PartialParse<'s> {
    type V = PartialView<'s>;

    open spec fn view(&self) -> PartialView<'s> {
        PartialView {
            statements: statement_views(self.statements@),
            errors: recovery_views(self.errors@),
        }
    }
}

impl Clone for PartialParse<'_> {
    fn clone(&self) -> (copy: Self)
        ensures
            copy@ == self@,
    {
        let statements = self.statements.clone();
        let errors = self.errors.clone();
        assert(statement_views(statements@) =~= statement_views(self.statements@)) by {
            assert forall|i: int| 0 <= i < statements@.len() implies statements@[i]
                == self.statements@[i] by {
                assert(cloned(self.statements@[i], statements@[i]));
            }
        }
        assert(recovery_views(errors@) =~= recovery_views(self.errors@)) by {
            assert forall|i: int| 0 <= i < errors@.len() implies errors@[i]
                == self.errors@[i] by {
                assert(cloned(self.errors@[i], errors@[i]));
            }
        }
        PartialParse { statements, errors }
    }
}

/// What is recovered from the tokens from a place on, behind what was found before.
///
/// Behind a statement that cannot be parsed, parsing resumes where [`recovery::resume_at`] says.
pub open spec fn partial_from<'s>(
    items: Seq<TokenItem<'s>>,
    flavor: Flavor,
    at: int,
    found: PartialView<'s>,
) -> PartialView<'s>
    decreases grammar::left(items, at),
{
    if at >= items.len() {
        found
    } else {
        match statement::statement_of(items, flavor, at) {
            Ok((next, statement)) => partial_from(
                items,
                flavor,
                next,
                PartialView {
                    statements: found.statements.push(
                        StatementView { statement, start: at, end: next },
                    ),
                    ..found
                },
            ),
            Err(error) => {
                let next = recovery::resume_at(items, at, error);
                proof {
                    recovery::lemma_resume_progress(items, at, error);
                }
                partial_from(
                    items,
                    flavor,
                    next,
                    PartialView {
                        errors: found.errors.push(RecoveryView { error, start: at, end: next }),
                        ..found
                    },
                )
            },
        }
    }
}

/// What is recovered from a list of tokens.
pub open spec fn partial_of<'s>(items: Seq<TokenItem<'s>>, flavor: Flavor) -> PartialView<'s> {
    partial_from(
        items,
        flavor,
        0,
        PartialView { statements: Seq::empty(), errors: Seq::empty() },
    )
}

/// Parses all independently valid top-level statements, skipping malformed regions.
///
/// This is intended for analysis tools that can use an incomplete syntax tree. Formatters and
/// other source-preserving transformations should continue to use [`parse`].
pub fn parse_partial<'s>(items: &'s [TokenItem<'s>], flavor: Flavor) -> (partial: PartialParse<'s>)
    requires
        lexer::indices_wf(items@),
    ensures
        partial@ == partial_of(items@, flavor),
{
    let mut statements: Vec<ParsedStatement<'s>> = Vec::new();
    let mut errors: Vec<ParseRecovery> = Vec::new();
    let mut at: usize = 0;
    assert(statement_views(statements@) =~= Seq::empty());
    assert(recovery_views(errors@) =~= Seq::empty());
    while at < items.len()
        invariant
            lexer::indices_wf(items@),
            at <= items.len(),
            partial_from(
                items@,
                flavor,
                at as int,
                PartialView {
                    statements: statement_views(statements@),
                    errors: recovery_views(errors@),
                },
            ) == partial_of(items@, flavor),
        decreases items.len() - at,
    {
        match flavored_statement(items, flavor, at) {
            Ok((next, parsed)) => {
                let ghost before = statements@;
                let entry = ParsedStatement { statement: parsed, token_range: at..next };
                let ghost value = entry@;
                statements.push(entry);
                assert(statement_views(statements@) =~= statement_views(before).push(value));
                at = next;
            },
            Err(error) => {
                let ghost before = errors@;
                let next = recovery_end(items, at, &error);
                let entry = ParseRecovery { error, token_range: at..next };
                let ghost value = entry@;
                errors.push(entry);
                assert(recovery_views(errors@) =~= recovery_views(before).push(value));
                at = next;
            },
        }
    }
    PartialParse { statements, errors }
}

} // verus!
