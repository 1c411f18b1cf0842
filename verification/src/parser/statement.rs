use crate::ast::{Statement, StatementType};
use crate::flavor::Flavor;
use crate::lexer::TokenItem;
use crate::list::List;
use crate::list;
use crate::parser::error::{ParseError, ParseErrorType};
use crate::parser::grammar::Parsed;
use crate::parser::{control, definition, grammar};
use crate::token::{TerminalToken, TokenType};
use vstd::prelude::*;

verus! {

/// Whether a statement ends with its last token, whatever stands behind it.
pub open spec fn ends_itself(ty: StatementType<'_>) -> bool {
    ||| ty is Block
    ||| ty is If
    ||| ty is While
    ||| ty is For
    ||| ty is Foreach
    ||| ty is Switch
    ||| ty is TryCatch
    ||| ty is EnumDefinition
    ||| ty is StructDefinition
    ||| ty is ClassDefinition
    ||| ty is FunctionDefinition
    ||| ty is Global
}

/// Whether a statement ends with its last token, whatever stands behind it.
fn is_complete(ty: &StatementType<'_>) -> (complete: bool)
    ensures
        complete == ends_itself(*ty),
{
    match ty {
        StatementType::Block(_) => true,
        StatementType::If(_) => true,
        StatementType::While(_) => true,
        StatementType::For(_) => true,
        StatementType::Foreach(_) => true,
        StatementType::Switch(_) => true,
        StatementType::TryCatch(_) => true,
        StatementType::EnumDefinition(_) => true,
        StatementType::StructDefinition(_) => true,
        StatementType::ClassDefinition(_) => true,
        StatementType::FunctionDefinition(_) => true,
        StatementType::Global(_) => true,
        _ => false,
    }
}

/// Whether a statement can end before a place: at the end of the tokens or of a line, before `}`
/// and before `else`.
pub open spec fn can_end_at(items: Seq<TokenItem<'_>>, at: int) -> bool {
    ||| at >= items.len()
    ||| !grammar::on_same_line(items, at)
    ||| grammar::has_terminal(items, at, TerminalToken::CloseBrace)
    ||| grammar::has_terminal(items, at, TerminalToken::Else)
}

/// Whether a statement can end before a place.
fn can_end(items: &[TokenItem<'_>], at: usize) -> (can: bool)
    ensures
        can == can_end_at(items@, at as int),
{
    at >= items.len() || !grammar::same_line(items, at) || grammar::at_terminal(
        items,
        at,
        TerminalToken::CloseBrace,
    ) || grammar::at_terminal(items, at, TerminalToken::Else)
}

/// Statements up to `}`, behind those found before.
#[verifier::opaque]
pub open spec fn statements_from<'s>(
    items: Seq<TokenItem<'s>>,
    at: int,
    found: Seq<Statement<'s>>,
) -> Parsed<List<Statement<'s>>>
    decreases grammar::left(items, at), 31nat,
{
    if grammar::has_terminal(items, at, TerminalToken::CloseBrace) {
        Ok((at + 1, list::list_of(found)))
    } else if at >= items.len() {
        grammar::missing(TerminalToken::CloseBrace, at)
    } else {
        match grammar::took(items, at, statement_at(items, at)) {
            Ok((next, item)) => {
                statements_from(items, next, found.push(item))
            },
            Err(error) => Err(error),
        }
    }
}

/// Reads statements up to `}`.
pub(crate) fn statements<'s>(items: &'s [TokenItem<'s>], at: usize) -> (found: Result<
    (usize, List<Statement<'s>>),
    ParseError,
>)
    requires
        at <= items.len(),
    ensures
        grammar::agrees(found, statements_from(items@, at as int, Seq::empty())),
        found matches Ok((next, _)) ==> at < next <= items.len(),
    decreases grammar::left(items@, at as int), 31nat,
{
    let mut read: Vec<Statement<'s>> = Vec::new();
    let mut place: usize = at;
    loop
        invariant
            at <= place <= items.len(),
            statements_from(items@, place as int, read@) == statements_from(
                items@,
                at as int,
                Seq::empty(),
            ),
        decreases items.len() - place,
    {
        proof {
            reveal(statements_from);
            reveal(statement_at);
        }
        if grammar::at_terminal(items, place, TerminalToken::CloseBrace) {
            return Ok((place + 1, List::from_vec(read)));
        }
        if place >= items.len() {
            return Err(grammar::missing_terminal(TerminalToken::CloseBrace, place));
        }
        let (next, item) = statement(items, place)?;
        read.push(item);
        place = next;
    }
}

/// Statements in braces.
#[verifier::opaque]
pub open spec fn block_at<'s>(items: Seq<TokenItem<'s>>, at: int) -> Parsed<StatementType<'s>>
    decreases grammar::left(items, at), 1nat,
{
    if grammar::has_terminal(items, at, TerminalToken::OpenBrace) {
        match grammar::took(items, at + 1, statements_from(items, at + 1, Seq::empty())) {
            Ok((after_statements, statements)) => {
                Ok((after_statements, StatementType::Block(statements)))
            },
            Err(error) => Err(error),
        }
    } else {
        grammar::missing(TerminalToken::OpenBrace, at)
    }
}

/// Reads statements in braces.
pub(crate) fn block<'s>(items: &'s [TokenItem<'s>], at: usize) -> (found: Result<
    (usize, StatementType<'s>),
    ParseError,
>)
    requires
        at <= items.len(),
    ensures
        grammar::agrees(found, block_at(items@, at as int)),
        found matches Ok((next, _)) ==> at < next <= items.len(),
    decreases grammar::left(items@, at as int), 1nat,
{
    proof {
        reveal(block_at);
        reveal(statements_from);
    }
    grammar::expect(items, at, TerminalToken::OpenBrace)?;
    let (after_statements, statements) = statements(items, at + 1)?;
    Ok((after_statements, StatementType::Block(statements)))
}

/// A statement without its end.
#[verifier::opaque]
pub open spec fn statement_type_at<'s>(
    items: Seq<TokenItem<'s>>,
    at: int,
) -> Parsed<StatementType<'s>>
    decreases grammar::left(items, at), 29nat,
{
    if 0 <= at < items.len() {
        match items[at].token.ty {
            TokenType::Terminal(TerminalToken::OpenBrace) => block_at(items, at),
            TokenType::Terminal(TerminalToken::If) => control::if_statement_at(items, at),
            TokenType::Terminal(TerminalToken::While) => control::while_statement_at(items, at),
            TokenType::Terminal(TerminalToken::Do) => control::do_statement_at(items, at),
            TokenType::Terminal(TerminalToken::For) => control::for_statement_at(items, at),
            TokenType::Terminal(TerminalToken::Foreach) => control::foreach_statement_at(items, at),
            TokenType::Terminal(TerminalToken::Switch) => control::switch_statement_at(items, at),
            TokenType::Terminal(TerminalToken::Return) => control::return_statement_at(items, at),
            TokenType::Terminal(TerminalToken::Yield) => control::yield_statement_at(items, at),
            TokenType::Terminal(TerminalToken::Throw) => control::throw_statement_at(items, at),
            TokenType::Terminal(TerminalToken::Try) => control::try_statement_at(items, at),
            TokenType::Terminal(TerminalToken::Const) => definition::const_statement_at(items, at),
            TokenType::Terminal(TerminalToken::Enum) => definition::enum_definition_at(items, at),
            TokenType::Terminal(
                TerminalToken::Typedef,
            ) => definition::type_definition_at(items, at),
            TokenType::Terminal(TerminalToken::Class) => definition::class_definition_at(items, at),
            TokenType::Terminal(TerminalToken::Local) => definition::local_definition_at(items, at),
            TokenType::Terminal(TerminalToken::Thread) => control::thread_statement_at(items, at),
            TokenType::Terminal(
                TerminalToken::WaitThread,
            ) => control::wait_thread_statement_at(items, at),
            TokenType::Terminal(
                TerminalToken::WaitThreadSolo,
            ) => control::wait_thread_solo_statement_at(items, at),
            TokenType::Terminal(
                TerminalToken::DelayThread,
            ) => control::delay_thread_statement_at(items, at),
            TokenType::Terminal(TerminalToken::Wait) => control::wait_statement_at(items, at),
            TokenType::Terminal(TerminalToken::Break) => Ok((at + 1, StatementType::Break)),
            TokenType::Terminal(TerminalToken::Continue) => Ok((at + 1, StatementType::Continue)),
            TokenType::Terminal(TerminalToken::GlobalizeAllFunctions) => Ok(
                (at + 1, StatementType::GlobalizeAllFunctions),
            ),
            TokenType::Terminal(TerminalToken::Untyped) => Ok((at + 1, StatementType::Untyped)),
            TokenType::Terminal(TerminalToken::Struct) => {
                if grammar::has_terminal(items, at + 1, TerminalToken::OpenBrace) {
                    definition::struct_var_definition_at(items, at)
                } else {
                    definition::struct_definition_at(items, at)
                }
            },
            TokenType::Terminal(TerminalToken::Function) => {
                if grammar::has_terminal(items, at + 1, TerminalToken::OpenBracket) {
                    definition::expression_statement_at(items, at)
                } else {
                    definition::function_definition_at(items, at)
                }
            },
            TokenType::Terminal(TerminalToken::Global) => {
                if grammar::has_terminal(items, at + 1, TerminalToken::Function) {
                    definition::global_function_at(items, at)
                } else {
                    definition::global_definition_at(items, at)
                }
            },
            TokenType::Terminal(
                TerminalToken::FunctionRef,
            ) => definition::typed_definition_at(items, at),
            TokenType::Identifier(_) => definition::typed_definition_at(items, at),
            _ => definition::expression_statement_at(items, at),
        }
    } else {
        grammar::wrong(ParseErrorType::ExpectedExpression, at)
    }
}

/// Reads a statement without its end.
pub(crate) fn statement_type<'s>(items: &'s [TokenItem<'s>], at: usize) -> (found: Result<
    (usize, StatementType<'s>),
    ParseError,
>)
    requires
        at <= items.len(),
    ensures
        grammar::agrees(found, statement_type_at(items@, at as int)),
        found matches Ok((next, _)) ==> at < next <= items.len(),
    decreases grammar::left(items@, at as int), 29nat,
{
    proof {
        reveal(statement_type_at);
        reveal(block_at);
    }
    if at < items.len() {
        match items[at].token.ty {
            TokenType::Terminal(TerminalToken::OpenBrace) => block(items, at),
            TokenType::Terminal(TerminalToken::If) => control::if_statement(items, at),
            TokenType::Terminal(TerminalToken::While) => control::while_statement(items, at),
            TokenType::Terminal(TerminalToken::Do) => control::do_statement(items, at),
            TokenType::Terminal(TerminalToken::For) => control::for_statement(items, at),
            TokenType::Terminal(TerminalToken::Foreach) => control::foreach_statement(items, at),
            TokenType::Terminal(TerminalToken::Switch) => control::switch_statement(items, at),
            TokenType::Terminal(TerminalToken::Return) => control::return_statement(items, at),
            TokenType::Terminal(TerminalToken::Yield) => control::yield_statement(items, at),
            TokenType::Terminal(TerminalToken::Throw) => control::throw_statement(items, at),
            TokenType::Terminal(TerminalToken::Try) => control::try_statement(items, at),
            TokenType::Terminal(TerminalToken::Const) => definition::const_statement(items, at),
            TokenType::Terminal(TerminalToken::Enum) => definition::enum_definition(items, at),
            TokenType::Terminal(TerminalToken::Typedef) => definition::type_definition(items, at),
            TokenType::Terminal(TerminalToken::Class) => definition::class_definition(items, at),
            TokenType::Terminal(TerminalToken::Local) => definition::local_definition(items, at),
            TokenType::Terminal(TerminalToken::Thread) => control::thread_statement(items, at),
            TokenType::Terminal(
                TerminalToken::WaitThread,
            ) => control::wait_thread_statement(items, at),
            TokenType::Terminal(
                TerminalToken::WaitThreadSolo,
            ) => control::wait_thread_solo_statement(items, at),
            TokenType::Terminal(
                TerminalToken::DelayThread,
            ) => control::delay_thread_statement(items, at),
            TokenType::Terminal(TerminalToken::Wait) => control::wait_statement(items, at),
            TokenType::Terminal(TerminalToken::Break) => Ok((at + 1, StatementType::Break)),
            TokenType::Terminal(TerminalToken::Continue) => Ok((at + 1, StatementType::Continue)),
            TokenType::Terminal(TerminalToken::GlobalizeAllFunctions) => Ok(
                (at + 1, StatementType::GlobalizeAllFunctions),
            ),
            TokenType::Terminal(TerminalToken::Untyped) => Ok((at + 1, StatementType::Untyped)),
            TokenType::Terminal(TerminalToken::Struct) => {
                if grammar::at_terminal(items, at + 1, TerminalToken::OpenBrace) {
                    definition::struct_var_definition(items, at)
                } else {
                    definition::struct_definition(items, at)
                }
            },
            TokenType::Terminal(TerminalToken::Function) => {
                if grammar::at_terminal(items, at + 1, TerminalToken::OpenBracket) {
                    definition::expression_statement(items, at)
                } else {
                    definition::function_definition(items, at)
                }
            },
            TokenType::Terminal(TerminalToken::Global) => {
                if grammar::at_terminal(items, at + 1, TerminalToken::Function) {
                    definition::global_function(items, at)
                } else {
                    definition::global_definition(items, at)
                }
            },
            TokenType::Terminal(
                TerminalToken::FunctionRef,
            ) => definition::typed_definition(items, at),
            TokenType::Identifier(_) => definition::typed_definition(items, at),
            _ => definition::expression_statement(items, at),
        }
    } else {
        Err(ParseError::new(ParseErrorType::ExpectedExpression, at))
    }
}

/// A statement, with the semicolon that ends it if there is one.
#[verifier::opaque]
pub open spec fn statement_at<'s>(items: Seq<TokenItem<'s>>, at: int) -> Parsed<Statement<'s>>
    decreases grammar::left(items, at), 30nat,
{
    if grammar::has_terminal(items, at, TerminalToken::Semicolon) {
        Ok((at + 1, Statement { ty: StatementType::Empty, semicolon: Some(&items[at].token) }))
    } else {
        match grammar::took(items, at, statement_type_at(items, at)) {
            Ok((next, ty)) => {
                if grammar::has_terminal(items, next, TerminalToken::Semicolon) {
                    Ok((next + 1, Statement { ty, semicolon: Some(&items[next].token) }))
                } else if ends_itself(ty) || can_end_at(items, next) {
                    Ok((next, Statement { ty, semicolon: None }))
                } else {
                    grammar::wrong(ParseErrorType::ExpectedEndOfStatement, next)
                }
            },
            Err(error) => Err(error),
        }
    }
}

/// Reads a statement, with the semicolon that ends it if there is one.
pub(crate) fn statement<'s>(items: &'s [TokenItem<'s>], at: usize) -> (found: Result<
    (usize, Statement<'s>),
    ParseError,
>)
    requires
        at <= items.len(),
    ensures
        grammar::agrees(found, statement_at(items@, at as int)),
        found matches Ok((next, _)) ==> at < next <= items.len(),
    decreases grammar::left(items@, at as int), 30nat,
{
    proof {
        reveal(statement_at);
        reveal(statement_type_at);
    }
    if grammar::at_terminal(items, at, TerminalToken::Semicolon) {
        return Ok(
            (at + 1, Statement { ty: StatementType::Empty, semicolon: Some(&items[at].token) }),
        );
    }
    let (next, ty) = statement_type(items, at)?;
    if grammar::at_terminal(items, next, TerminalToken::Semicolon) {
        Ok((next + 1, Statement { ty, semicolon: Some(&items[next].token) }))
    } else if is_complete(&ty) || can_end(items, next) {
        Ok((next, Statement { ty, semicolon: None }))
    } else {
        Err(ParseError::new(ParseErrorType::ExpectedEndOfStatement, next))
    }
}

/// A statement in a dialect.
pub open spec fn statement_of<'s>(
    items: Seq<TokenItem<'s>>,
    flavor: Flavor,
    at: int,
) -> Parsed<Statement<'s>> {
    match flavor {
        Flavor::SquirrelRespawn => grammar::took(items, at, statement_at(items, at)),
    }
}

/// Reads a statement in a dialect.
pub(crate) fn flavored_statement<'s>(
    items: &'s [TokenItem<'s>],
    flavor: Flavor,
    at: usize,
) -> (found: Result<(usize, Statement<'s>), ParseError>)
    requires
        at <= items.len(),
    ensures
        grammar::agrees(found, statement_of(items@, flavor, at as int)),
        found matches Ok((next, _)) ==> at < next <= items.len(),
{
    match flavor {
        Flavor::SquirrelRespawn => statement(items, at),
    }
}

} // verus!
