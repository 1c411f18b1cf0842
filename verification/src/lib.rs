pub mod ast;
pub mod flavor;
pub mod lexer;
pub mod list;
pub mod parser;
pub mod token;
pub mod view_laws;

pub use crate::flavor::Flavor;
pub use crate::lexer::{
    region_has_valid_delimiters, tokenize, tokenize_partial, tokenize_partial_with_error_limit,
};
pub use crate::lexer::{
    LexerError, LexerErrorType, PartialTokenization, TokenItem, TokenRegion,
};
pub use crate::parser::{parse, parse_partial};
pub use crate::parser::{ParseError, ParseErrorType, ParseRecovery, ParsedStatement, PartialParse};
pub use crate::token::{Comment, LiteralToken, TerminalToken, Token, TokenLine, TokenType};
