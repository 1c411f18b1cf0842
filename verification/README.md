# sqparse

A tokenizer and parser for the Squirrel scripting language, in the dialect of Respawn's games,
verified with Verus.

- `tokenize` turns a source text into tokens and pairs its delimiters. `tokenize_partial` and
  `tokenize_partial_with_error_limit` keep the parts of a text with errors that can be parsed on
  their own.
- `parse` turns tokens into a syntax tree. `parse_partial` skips the statements that cannot be
  parsed.

## Layout

- `src/token.rs`, `src/flavor.rs`: tokens and dialects.
- `src/lexer/`: from bytes to tokens. `lexeme.rs`, `terminal.rs` and `trivia.rs` read single tokens
  and what stands between them, `token_iter.rs` reads them one by one, `delimiter.rs` pairs
  delimiters, `recovery.rs` says what is kept of a text with errors, and `laws.rs` states what holds
  of all of these together.
- `src/ast/`, `src/list.rs`: the syntax tree.
- `src/parser/`: from tokens to the syntax tree. Each rule of the grammar is a spec function
  (`..._at` or `..._from`) beside the function that reads it. `recovery.rs` says where parsing
  resumes behind an error, and `laws.rs` states what holds of parsing as a whole.
- `tests/`: the library as its users see it.

Contracts on tokens and errors speak of their views (`TokenView`, `ErrorView` and so on), in which
text is a sequence of bytes. Contracts on the syntax tree speak of the tree itself: its lists are
plain values, so that two trees are equal if and only if they have the same parts.
