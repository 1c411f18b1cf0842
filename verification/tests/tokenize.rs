use sqparse::{
    region_has_valid_delimiters, tokenize, tokenize_partial, tokenize_partial_with_error_limit,
    Comment, Flavor, LexerErrorType, LiteralToken, TerminalToken, TokenItem, TokenRegion,
    TokenType,
};

fn types(source: &str) -> Vec<TokenType<'_>> {
    tokenize(source, Flavor::SquirrelRespawn)
        .unwrap()
        .iter()
        .map(|item| item.token.ty)
        .collect()
}

fn terminal(terminal: TerminalToken) -> TokenType<'static> {
    TokenType::Terminal(terminal)
}

#[test]
fn tokenizes_the_documented_example() {
    let source = r#"
global function MyFunction

struct {
    int a
} file

string function MyFunction( List<number> values ) {
    values.push(1 + 2)
}
"#;
    let tokens = tokenize(source, Flavor::SquirrelRespawn).unwrap();
    assert_eq!(tokens.len(), 29);
    for item in &tokens {
        if let TokenType::Identifier(name) = item.token.ty {
            assert_eq!(name, &source[item.token.range.clone()]);
        }
    }
}

#[test]
fn opening_delimiters_know_what_closes_them() {
    let tokens = tokenize("{ some other tokens }", Flavor::SquirrelRespawn).unwrap();
    let closes: Vec<Option<usize>> = tokens.iter().map(|item| item.close_index).collect();
    assert_eq!(closes, [Some(4), None, None, None, None]);

    let tokens = tokenize("([{}]) </ />", Flavor::SquirrelRespawn).unwrap();
    let closes: Vec<Option<usize>> = tokens.iter().map(|item| item.close_index).collect();
    assert_eq!(
        closes,
        [Some(5), Some(4), Some(3), None, None, None, Some(7), None]
    );
}

#[test]
fn an_empty_text_has_no_tokens() {
    assert_eq!(tokenize("", Flavor::SquirrelRespawn).unwrap(), []);
    assert_eq!(
        tokenize(" \t\n// note\n", Flavor::SquirrelRespawn).unwrap(),
        []
    );
    let partial = tokenize_partial("", Flavor::SquirrelRespawn).unwrap();
    assert!(partial.regions.is_empty());
    assert!(partial.errors.is_empty());
}

#[test]
fn literals_keep_their_spelling() {
    assert_eq!(
        types("12 0x1F 1.5 2e3 2.5e-3 'c' \"a\\\"b\" @\"x \"\" y\" $\"models/a.rmdl\""),
        [
            TokenType::Literal(LiteralToken::Int("12")),
            TokenType::Literal(LiteralToken::Int("0x1F")),
            TokenType::Literal(LiteralToken::Float("1.5")),
            TokenType::Literal(LiteralToken::Float("2e3")),
            TokenType::Literal(LiteralToken::Float("2.5e-3")),
            TokenType::Literal(LiteralToken::Char("'c'")),
            TokenType::Literal(LiteralToken::String("\"a\\\"b\"")),
            TokenType::Literal(LiteralToken::VerbatimString("@\"x \"\" y\"")),
            TokenType::Literal(LiteralToken::Asset("$\"models/a.rmdl\"")),
        ]
    );
}

#[test]
fn a_number_takes_no_dot_without_a_digit_behind_it() {
    assert_eq!(
        types("1.x 2e"),
        [
            TokenType::Literal(LiteralToken::Int("1")),
            terminal(TerminalToken::Dot),
            TokenType::Identifier("x"),
            TokenType::Literal(LiteralToken::Int("2")),
            TokenType::Identifier("e"),
        ]
    );
}

#[test]
fn symbols_are_as_long_as_they_can_be() {
    assert_eq!(
        types("<= <=> << <- ... :: : -- -= &&"),
        [
            terminal(TerminalToken::LessEqual),
            terminal(TerminalToken::ThreeWay),
            terminal(TerminalToken::ShiftLeft),
            terminal(TerminalToken::NewSlot),
            terminal(TerminalToken::Vararg),
            terminal(TerminalToken::Namespace),
            terminal(TerminalToken::Colon),
            terminal(TerminalToken::Decrement),
            terminal(TerminalToken::SubtractAssign),
            terminal(TerminalToken::LogicalAnd),
        ]
    );
}

#[test]
fn keywords_are_whole_words() {
    assert_eq!(
        types("function functions local locale"),
        [
            terminal(TerminalToken::Function),
            TokenType::Identifier("functions"),
            terminal(TerminalToken::Local),
            TokenType::Identifier("locale"),
        ]
    );
}

#[test]
fn comments_belong_to_the_tokens_around_them() {
    let tokens = tokenize(
        "// first\n\n/* inner */ a # rest\nb",
        Flavor::SquirrelRespawn,
    )
    .unwrap();
    assert_eq!(tokens.len(), 2);

    let first = &tokens[0].token;
    assert_eq!(first.ty, TokenType::Identifier("a"));
    assert_eq!(first.before_lines.len(), 2);
    assert_eq!(
        first.before_lines[0].comments,
        [Comment::SingleLine("// first")]
    );
    assert!(first.before_lines[1].comments.is_empty());
    assert_eq!(first.comments, [Comment::MultiLine("/* inner */")]);
    assert_eq!(
        first.new_line.as_ref().unwrap().comments,
        [Comment::ScriptStyle("# rest")]
    );

    let second = &tokens[1].token;
    assert!(second.before_lines.is_empty());
    assert!(second.new_line.is_none());
    assert_eq!(second.range, 31..32);
}

#[test]
fn strict_tokenization_reports_each_kind_of_error() {
    let error = tokenize("a €", Flavor::SquirrelRespawn).unwrap_err();
    assert_eq!(error.ty, LexerErrorType::InvalidInput);
    assert_eq!(error.range, 2..5);

    let error = tokenize("\"a\nb", Flavor::SquirrelRespawn).unwrap_err();
    assert_eq!(error.ty, LexerErrorType::EndOfLineInsideString);
    assert_eq!(error.range, 0..2);

    let error = tokenize("x 'a", Flavor::SquirrelRespawn).unwrap_err();
    assert_eq!(error.ty, LexerErrorType::EndOfInputInsideString);
    assert_eq!(error.range, 2..4);

    let error = tokenize("@\"a\nb", Flavor::SquirrelRespawn).unwrap_err();
    assert_eq!(error.ty, LexerErrorType::EndOfInputInsideString);
    assert_eq!(error.range, 0..5);

    let error = tokenize("a /* b", Flavor::SquirrelRespawn).unwrap_err();
    assert_eq!(error.ty, LexerErrorType::EndOfInputInsideComment);
    assert_eq!(error.range, 2..6);

    let error = tokenize("( ]", Flavor::SquirrelRespawn).unwrap_err();
    assert_eq!(
        error.ty,
        LexerErrorType::MismatchedClose {
            open: terminal(TerminalToken::OpenBracket),
            expected_close: terminal(TerminalToken::CloseBracket),
            actual_close: terminal(TerminalToken::CloseSquare),
        }
    );
    assert_eq!(error.range, 2..3);

    let error = tokenize("() }", Flavor::SquirrelRespawn).unwrap_err();
    assert_eq!(
        error.ty,
        LexerErrorType::UnmatchedClose {
            close: terminal(TerminalToken::CloseBrace),
        }
    );
    assert_eq!(error.range, 3..4);

    let error = tokenize("{ ( [ ]", Flavor::SquirrelRespawn).unwrap_err();
    assert_eq!(
        error.ty,
        LexerErrorType::UnmatchedOpener {
            open: terminal(TerminalToken::OpenBracket),
            close: terminal(TerminalToken::CloseBracket),
        }
    );
    assert_eq!(error.range, 2..3);
}

#[test]
fn strict_tokenization_returns_the_first_error_of_partial_tokenization() {
    for source in ["{ ( [ ]", "€ )", "( ] }", "\"a\n€\n}", "a /* b"] {
        let strict = tokenize(source, Flavor::SquirrelRespawn).unwrap_err();
        let partial = tokenize_partial(source, Flavor::SquirrelRespawn).unwrap();
        assert_eq!(partial.errors[0], strict);
    }
}

#[test]
fn tokens_are_in_order_and_keep_their_text() {
    let source = "local a = [1, 2] // list\nb( \"x\" )\n";
    let tokens = tokenize(source, Flavor::SquirrelRespawn).unwrap();
    let mut end = 0;
    for item in &tokens {
        assert!(end <= item.token.range.start);
        assert!(item.token.range.start < item.token.range.end);
        end = item.token.range.end;
        match item.token.ty {
            TokenType::Identifier(text)
            | TokenType::Literal(LiteralToken::Int(text))
            | TokenType::Literal(LiteralToken::String(text)) => {
                assert_eq!(text, &source[item.token.range.clone()]);
            }
            _ => {}
        }
    }
    assert!(end <= source.len());
}

#[test]
fn regions_are_runs_of_the_text() {
    let source = "a b\n}\nc ( ] d )\ne\n";
    let partial = tokenize_partial(source, Flavor::SquirrelRespawn).unwrap();
    let texts: Vec<Vec<&str>> = partial
        .regions
        .iter()
        .map(|region| {
            region
                .tokens
                .iter()
                .map(|item| &source[item.token.range.clone()])
                .collect()
        })
        .collect();
    assert_eq!(texts, [vec!["a", "b"], vec!["c"], vec!["e"]]);
    let ends: Vec<bool> = partial
        .regions
        .iter()
        .map(|region| region.ends_at_error)
        .collect();
    assert_eq!(ends, [true, true, false]);
    assert_eq!(partial.errors.len(), 2);
    assert_eq!(partial.errors[0].range, 4..5);
    assert_eq!(partial.errors[1].range, 10..11);
}

#[test]
fn a_mismatch_that_closes_an_outer_tree_ends_the_dropped_tree() {
    let source = "a { ( } b";
    let partial = tokenize_partial(source, Flavor::SquirrelRespawn).unwrap();
    assert_eq!(partial.errors.len(), 1);
    assert_eq!(partial.regions.len(), 2);
    assert_eq!(partial.regions[0].tokens.len(), 1);
    assert_eq!(partial.regions[1].tokens.len(), 1);
    assert_eq!(
        partial.regions[1].tokens[0].token.ty,
        TokenType::Identifier("b")
    );
}

#[test]
fn trees_inside_of_a_dropped_tree_are_dropped_with_it() {
    let source = "a { ] ( { } ) x } b\n";
    let partial = tokenize_partial(source, Flavor::SquirrelRespawn).unwrap();
    assert_eq!(partial.errors.len(), 1);
    assert_eq!(partial.regions.len(), 2);
    assert_eq!(
        partial.regions[1].tokens[0].token.ty,
        TokenType::Identifier("b")
    );
}

#[test]
fn errors_inside_of_a_dropped_tree_are_kept() {
    let partial = tokenize_partial("a { ] € } b\n", Flavor::SquirrelRespawn).unwrap();
    assert_eq!(partial.errors.len(), 2);
    assert_eq!(partial.errors[1].ty, LexerErrorType::InvalidInput);
    assert_eq!(partial.regions.len(), 2);
}

#[test]
fn a_semicolon_ends_the_statement_that_is_dropped() {
    let source = "€ a; b\n";
    let partial = tokenize_partial(source, Flavor::SquirrelRespawn).unwrap();
    assert_eq!(partial.regions.len(), 1);
    assert_eq!(partial.regions[0].tokens.len(), 1);
    assert_eq!(
        partial.regions[0].tokens[0].token.ty,
        TokenType::Identifier("b")
    );
}

#[test]
fn unmatched_openers_are_reported_from_the_innermost_on() {
    let partial = tokenize_partial("a ( [ {", Flavor::SquirrelRespawn).unwrap();
    let ranges: Vec<(usize, usize)> = partial
        .errors
        .iter()
        .map(|error| (error.range.start, error.range.end))
        .collect();
    assert_eq!(ranges, [(6, 7), (4, 5), (2, 3)]);
    assert_eq!(partial.regions.len(), 1);
    assert_eq!(partial.regions[0].tokens.len(), 1);
    assert!(partial.regions[0].ends_at_error);
}

#[test]
fn the_limit_changes_the_errors_alone() {
    let source = "€\n£\n}\na ( b\n";
    let all = tokenize_partial(source, Flavor::SquirrelRespawn).unwrap();
    assert_eq!(all.errors.len(), 4);
    for limit in 0..6 {
        let some =
            tokenize_partial_with_error_limit(source, Flavor::SquirrelRespawn, limit).unwrap();
        assert_eq!(some.errors[..], all.errors[..limit.min(4)]);
        assert_eq!(some.regions.len(), all.regions.len());
        for (left, right) in some.regions.iter().zip(&all.regions) {
            assert_eq!(left.tokens, right.tokens);
            assert_eq!(left.ends_at_error, right.ends_at_error);
        }
    }
}

#[test]
fn regions_with_wrong_indices_are_found() {
    let valid = tokenize_partial("a ( b )", Flavor::SquirrelRespawn).unwrap();
    let valid = &valid.regions[0];
    assert!(region_has_valid_delimiters(valid));

    let with_index = |index: Option<usize>| {
        let mut region: TokenRegion<'_> = valid.clone();
        region.tokens[1].close_index = index;
        region
    };
    assert!(region_has_valid_delimiters(&with_index(Some(3))));
    assert!(!region_has_valid_delimiters(&with_index(None)));
    assert!(!region_has_valid_delimiters(&with_index(Some(2))));
    assert!(!region_has_valid_delimiters(&with_index(Some(1))));
    assert!(!region_has_valid_delimiters(&with_index(Some(4))));
}

#[test]
fn statement_ends_are_trusted_by_what_follows_them() {
    let source = "a\nb {";
    let partial = tokenize_partial(source, Flavor::SquirrelRespawn).unwrap();
    let region = &partial.regions[0];
    assert_eq!(region.tokens.len(), 2);
    assert!(region.ends_at_error);
    assert!(region.is_trusted_statement_end(0));
    assert!(region.is_trusted_statement_end(1));
    assert!(!region.is_trusted_statement_end(2));
    assert!(!region.is_trusted_statement_end(3));

    for (source, trusted) in [
        ("a\n{", true),
        ("a; {", true),
        ("{} {", true),
        ("() {", false),
    ] {
        let partial = tokenize_partial(source, Flavor::SquirrelRespawn).unwrap();
        let region = &partial.regions[0];
        assert_eq!(
            region.is_trusted_statement_end(region.tokens.len()),
            trusted
        );
    }

    let partial = tokenize_partial("a b", Flavor::SquirrelRespawn).unwrap();
    assert!(partial.regions[0].is_trusted_statement_end(2));
    assert!(!partial.regions[0].is_trusted_statement_end(3));

    let empty = TokenRegion {
        tokens: Vec::new(),
        ends_at_error: true,
    };
    assert!(!empty.is_trusted_statement_end(0));
}

#[test]
fn copies_are_equal() {
    let source = "a ( b ) // c\n}\n";
    let partial = tokenize_partial(source, Flavor::SquirrelRespawn).unwrap();
    let copy = partial.clone();
    assert_eq!(copy.errors, partial.errors);
    assert_eq!(copy.regions.len(), 1);
    assert_eq!(copy.regions[0].tokens, partial.regions[0].tokens);
    let item: TokenItem<'_> = partial.regions[0].tokens[1].clone();
    assert_eq!(item.close_index, Some(3));
    assert_eq!(item, partial.regions[0].tokens[1]);
}
