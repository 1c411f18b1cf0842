use sqparse::{
    parse_partial, region_has_valid_delimiters, tokenize, tokenize_partial,
    tokenize_partial_with_error_limit, Flavor, LexerErrorType,
};

    #[test]
fn partial_tokenization_matches_strict_tokens_for_valid_source() {
    let source = "void function Example() { Print([1, 2]) }\n";
    let strict = tokenize(source, Flavor::SquirrelRespawn).unwrap();
    let partial = tokenize_partial(source, Flavor::SquirrelRespawn).unwrap();

    assert!(partial.errors.is_empty());
    assert_eq!(partial.regions.len(), 1);
    assert_eq!(partial.regions[0].tokens, strict);
    assert!(!partial.regions[0].ends_at_error);
    assert!(region_has_valid_delimiters(&partial.regions[0]));
}

#[test]
fn unmatched_close_splits_balanced_regions_and_continues() {
    let source = "void function Before() {}\n}\nvoid function After() {}\n";
    let partial = tokenize_partial(source, Flavor::SquirrelRespawn).unwrap();

    assert_eq!(partial.errors.len(), 1);
    assert!(matches!(
        partial.errors[0].ty,
        LexerErrorType::UnmatchedClose { .. }
    ));
    assert_eq!(partial.regions.len(), 2);
    assert!(partial.regions.iter().all(region_has_valid_delimiters));
}

#[test]
fn mismatch_quarantines_the_outer_delimited_context() {
    let source = r#"void function Before() {}
void function Broken() { local nested = Call(] }
void function After() {}
"#;
    let partial = tokenize_partial(source, Flavor::SquirrelRespawn).unwrap();

    assert_eq!(partial.errors.len(), 1);
    assert!(matches!(
        partial.errors[0].ty,
        LexerErrorType::MismatchedClose { .. }
    ));
    assert_eq!(partial.regions.len(), 2);
    assert!(partial.regions.iter().all(region_has_valid_delimiters));
    assert!(partial.regions[0].ends_at_error);
}

#[test]
fn unrelated_closers_do_not_end_delimiter_quarantine() {
    let source = r#"void function Before() {}
void function Broken() { ]
local leaked = 1
}
void function After() {}
"#;
    let partial = tokenize_partial(source, Flavor::SquirrelRespawn).unwrap();
    let retained_source = partial
        .regions
        .iter()
        .flat_map(|region| &region.tokens)
        .map(|item| &source[item.token.range.clone()])
        .collect::<String>();

    assert!(!retained_source.contains("leaked"));
    assert!(retained_source.contains("Before"));
    assert!(retained_source.contains("After"));
}

#[test]
fn unrelated_closers_do_not_end_raw_error_quarantine() {
    let source = r#"void function Before() {}
void function Broken() { €
)
local leaked = 1
}
void function After() {}
"#;
    let partial = tokenize_partial(source, Flavor::SquirrelRespawn).unwrap();
    let retained_source = partial
        .regions
        .iter()
        .flat_map(|region| &region.tokens)
        .map(|item| &source[item.token.range.clone()])
        .collect::<String>();

    assert!(!retained_source.contains("leaked"));
    assert!(retained_source.contains("Before"));
    assert!(retained_source.contains("After"));
}

#[test]
fn unmatched_openers_are_never_exposed_to_the_parser() {
    let source = "void function Before() {}\nvoid function Broken() { Call(\n";
    let partial = tokenize_partial(source, Flavor::SquirrelRespawn).unwrap();

    assert_eq!(partial.errors.len(), 2);
    assert!(
        partial
            .errors
            .iter()
            .all(|error| matches!(error.ty, LexerErrorType::UnmatchedOpener { .. }))
    );
    assert_eq!(partial.regions.len(), 1);
    assert!(partial.regions[0].ends_at_error);
    assert!(region_has_valid_delimiters(&partial.regions[0]));
}

#[test]
fn truncated_prefix_does_not_create_a_trusted_forward_declaration() {
    let partial =
        tokenize_partial("global function FalsePositive {", Flavor::SquirrelRespawn).unwrap();
    let region = &partial.regions[0];
    let parsed = parse_partial(&region.tokens, Flavor::SquirrelRespawn);

    assert_eq!(parsed.statements.len(), 1);
    assert!(!region.is_trusted_statement_end(parsed.statements[0].token_range.end));
}

#[test]
fn collects_independent_unmatched_closes() {
    let partial = tokenize_partial("}\n]\n", Flavor::SquirrelRespawn).unwrap();

    assert_eq!(partial.errors.len(), 2);
    assert!(partial.regions.is_empty());
}

#[test]
fn recovers_multiple_invalid_inputs_and_preserves_byte_ranges() {
    let source = "void function Before() {}\n€ bad\n£\nvoid function After() {}\n";
    let partial = tokenize_partial(source, Flavor::SquirrelRespawn).unwrap();

    assert_eq!(partial.errors.len(), 2);
    assert!(
        partial
            .errors
            .iter()
            .all(|error| matches!(error.ty, LexerErrorType::InvalidInput))
    );
    assert_eq!(partial.errors[0].range, 26..29);
    assert_eq!(partial.errors[1].range, 34..36);
    assert_eq!(partial.regions.len(), 2);
    assert!(partial.regions.iter().all(region_has_valid_delimiters));
}

#[test]
fn limits_errors_without_stopping_region_recovery() {
    let source = "€\n£\n¥\nvoid function After() {}\n";
    let partial =
        tokenize_partial_with_error_limit(source, Flavor::SquirrelRespawn, 2).unwrap();
    let retained_source = partial
        .regions
        .iter()
        .flat_map(|region| &region.tokens)
        .map(|item| &source[item.token.range.clone()])
        .collect::<String>();

    assert_eq!(partial.errors.len(), 2);
    assert!(retained_source.contains("After"));
}

#[test]
fn invalid_input_discards_the_rest_of_its_statement() {
    let source = "€ global function FalsePositive\nvoid function After() {}\n";
    let partial = tokenize_partial(source, Flavor::SquirrelRespawn).unwrap();
    let retained_source = partial
        .regions
        .iter()
        .flat_map(|region| &region.tokens)
        .map(|item| &source[item.token.range.clone()])
        .collect::<String>();

    assert_eq!(partial.errors.len(), 1);
    assert!(!retained_source.contains("FalsePositive"));
    assert!(retained_source.contains("After"));
}

#[test]
fn recovers_after_an_unterminated_line_string() {
    let source = "void function Before() {}\nlocal broken = \"text\nvoid function After() {}\n";
    let partial = tokenize_partial(source, Flavor::SquirrelRespawn).unwrap();

    assert_eq!(partial.errors.len(), 1);
    assert!(matches!(
        partial.errors[0].ty,
        LexerErrorType::EndOfLineInsideString
    ));
    assert_eq!(partial.regions.len(), 2);
    assert!(partial.regions.iter().all(region_has_valid_delimiters));
}

#[test]
fn recovers_before_an_unterminated_multiline_verbatim_string() {
    let source = "void function Before() {}\nlocal broken = @\"first\nsecond\n";
    let partial = tokenize_partial(source, Flavor::SquirrelRespawn).unwrap();

    assert_eq!(partial.errors.len(), 1);
    assert!(matches!(
        partial.errors[0].ty,
        LexerErrorType::EndOfInputInsideString
    ));
    assert_eq!(partial.regions.len(), 1);
    assert!(region_has_valid_delimiters(&partial.regions[0]));
}
