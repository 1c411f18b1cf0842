use sqparse::ast::StatementType;
use sqparse::{parse, parse_partial, tokenize, Flavor, PartialParse};

fn function_names(partial: &PartialParse<'_>) -> Vec<String> {
    partial
        .statements
        .iter()
        .filter_map(|statement| match &statement.statement.ty {
            StatementType::FunctionDefinition(function) => {
                Some(function.name.last_item.value.to_string())
            }
            _ => None,
        })
        .collect()
}

#[test]
fn partial_parse_matches_strict_parse_for_valid_source() {
    let source = "void function First() {}\nvoid function Second() {}\n";
    let tokens = tokenize(source, Flavor::SquirrelRespawn).unwrap();
    let strict = parse(&tokens, Flavor::SquirrelRespawn).unwrap();
    let partial = parse_partial(&tokens, Flavor::SquirrelRespawn);

    assert_eq!(partial.statements.len(), strict.statements.len());
    assert!(partial.errors.is_empty());
}

#[test]
fn recovers_valid_statements_around_a_malformed_function() {
    let source = r#"void function Before() {}
void function Broken() { local value = }
void function After() {}
"#;
    let tokens = tokenize(source, Flavor::SquirrelRespawn).unwrap();
    let partial = parse_partial(&tokens, Flavor::SquirrelRespawn);

    assert_eq!(function_names(&partial), ["Before", "After"]);
    assert_eq!(partial.errors.len(), 1);
    assert!(partial.errors[0].token_range.start < partial.errors[0].token_range.end);
}

#[test]
fn recovers_multiple_malformed_lines_without_consuming_the_next_statement() {
    let source = "local first =\nlocal second =\nlocal valid = 1\n";
    let tokens = tokenize(source, Flavor::SquirrelRespawn).unwrap();
    let partial = parse_partial(&tokens, Flavor::SquirrelRespawn);

    assert_eq!(partial.statements.len(), 1);
    assert_eq!(partial.errors.len(), 2);
}

#[test]
fn does_not_leak_nested_statements_from_a_malformed_function() {
    let source = r#"void function Broken() {
	local nested = 1
	local invalid =
}
local topLevel = 2
"#;
    let tokens = tokenize(source, Flavor::SquirrelRespawn).unwrap();
    let partial = parse_partial(&tokens, Flavor::SquirrelRespawn);

    assert_eq!(partial.statements.len(), 1);
    assert_eq!(partial.errors.len(), 1);
    assert!(matches!(
        partial.statements[0].statement.ty,
        StatementType::VarDefinition(_)
    ));
}

#[test]
fn recovers_at_a_same_line_semicolon() {
    let source = "local invalid = ; local valid = 1\n";
    let tokens = tokenize(source, Flavor::SquirrelRespawn).unwrap();
    let partial = parse_partial(&tokens, Flavor::SquirrelRespawn);

    assert_eq!(partial.statements.len(), 1);
    assert_eq!(partial.errors.len(), 1);
    assert_eq!(partial.errors[0].token_range.end, 4);
}

#[test]
fn strict_parse_still_returns_the_first_error() {
    let source = "local first =\nlocal second =\n";
    let tokens = tokenize(source, Flavor::SquirrelRespawn).unwrap();
    let strict_error = parse(&tokens, Flavor::SquirrelRespawn).unwrap_err();
    let partial = parse_partial(&tokens, Flavor::SquirrelRespawn);

    assert_eq!(
        partial.errors[0].error.token_index,
        strict_error.token_index
    );
    assert_eq!(partial.errors[0].error.ty, strict_error.ty);
}
