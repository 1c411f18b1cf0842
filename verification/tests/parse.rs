use sqparse::ast::{
    BinaryOperator, ClassMemberType, Expression, ForInitializer, PostfixOperator, PrefixOperator,
    StatementType, TableEntry, Type,
};
use sqparse::{
    parse, parse_partial, tokenize, Flavor, ParseErrorType, TerminalToken, TokenItem, TokenType,
};

fn tokens(source: &str) -> Vec<TokenItem<'_>> {
    tokenize(source, Flavor::SquirrelRespawn).unwrap()
}

/// The number of statements of a text.
fn count(source: &str) -> usize {
    let items = tokens(source);
    let program = parse(&items, Flavor::SquirrelRespawn).unwrap();
    program.statements.len()
}

/// The error of a text.
fn error(source: &str) -> (ParseErrorType, usize) {
    let items = tokens(source);
    let error = parse(&items, Flavor::SquirrelRespawn).unwrap_err();
    (error.ty, error.token_index)
}

/// Writes an expression with a bracket round each operation.
fn show(expression: &Expression<'_>) -> String {
    match expression {
        Expression::Literal(token) => match token.ty {
            TokenType::Literal(sqparse::LiteralToken::Int(text)) => text.to_string(),
            _ => "literal".to_string(),
        },
        Expression::Var(name) => name.value.to_string(),
        Expression::RootVar(name) => format!("::{}", name.value),
        Expression::Parens(value) => show(value),
        Expression::Index(base, index) => format!("{}[{}]", show(base), show(index)),
        Expression::Property(base, name) => format!("{}.{}", show(base), name.value),
        Expression::Call(function, arguments) => {
            let arguments: Vec<String> = arguments.as_vec().into_iter().map(show).collect();
            format!("{}({})", show(function), arguments.join(","))
        }
        Expression::Prefix(operator, value) => format!("({:?} {})", operator, show(value)),
        Expression::Postfix(operator, value) => format!("({} {:?})", show(value), operator),
        Expression::Binary(operator, left, right) => {
            format!("({} {:?} {})", show(left), operator, show(right))
        }
        Expression::Ternary(condition, yes, no) => {
            format!("({} ? {} : {})", show(condition), show(yes), show(no))
        }
        Expression::Vector(x, y, z) => format!("<{},{},{}>", show(x), show(y), show(z)),
        other => format!("{:?}", other),
    }
}

/// Writes the expression that a text consists of.
fn shape(source: &str) -> String {
    let items = tokens(source);
    let program = parse(&items, Flavor::SquirrelRespawn).unwrap();
    assert_eq!(program.statements.len(), 1);
    match &program.statements[0].ty {
        StatementType::Expression(value) => show(value),
        other => panic!("not an expression: {:?}", other),
    }
}

#[test]
fn parses_the_documented_example() {
    let source = r#"
global function MyFunction

struct {
    int a
} file

string function MyFunction( List<number> values ) {
    values.push(1 + 2)
}
"#;
    let items = tokens(source);
    let program = parse(&items, Flavor::SquirrelRespawn).unwrap();
    assert_eq!(program.statements.len(), 3);

    match &program.statements[0].ty {
        StatementType::GlobalFunction(name) => {
            assert_eq!(name.last_item.value, "MyFunction");
            assert!(name.items.as_vec().is_empty());
        }
        other => panic!("{:?}", other),
    }
    match &program.statements[1].ty {
        StatementType::VarDefinition(definition) => {
            assert!(matches!(definition.ty, Some(Type::Struct(_))));
            assert_eq!(definition.variables.as_vec()[0].name.value, "file");
        }
        other => panic!("{:?}", other),
    }
    match &program.statements[2].ty {
        StatementType::FunctionDefinition(function) => {
            assert!(matches!(
                &function.return_type,
                Some(Type::Plain(name)) if name.value == "string"
            ));
            let params = function.definition.params.params.as_vec();
            assert_eq!(params.len(), 1);
            assert_eq!(params[0].name.value, "values");
            assert!(matches!(&params[0].ty, Some(Type::Generic(name, _)) if name.value == "List"));
            assert!(matches!(
                function.definition.body.ty,
                StatementType::Block(_)
            ));
        }
        other => panic!("{:?}", other),
    }
}

#[test]
fn no_tokens_are_no_statements() {
    assert_eq!(count(""), 0);
}

#[test]
fn operators_bind_by_their_levels() {
    assert_eq!(shape("a + b * c"), "(a Add (b Multiply c))");
    assert_eq!(shape("a * b + c"), "((a Multiply b) Add c)");
    assert_eq!(shape("a - b - c"), "((a Subtract b) Subtract c)");
    assert_eq!(
        shape("a || b && c == d"),
        "(a LogicalOr (b LogicalAnd (c Equal d)))"
    );
    assert_eq!(
        shape("a | b ^ c & d"),
        "(a BitwiseOr (b BitwiseXor (c BitwiseAnd d)))"
    );
    assert_eq!(shape("a < b << c"), "(a Less (b ShiftLeft c))");
    assert_eq!(shape("(a + b) * c"), "((a Add b) Multiply c)");
    assert_eq!(shape("a in b"), "(a In b)");
}

#[test]
fn shifts_to_the_right_are_made_of_adjacent_tokens() {
    assert_eq!(shape("a >> b"), "(a ShiftRight b)");
    assert_eq!(shape("a >>> b"), "(a UnsignedShiftRight b)");
    assert_eq!(shape("a > b"), "(a Greater b)");
    assert_eq!(error("a > > b").0, ParseErrorType::ExpectedExpression);
}

#[test]
fn assignments_are_read_from_the_right() {
    assert_eq!(shape("a = b = c"), "(a Assign (b Assign c))");
    assert_eq!(shape("a <- b"), "(a NewSlot b)");
    assert_eq!(shape("a += b ? c : d"), "(a AddAssign (b ? c : d))");
}

#[test]
fn prefix_and_postfix_operators() {
    assert_eq!(shape("-a.b"), "(Negate a.b)");
    assert_eq!(shape("!a()"), "(LogicalNot a())");
    assert_eq!(shape("a++"), "(a Increment)");
    assert_eq!(shape("--a"), "(Decrement a)");
    assert_eq!(shape("typeof a[1]"), "(Typeof a[1])");
    let items = tokens("-a--");
    let program = parse(&items, Flavor::SquirrelRespawn).unwrap();
    match &program.statements[0].ty {
        StatementType::Expression(Expression::Prefix(PrefixOperator::Negate, value)) => {
            assert!(matches!(
                **value,
                Expression::Postfix(PostfixOperator::Decrement, _)
            ));
        }
        other => panic!("{:?}", other),
    }
}

#[test]
fn calls_and_members() {
    assert_eq!(shape("a.b( c, d )[ 1 ]"), "a.b(c,d)[1]");
    assert_eq!(shape("::a"), "::a");
    assert_eq!(shape("a\n.b"), "a.b");
}

#[test]
fn calls_and_indices_stay_on_the_line() {
    assert_eq!(count("a\n(b)"), 2);
    assert_eq!(count("a\n[b]"), 2);
    assert_eq!(count("a\n++b"), 2);
    assert_eq!(count("a (b)"), 1);
}

#[test]
fn vectors_hold_no_comparison() {
    assert_eq!(shape("v = < 1, a + 2, -b >"), "(v Assign <1,(a Add 2),(Negate b)>)");
}

#[test]
fn values_of_all_kinds() {
    assert_eq!(count("x = true\nx = false\nx = null\nx = this\nx = base\n"), 5);
    assert_eq!(count("x = \"a\"\nx = 'b'\nx = @\"c\"\nx = $\"d\"\nx = 1.5\n"), 5);
    assert_eq!(count("x = [ 1, 2 ]\nx = [ 1\n2 ]\nx = []\n"), 3);
    assert_eq!(count("x = function( a ) { return a }\n"), 1);
    assert_eq!(count("x = int function( int a ) { return a }\n"), 1);
    assert_eq!(count("x = @( a, b ) a + b\n"), 1);
    assert_eq!(count("x = expect int( y )\n"), 1);
}

#[test]
fn tables_hold_names_keys_and_functions() {
    let items = tokens("x = { a = 1, [ b ] = 2\nfunction c() {} }");
    let program = parse(&items, Flavor::SquirrelRespawn).unwrap();
    match &program.statements[0].ty {
        StatementType::Expression(Expression::Binary(BinaryOperator::Assign, _, table)) => {
            match &**table {
                Expression::Table(entries) => {
                    let entries = entries.as_vec();
                    assert_eq!(entries.len(), 3);
                    assert!(matches!(
                        entries[0],
                        TableEntry::Property(name, _) if name.value == "a"
                    ));
                    assert!(matches!(entries[1], TableEntry::Index(_, _)));
                    assert!(matches!(
                        entries[2],
                        TableEntry::Function(name, _) if name.value == "c"
                    ));
                }
                other => panic!("{:?}", other),
            }
        }
        other => panic!("{:?}", other),
    }
}

#[test]
fn control_flow_statements() {
    let source = r#"
if ( a ) b() else c()
if ( a )
    b()
else if ( c ) { d() }
while ( a ) { break }
do { continue } while ( a )
for ( local i = 0; i < 3; i++ ) a( i )
for ( ;; ) {}
foreach ( a in b ) {}
foreach ( int i, string s in b ) {}
switch ( a ) { case 1: b(); break
case 2: default: c() }
try { throw a } catch ( e ) { print( e ) }
return
"#;
    let items = tokens(source);
    let program = parse(&items, Flavor::SquirrelRespawn).unwrap();
    let kinds: Vec<&str> = program
        .statements
        .iter()
        .map(|statement| match &statement.ty {
            StatementType::If(_) => "if",
            StatementType::While(_) => "while",
            StatementType::DoWhile(_) => "do",
            StatementType::For(_) => "for",
            StatementType::Foreach(_) => "foreach",
            StatementType::Switch(_) => "switch",
            StatementType::TryCatch(_) => "try",
            StatementType::Return(_) => "return",
            _ => "other",
        })
        .collect();
    assert_eq!(
        kinds,
        [
            "if", "if", "while", "do", "for", "for", "foreach", "foreach", "switch", "try",
            "return"
        ]
    );
    match &program.statements[4].ty {
        StatementType::For(statement) => {
            assert!(matches!(
                statement.initializer,
                Some(ForInitializer::Definition(_))
            ));
            assert!(statement.condition.is_some());
            assert!(statement.increment.is_some());
        }
        other => panic!("{:?}", other),
    }
    match &program.statements[5].ty {
        StatementType::For(statement) => {
            assert!(statement.initializer.is_none());
            assert!(statement.condition.is_none());
            assert!(statement.increment.is_none());
        }
        other => panic!("{:?}", other),
    }
    match &program.statements[8].ty {
        StatementType::Switch(statement) => {
            let cases = statement.cases.as_vec();
            assert_eq!(cases.len(), 3);
            assert_eq!(cases[0].body.as_vec().len(), 2);
            assert!(cases[1].body.as_vec().is_empty());
            assert!(cases[2].value.is_none());
        }
        other => panic!("{:?}", other),
    }
}

#[test]
fn threads_and_pauses() {
    let source = r#"
thread A()
waitthread B()
waitthreadsolo C()
delaythread( 1 ) D()
wait 0.1
yield a
untyped
globalize_all_functions
"#;
    assert_eq!(count(source), 8);
}

#[test]
fn definitions() {
    let source = r#"
const int A = 1
const B = "b"
enum C { a, b = 2 c }
struct D { int a, string b = "x" }
typedef E array<int>
class F extends G { a = 1; static b = 2
    constructor( x ) { a = x }
    function f() {} }
local a = 1, b
int c = 2
int[3] d
table e
int functionref( int, string name ) g
D ornull h
void function A::b( int a, b = 2, ... ) {}
global const int I = 1
global struct J { int a }
"#;
    let items = tokens(source);
    let program = parse(&items, Flavor::SquirrelRespawn).unwrap();
    let kinds: Vec<&str> = program
        .statements
        .iter()
        .map(|statement| match &statement.ty {
            StatementType::Const(_) => "const",
            StatementType::EnumDefinition(_) => "enum",
            StatementType::StructDefinition(_) => "struct",
            StatementType::TypeDefinition(_) => "typedef",
            StatementType::ClassDefinition(_) => "class",
            StatementType::VarDefinition(_) => "var",
            StatementType::FunctionDefinition(_) => "function",
            StatementType::Global(_) => "global",
            _ => "other",
        })
        .collect();
    assert_eq!(
        kinds,
        [
            "const", "const", "enum", "struct", "typedef", "class", "var", "var", "var", "var",
            "var", "var", "function", "global", "global"
        ]
    );
    match &program.statements[5].ty {
        StatementType::ClassDefinition(class) => {
            assert!(class.base.is_some());
            let members = class.members.as_vec();
            assert_eq!(members.len(), 4);
            assert!(!members[0].is_static);
            assert!(members[1].is_static);
            assert!(matches!(members[2].ty, ClassMemberType::Constructor(_)));
            assert!(matches!(members[3].ty, ClassMemberType::Function(_, _)));
        }
        other => panic!("{:?}", other),
    }
    match &program.statements[12].ty {
        StatementType::FunctionDefinition(function) => {
            assert_eq!(function.name.items.as_vec()[0].value, "A");
            assert_eq!(function.name.last_item.value, "b");
            let params = &function.definition.params;
            assert!(params.is_vararg);
            let params = params.params.as_vec();
            assert!(params[0].ty.is_some());
            assert!(params[1].ty.is_none());
            assert!(params[1].default.is_some());
        }
        other => panic!("{:?}", other),
    }
}

#[test]
fn statements_end_with_a_semicolon_or_a_line() {
    assert_eq!(count("a; b; c"), 3);
    assert_eq!(count("a\nb"), 2);
    assert_eq!(count(";;"), 2);
    assert_eq!(count("{ a }"), 1);
    assert_eq!(
        error("local a = 1 local b"),
        (ParseErrorType::ExpectedEndOfStatement, 4)
    );
    let items = tokens("a; b");
    let program = parse(&items, Flavor::SquirrelRespawn).unwrap();
    assert_eq!(
        program.statements[0].semicolon.unwrap().ty,
        TokenType::Terminal(TerminalToken::Semicolon)
    );
    assert!(program.statements[1].semicolon.is_none());
}

#[test]
fn each_kind_of_error() {
    assert_eq!(
        error("if a"),
        (
            ParseErrorType::ExpectedTerminal(TerminalToken::OpenBracket),
            1
        )
    );
    assert_eq!(error("a = "), (ParseErrorType::ExpectedExpression, 2));
    assert_eq!(error("a. 1"), (ParseErrorType::ExpectedIdentifier, 2));
    assert_eq!(error("typedef a 1"), (ParseErrorType::ExpectedType, 2));
    assert_eq!(error("global a()"), (ParseErrorType::ExpectedDefinition, 1));
    assert_eq!(error("a b c"), (ParseErrorType::ExpectedEndOfStatement, 2));
    assert_eq!(
        error("f( a b )"),
        (
            ParseErrorType::ExpectedTerminal(TerminalToken::CloseBracket),
            3
        )
    );
}

#[test]
fn every_token_is_parsed_or_dropped_once() {
    let items = tokens("local a = 1\nlocal =\nlocal b = 2; c\n");
    let partial = parse_partial(&items, Flavor::SquirrelRespawn);
    let mut ranges: Vec<(usize, usize)> = Vec::new();
    for statement in &partial.statements {
        ranges.push((statement.token_range.start, statement.token_range.end));
    }
    for error in &partial.errors {
        ranges.push((error.token_range.start, error.token_range.end));
    }
    ranges.sort();
    let mut at = 0;
    for (start, end) in ranges {
        assert_eq!(start, at);
        assert!(start < end);
        at = end;
    }
    assert_eq!(at, items.len());
    assert_eq!(partial.statements.len(), 3);
    assert_eq!(partial.errors.len(), 1);
}

#[test]
fn statements_of_a_partial_parse_are_those_of_a_strict_parse() {
    let source = "a = 1; function f() { b() }\nc = [ 1, 2 ]\n";
    let items = tokens(source);
    let strict = parse(&items, Flavor::SquirrelRespawn).unwrap();
    let partial = parse_partial(&items, Flavor::SquirrelRespawn);
    assert!(partial.errors.is_empty());
    assert_eq!(partial.statements.len(), strict.statements.len());
    for (left, right) in partial.statements.iter().zip(&strict.statements) {
        assert_eq!(left.statement, *right);
    }
    assert_eq!(partial.statements[0].token_range, 0..4);
    assert_eq!(partial.statements[1].token_range, 4..13);
}

#[test]
fn parsing_resumes_behind_the_tree_with_the_error() {
    let items = tokens("f( {\n1 = \n} )\ng()\n");
    let partial = parse_partial(&items, Flavor::SquirrelRespawn);
    assert_eq!(partial.errors.len(), 1);
    assert_eq!(partial.errors[0].token_range, 0..7);
    assert_eq!(partial.statements.len(), 1);
    assert_eq!(partial.statements[0].token_range, 7..10);
}

#[test]
fn parsing_resumes_at_the_line_with_the_error() {
    let items = tokens("local a =\nb()\n");
    let partial = parse_partial(&items, Flavor::SquirrelRespawn);
    assert!(partial.errors.is_empty());

    let items = tokens("local a =\nif ( b ) c()\n");
    let partial = parse_partial(&items, Flavor::SquirrelRespawn);
    assert_eq!(partial.errors.len(), 1);
    assert_eq!(partial.errors[0].token_range, 0..3);
    assert_eq!(partial.errors[0].error.token_index, 3);
    assert_eq!(partial.statements.len(), 1);
}

#[test]
fn an_error_at_the_end_drops_the_rest() {
    let items = tokens("a()\nlocal b =");
    let partial = parse_partial(&items, Flavor::SquirrelRespawn);
    assert_eq!(partial.statements.len(), 1);
    assert_eq!(partial.errors.len(), 1);
    assert_eq!(partial.errors[0].error.token_index, 6);
    assert_eq!(partial.errors[0].token_range, 3..6);
}

#[test]
fn copies_of_syntax_trees_are_equal() {
    let items = tokens("int function f( a = [ 1 ] ) { if ( a ) return < 1, 2, 3 > }\nlocal =\n");
    let partial = parse_partial(&items, Flavor::SquirrelRespawn);
    assert_eq!(partial.statements.len(), 1);
    assert_eq!(partial.errors.len(), 1);
    let copy = partial.clone();
    assert_eq!(
        copy.statements[0].statement,
        partial.statements[0].statement
    );
    assert_eq!(
        copy.statements[0].token_range,
        partial.statements[0].token_range
    );
    assert_eq!(copy.errors[0].error, partial.errors[0].error);
    assert_eq!(copy.errors[0].token_range, partial.errors[0].token_range);
}
