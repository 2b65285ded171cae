use numlang::diagnostic::{format_ast, format_tokens, format_typed_ast, parse_error_message};
use numlang::parser::ParseError;
use numlang::span::Span;
use numlang::token::Token;
use numlang::parser::parse;
use numlang::token::tokenize;
use numlang::typecheck::typecheck;

#[test]
fn token_listing_lines() {
    let tokens = tokenize("let x").unwrap();
    let text = format_tokens(&tokens);
    assert_eq!(
        text,
        "[000] Let                      (span: 0..3)\n[001] Ident(\"x\")               (span: 4..5)\n"
    );
}

#[test]
fn token_listing_of_nothing_is_empty() {
    assert_eq!(format_tokens(&[]), "");
}

#[test]
fn token_listing_pads_positions() {
    let tokens = tokenize("1 2 3 4 5 6 7 8 9 10 11").unwrap();
    let text = format_tokens(&tokens);
    let lines: Vec<&str> = text.lines().collect();
    assert_eq!(lines.len(), 11);
    assert_eq!(lines[10], "[010] IntLiteral(11)           (span: 21..23)");
}

#[test]
fn tree_dumps_name_their_nodes() {
    let tokens = tokenize("fn main() { let x: i64 = 1; }").unwrap();
    let program = parse(&tokens).unwrap();
    assert!(format_ast(&program).starts_with("Program {"));
    let typed = typecheck(&program).unwrap();
    assert!(format_typed_ast(&typed).starts_with("TypedProgram {"));
}

#[test]
fn parse_error_messages() {
    let eof = ParseError::UnexpectedEof { expected: "expression".to_string(), span: Span { start: 0, end: 1 } };
    assert_eq!(parse_error_message(&eof), "Unexpected end of input, expected expression");
    let tok = ParseError::UnexpectedToken {
        found: Token::Semi,
        expected: "')'".to_string(),
        span: Span { start: 0, end: 1 },
    };
    assert_eq!(parse_error_message(&tok), "Unexpected token 'Semi', expected ')'");
    let pre = ParseError::InvalidPrefix { found: Token::Ident("x".to_string()), span: Span { start: 0, end: 1 } };
    assert_eq!(parse_error_message(&pre), "Invalid prefix operator 'Ident(\"x\")'");
}
