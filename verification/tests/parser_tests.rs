use lox::numbers::LoxNum;
use lox::parser::Parser;
use lox::tokens::{Token, TokenType};

#[test]
fn parser_test_empty() {
    let tokens: Vec<Token> = vec![];
    let mut parser = Parser::new(tokens);
    let ast = parser.parse();
    println!("{:#?}", ast);
}

#[test]
fn test_simple() {
    let tokens = vec![
        Token {
            token_type: TokenType::LEFT_PAREN,
            line: 1,
        },
        Token {
            token_type: TokenType::NUMBER(LoxNum { num: 42, den: 1 }),
            line: 1,
        },
        Token {
            token_type: TokenType::RIGHT_PAREN,
            line: 1,
        },
    ];
    let mut parser = Parser::new(tokens);
    let ast = parser.parse();
    println!("{:#?}", ast);
}

fn scan_and_parse(source: &str) -> (Vec<lox::ast::Stmt>, Vec<lox::diagnostics::Diagnostic>) {
    let out = lox::scanner::scan_tokens(source);
    assert!(out.ok);
    assert!(out.diagnostics.is_empty());
    let mut parser = Parser::new(out.tokens);
    let stmts = parser.parse();
    (stmts, parser.diagnostics)
}

#[test]
fn parses_statements_without_diagnostics() {
    let (stmts, diags) = scan_and_parse("var a = 1; print a + 2 * 3; { a = a - 1; }");
    assert!(diags.is_empty());
    assert_eq!(stmts.len(), 3);
}

#[test]
fn missing_semicolon_is_reported_and_parsing_resumes() {
    let (stmts, diags) = scan_and_parse("print 1\nprint 2;");
    assert_eq!(diags.len(), 1);
    assert_eq!(diags[0].message, "Expect ';' after value.");
    assert_eq!(stmts.len(), 1);
}

#[test]
fn two_independent_errors_are_both_reported() {
    let (_stmts, diags) = scan_and_parse("var ; print ) ; var ok = 1;");
    assert!(diags.len() >= 2);
}

#[test]
fn invalid_assignment_target_is_reported() {
    let (_stmts, diags) = scan_and_parse("1 = 2;");
    assert_eq!(diags.len(), 1);
    assert_eq!(diags[0].message, "Invalid assignment target.");
}
