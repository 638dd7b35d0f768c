use lox::numbers::LoxNum;
use lox::scanner::scan_tokens;
use lox::tokens::{Token, TokenType};

#[test]
fn scanner_test_empty() {
    let input = "";
    let expected = vec![Token {
        token_type: TokenType::EOF,
        line: 1,
    }];
    let out = scan_tokens(input);
    assert!(out.ok);
    assert_eq!(out.tokens, expected);
    assert_eq!(out.diagnostics.is_empty(), true);
}

#[test]
fn test_identifier() {
    let input = "asdf";
    let expected = vec![
        Token {
            token_type: TokenType::IDENTIFIER("asdf".to_string()),
            line: 1,
        },
        Token {
            token_type: TokenType::EOF,
            line: 1,
        },
    ];
    let out = scan_tokens(input);
    assert!(out.ok);
    assert_eq!(out.tokens, expected);
    assert_eq!(out.diagnostics.is_empty(), true);
}

#[test]
fn test_digit() {
    let input = "1";
    let expected = vec![
        Token {
            token_type: TokenType::NUMBER(LoxNum { num: 1, den: 1 }),
            line: 1,
        },
        Token {
            token_type: TokenType::EOF,
            line: 1,
        },
    ];
    let out = scan_tokens(input);
    assert!(out.ok);
    assert_eq!(out.tokens, expected);
    assert_eq!(out.diagnostics.is_empty(), true);
}

#[test]
fn test_number() {
    let input = "123.123 321";
    let expected = vec![
        Token {
            token_type: TokenType::NUMBER(LoxNum {
                num: 123123,
                den: 1000,
            }),
            line: 1,
        },
        Token {
            token_type: TokenType::NUMBER(LoxNum { num: 321, den: 1 }),
            line: 1,
        },
        Token {
            token_type: TokenType::EOF,
            line: 1,
        },
    ];
    let out = scan_tokens(input);
    assert!(out.ok);
    assert_eq!(out.tokens, expected);
    assert_eq!(out.diagnostics.is_empty(), true);
}

#[test]
fn test_simple_string() {
    let input = "\"asdf\"";
    let expected = vec![
        Token {
            token_type: TokenType::STRING(input[1..input.len() - 1].to_string()),
            line: 1,
        },
        Token {
            token_type: TokenType::EOF,
            line: 1,
        },
    ];
    let out = scan_tokens(input);
    assert!(out.ok);
    assert_eq!(out.tokens, expected);
    assert_eq!(out.diagnostics.is_empty(), true);
}

#[test]
fn test_string() {
    let input = "\" asdf\n\t\"";
    let expected = vec![
        Token {
            token_type: TokenType::STRING(input[1..input.len() - 1].to_string()),
            line: 2,
        },
        Token {
            token_type: TokenType::EOF,
            line: 2,
        },
    ];
    let out = scan_tokens(input);
    assert!(out.ok);
    assert_eq!(out.tokens, expected);
    assert_eq!(out.diagnostics.is_empty(), true);
}

#[test]
fn test_punct() {
    let input = "(){},.-+;/*";
    let expected = vec![
        Token {
            token_type: TokenType::LEFT_PAREN,
            line: 1,
        },
        Token {
            token_type: TokenType::RIGHT_PAREN,
            line: 1,
        },
        Token {
            token_type: TokenType::LEFT_BRACE,
            line: 1,
        },
        Token {
            token_type: TokenType::RIGHT_BRACE,
            line: 1,
        },
        Token {
            token_type: TokenType::COMMA,
            line: 1,
        },
        Token {
            token_type: TokenType::DOT,
            line: 1,
        },
        Token {
            token_type: TokenType::MINUS,
            line: 1,
        },
        Token {
            token_type: TokenType::PLUS,
            line: 1,
        },
        Token {
            token_type: TokenType::SEMICOLON,
            line: 1,
        },
        Token {
            token_type: TokenType::SLASH,
            line: 1,
        },
        Token {
            token_type: TokenType::STAR,
            line: 1,
        },
        Token {
            token_type: TokenType::EOF,
            line: 1,
        },
    ];
    let out = scan_tokens(input);
    assert!(out.ok);
    assert_eq!(out.tokens, expected);
    assert_eq!(out.diagnostics.is_empty(), true);
}

#[test]
fn test_punct2() {
    let input = "! != = == > >= < <= ";
    let expected = vec![
        Token {
            token_type: TokenType::BANG,
            line: 1,
        },
        Token {
            token_type: TokenType::BANG_EQUAL,
            line: 1,
        },
        Token {
            token_type: TokenType::EQUAL,
            line: 1,
        },
        Token {
            token_type: TokenType::EQUAL_EQUAL,
            line: 1,
        },
        Token {
            token_type: TokenType::GREATER,
            line: 1,
        },
        Token {
            token_type: TokenType::GREATER_EQUAL,
            line: 1,
        },
        Token {
            token_type: TokenType::LESS,
            line: 1,
        },
        Token {
            token_type: TokenType::LESS_EQUAL,
            line: 1,
        },
        Token {
            token_type: TokenType::EOF,
            line: 1,
        },
    ];
    let out = scan_tokens(input);
    assert!(out.ok);
    assert_eq!(out.tokens, expected);
    assert_eq!(out.diagnostics.is_empty(), true);
}

#[test]
fn test_keywords() {
    let input = "and class else false fun for if nil or print return super this true var while";
    let expected = vec![
        Token {
            token_type: TokenType::AND,
            line: 1,
        },
        Token {
            token_type: TokenType::CLASS,
            line: 1,
        },
        Token {
            token_type: TokenType::ELSE,
            line: 1,
        },
        Token {
            token_type: TokenType::FALSE,
            line: 1,
        },
        Token {
            token_type: TokenType::FUN,
            line: 1,
        },
        Token {
            token_type: TokenType::FOR,
            line: 1,
        },
        Token {
            token_type: TokenType::IF,
            line: 1,
        },
        Token {
            token_type: TokenType::NIL,
            line: 1,
        },
        Token {
            token_type: TokenType::OR,
            line: 1,
        },
        Token {
            token_type: TokenType::PRINT,
            line: 1,
        },
        Token {
            token_type: TokenType::RETURN,
            line: 1,
        },
        Token {
            token_type: TokenType::SUPER,
            line: 1,
        },
        Token {
            token_type: TokenType::THIS,
            line: 1,
        },
        Token {
            token_type: TokenType::TRUE,
            line: 1,
        },
        Token {
            token_type: TokenType::VAR,
            line: 1,
        },
        Token {
            token_type: TokenType::WHILE,
            line: 1,
        },
        Token {
            token_type: TokenType::EOF,
            line: 1,
        },
    ];
    let out = scan_tokens(input);
    assert!(out.ok);
    assert_eq!(out.tokens, expected);
    assert_eq!(out.diagnostics.is_empty(), true);
}

#[test]
fn test_comment() {
    let input = "something // comment";
    let expected = vec![
        Token {
            token_type: TokenType::IDENTIFIER("something".to_string()),
            line: 1,
        },
        Token {
            token_type: TokenType::EOF,
            line: 1,
        },
    ];
    let out = scan_tokens(input);
    assert!(out.ok);
    assert_eq!(out.tokens, expected);
    assert_eq!(out.diagnostics.is_empty(), true);
}

#[test]
fn test_unexp_chr() {
    let input = "[]";
    let out = scan_tokens(input);
    let expected = vec![Token {
        token_type: TokenType::EOF,
        line: 1,
    }];
    assert!(out.ok);
    assert_eq!(&out.tokens, &expected);
    assert_eq!(out.diagnostics.is_empty(), false);
}

#[test]
fn test_unterm_string() {
    let input = "\"asdfa";
    let out = scan_tokens(input);
    assert!(!out.ok);
    assert_eq!(out.diagnostics.is_empty(), false);
}

#[test]
fn unterminated_string_one_diagnostic_no_token() {
    let out = scan_tokens("\"unterminated");
    assert!(!out.ok);
    assert_eq!(out.diagnostics.len(), 1);
    assert_eq!(out.diagnostics[0].message, "Unterminated string.");
    assert!(out.tokens.is_empty());
}

#[test]
fn number_literal_too_large_is_reported() {
    let out = scan_tokens("99999999999999999999");
    assert!(out.ok);
    assert_eq!(out.diagnostics.len(), 1);
    assert_eq!(out.diagnostics[0].message, "Number literal too large.");
    assert_eq!(out.tokens.len(), 1);
}

#[test]
fn unexpected_char_message_quotes_the_character() {
    let out = scan_tokens("#");
    assert!(out.ok);
    assert_eq!(out.diagnostics.len(), 1);
    assert_eq!(out.diagnostics[0].message, "Unexpected character '#'.");
}
