//! Tokens produced by the scanner: punctuation, operators, literal payloads,
//! keywords, and the end-of-stream sentinel, each tagged with a source line.

use vstd::prelude::*;

use crate::numbers::LoxNum;
use crate::text::{append_int, chars_eq_str, push_char};

verus! {

#[derive(Debug, PartialEq)]
#[allow(non_camel_case_types)]
pub enum TokenType {
    // Single-character tokens.
    LEFT_PAREN,
    RIGHT_PAREN,
    LEFT_BRACE,
    RIGHT_BRACE,
    COMMA,
    DOT,
    MINUS,
    PLUS,
    SEMICOLON,
    SLASH,
    STAR,
    // One or two character tokens.
    BANG,
    BANG_EQUAL,
    EQUAL,
    EQUAL_EQUAL,
    GREATER,
    GREATER_EQUAL,
    LESS,
    LESS_EQUAL,
    // Literals.
    IDENTIFIER(String),
    STRING(String),
    NUMBER(LoxNum),
    // Keywords.
    AND,
    CLASS,
    ELSE,
    FALSE,
    FUN,
    FOR,
    IF,
    NIL,
    OR,
    PRINT,
    RETURN,
    SUPER,
    THIS,
    TRUE,
    VAR,
    WHILE,
    EOF,
    UNKNOWN_TOKEN,
}

#[derive(Debug, PartialEq)]
pub struct Token {
    pub token_type: TokenType,
    pub line: i32,
}

impl Clone for TokenType {
    /// The clone is the same token type, literal payload included.
    fn clone(&self) -> (r: Self)
        ensures
            r == *self,
    {
        match self {
            TokenType::LEFT_PAREN => TokenType::LEFT_PAREN,
            TokenType::RIGHT_PAREN => TokenType::RIGHT_PAREN,
            TokenType::LEFT_BRACE => TokenType::LEFT_BRACE,
            TokenType::RIGHT_BRACE => TokenType::RIGHT_BRACE,
            TokenType::COMMA => TokenType::COMMA,
            TokenType::DOT => TokenType::DOT,
            TokenType::MINUS => TokenType::MINUS,
            TokenType::PLUS => TokenType::PLUS,
            TokenType::SEMICOLON => TokenType::SEMICOLON,
            TokenType::SLASH => TokenType::SLASH,
            TokenType::STAR => TokenType::STAR,
            TokenType::BANG => TokenType::BANG,
            TokenType::BANG_EQUAL => TokenType::BANG_EQUAL,
            TokenType::EQUAL => TokenType::EQUAL,
            TokenType::EQUAL_EQUAL => TokenType::EQUAL_EQUAL,
            TokenType::GREATER => TokenType::GREATER,
            TokenType::GREATER_EQUAL => TokenType::GREATER_EQUAL,
            TokenType::LESS => TokenType::LESS,
            TokenType::LESS_EQUAL => TokenType::LESS_EQUAL,
            TokenType::IDENTIFIER(name) => TokenType::IDENTIFIER(name.clone()),
            TokenType::STRING(val) => TokenType::STRING(val.clone()),
            TokenType::NUMBER(val) => TokenType::NUMBER(*val),
            TokenType::AND => TokenType::AND,
            TokenType::CLASS => TokenType::CLASS,
            TokenType::ELSE => TokenType::ELSE,
            TokenType::FALSE => TokenType::FALSE,
            TokenType::FUN => TokenType::FUN,
            TokenType::FOR => TokenType::FOR,
            TokenType::IF => TokenType::IF,
            TokenType::NIL => TokenType::NIL,
            TokenType::OR => TokenType::OR,
            TokenType::PRINT => TokenType::PRINT,
            TokenType::RETURN => TokenType::RETURN,
            TokenType::SUPER => TokenType::SUPER,
            TokenType::THIS => TokenType::THIS,
            TokenType::TRUE => TokenType::TRUE,
            TokenType::VAR => TokenType::VAR,
            TokenType::WHILE => TokenType::WHILE,
            TokenType::EOF => TokenType::EOF,
            TokenType::UNKNOWN_TOKEN => TokenType::UNKNOWN_TOKEN,
        }
    }
}

impl Clone for Token {
    /// The clone is the same token.
    fn clone(&self) -> (r: Self)
        ensures
            r == *self,
    {
        Token { token_type: self.token_type.clone(), line: self.line }
    }
}

impl Default for Token {
    /// A placeholder token on no particular line.
    fn default() -> (t: Token)
        ensures
            t.token_type == TokenType::UNKNOWN_TOKEN,
            t.line == -1,
    {
        Token { token_type: TokenType::UNKNOWN_TOKEN, line: -1 }
    }
}

impl TokenType {
    /// Whether two token types are the same kind of token, ignoring any
    /// literal payload.
    pub open spec fn spec_same_kind(self, other: TokenType) -> bool {
        match (self, other) {
            (TokenType::LEFT_PAREN, TokenType::LEFT_PAREN) => true,
            (TokenType::RIGHT_PAREN, TokenType::RIGHT_PAREN) => true,
            (TokenType::LEFT_BRACE, TokenType::LEFT_BRACE) => true,
            (TokenType::RIGHT_BRACE, TokenType::RIGHT_BRACE) => true,
            (TokenType::COMMA, TokenType::COMMA) => true,
            (TokenType::DOT, TokenType::DOT) => true,
            (TokenType::MINUS, TokenType::MINUS) => true,
            (TokenType::PLUS, TokenType::PLUS) => true,
            (TokenType::SEMICOLON, TokenType::SEMICOLON) => true,
            (TokenType::SLASH, TokenType::SLASH) => true,
            (TokenType::STAR, TokenType::STAR) => true,
            (TokenType::BANG, TokenType::BANG) => true,
            (TokenType::BANG_EQUAL, TokenType::BANG_EQUAL) => true,
            (TokenType::EQUAL, TokenType::EQUAL) => true,
            (TokenType::EQUAL_EQUAL, TokenType::EQUAL_EQUAL) => true,
            (TokenType::GREATER, TokenType::GREATER) => true,
            (TokenType::GREATER_EQUAL, TokenType::GREATER_EQUAL) => true,
            (TokenType::LESS, TokenType::LESS) => true,
            (TokenType::LESS_EQUAL, TokenType::LESS_EQUAL) => true,
            (TokenType::IDENTIFIER(_), TokenType::IDENTIFIER(_)) => true,
            (TokenType::STRING(_), TokenType::STRING(_)) => true,
            (TokenType::NUMBER(_), TokenType::NUMBER(_)) => true,
            (TokenType::AND, TokenType::AND) => true,
            (TokenType::CLASS, TokenType::CLASS) => true,
            (TokenType::ELSE, TokenType::ELSE) => true,
            (TokenType::FALSE, TokenType::FALSE) => true,
            (TokenType::FUN, TokenType::FUN) => true,
            (TokenType::FOR, TokenType::FOR) => true,
            (TokenType::IF, TokenType::IF) => true,
            (TokenType::NIL, TokenType::NIL) => true,
            (TokenType::OR, TokenType::OR) => true,
            (TokenType::PRINT, TokenType::PRINT) => true,
            (TokenType::RETURN, TokenType::RETURN) => true,
            (TokenType::SUPER, TokenType::SUPER) => true,
            (TokenType::THIS, TokenType::THIS) => true,
            (TokenType::TRUE, TokenType::TRUE) => true,
            (TokenType::VAR, TokenType::VAR) => true,
            (TokenType::WHILE, TokenType::WHILE) => true,
            (TokenType::EOF, TokenType::EOF) => true,
            (TokenType::UNKNOWN_TOKEN, TokenType::UNKNOWN_TOKEN) => true,
            _ => false,
        }
    }

    /// Compares token kinds, ignoring any literal payload.
    pub fn same_kind(&self, other: &TokenType) -> (r: bool)
        ensures
            r == self.spec_same_kind(*other),
    {
        match (self, other) {
            (TokenType::LEFT_PAREN, TokenType::LEFT_PAREN) => true,
            (TokenType::RIGHT_PAREN, TokenType::RIGHT_PAREN) => true,
            (TokenType::LEFT_BRACE, TokenType::LEFT_BRACE) => true,
            (TokenType::RIGHT_BRACE, TokenType::RIGHT_BRACE) => true,
            (TokenType::COMMA, TokenType::COMMA) => true,
            (TokenType::DOT, TokenType::DOT) => true,
            (TokenType::MINUS, TokenType::MINUS) => true,
            (TokenType::PLUS, TokenType::PLUS) => true,
            (TokenType::SEMICOLON, TokenType::SEMICOLON) => true,
            (TokenType::SLASH, TokenType::SLASH) => true,
            (TokenType::STAR, TokenType::STAR) => true,
            (TokenType::BANG, TokenType::BANG) => true,
            (TokenType::BANG_EQUAL, TokenType::BANG_EQUAL) => true,
            (TokenType::EQUAL, TokenType::EQUAL) => true,
            (TokenType::EQUAL_EQUAL, TokenType::EQUAL_EQUAL) => true,
            (TokenType::GREATER, TokenType::GREATER) => true,
            (TokenType::GREATER_EQUAL, TokenType::GREATER_EQUAL) => true,
            (TokenType::LESS, TokenType::LESS) => true,
            (TokenType::LESS_EQUAL, TokenType::LESS_EQUAL) => true,
            (TokenType::IDENTIFIER(_), TokenType::IDENTIFIER(_)) => true,
            (TokenType::STRING(_), TokenType::STRING(_)) => true,
            (TokenType::NUMBER(_), TokenType::NUMBER(_)) => true,
            (TokenType::AND, TokenType::AND) => true,
            (TokenType::CLASS, TokenType::CLASS) => true,
            (TokenType::ELSE, TokenType::ELSE) => true,
            (TokenType::FALSE, TokenType::FALSE) => true,
            (TokenType::FUN, TokenType::FUN) => true,
            (TokenType::FOR, TokenType::FOR) => true,
            (TokenType::IF, TokenType::IF) => true,
            (TokenType::NIL, TokenType::NIL) => true,
            (TokenType::OR, TokenType::OR) => true,
            (TokenType::PRINT, TokenType::PRINT) => true,
            (TokenType::RETURN, TokenType::RETURN) => true,
            (TokenType::SUPER, TokenType::SUPER) => true,
            (TokenType::THIS, TokenType::THIS) => true,
            (TokenType::TRUE, TokenType::TRUE) => true,
            (TokenType::VAR, TokenType::VAR) => true,
            (TokenType::WHILE, TokenType::WHILE) => true,
            (TokenType::EOF, TokenType::EOF) => true,
            (TokenType::UNKNOWN_TOKEN, TokenType::UNKNOWN_TOKEN) => true,
            _ => false,
        }
    }

    /// The display text of a token type: the operator or keyword spelling,
    /// or the literal's own text.
    pub open spec fn spec_display(self) -> Seq<char> {
        match self {
            TokenType::LEFT_PAREN => "("@,
            TokenType::RIGHT_PAREN => ")"@,
            TokenType::LEFT_BRACE => "{"@,
            TokenType::RIGHT_BRACE => "}"@,
            TokenType::COMMA => ","@,
            TokenType::DOT => "."@,
            TokenType::MINUS => "-"@,
            TokenType::PLUS => "+"@,
            TokenType::SEMICOLON => ";"@,
            TokenType::SLASH => "/"@,
            TokenType::STAR => "*"@,
            TokenType::BANG => "!"@,
            TokenType::BANG_EQUAL => "!="@,
            TokenType::EQUAL => "="@,
            TokenType::EQUAL_EQUAL => "=="@,
            TokenType::GREATER => ">"@,
            TokenType::GREATER_EQUAL => ">="@,
            TokenType::LESS => "<"@,
            TokenType::LESS_EQUAL => "<="@,
            TokenType::IDENTIFIER(name) => name@,
            TokenType::STRING(val) => val@,
            TokenType::NUMBER(val) => val.render(),
            TokenType::AND => "&&"@,
            TokenType::CLASS => "class"@,
            TokenType::ELSE => "else"@,
            TokenType::FALSE => "false"@,
            TokenType::FUN => "fun"@,
            TokenType::FOR => "for"@,
            TokenType::IF => "if"@,
            TokenType::NIL => "nil"@,
            TokenType::OR => "||"@,
            TokenType::PRINT => "print"@,
            TokenType::RETURN => "return"@,
            TokenType::SUPER => "super"@,
            TokenType::THIS => "this"@,
            TokenType::TRUE => "true"@,
            TokenType::VAR => "var"@,
            TokenType::WHILE => "while"@,
            TokenType::EOF => "<EOF>"@,
            TokenType::UNKNOWN_TOKEN => "#######UNKNOWN#######"@,
        }
    }

    /// Renders the token type for diagnostics and debug output.
    pub fn to_display_string(&self) -> (s: String)
        requires
            self.wf(),
        ensures
            s@ == self.spec_display(),
    {
        match self {
            TokenType::LEFT_PAREN => String::from_str("("),
            TokenType::RIGHT_PAREN => String::from_str(")"),
            TokenType::LEFT_BRACE => String::from_str("{"),
            TokenType::RIGHT_BRACE => String::from_str("}"),
            TokenType::COMMA => String::from_str(","),
            TokenType::DOT => String::from_str("."),
            TokenType::MINUS => String::from_str("-"),
            TokenType::PLUS => String::from_str("+"),
            TokenType::SEMICOLON => String::from_str(";"),
            TokenType::SLASH => String::from_str("/"),
            TokenType::STAR => String::from_str("*"),
            TokenType::BANG => String::from_str("!"),
            TokenType::BANG_EQUAL => String::from_str("!="),
            TokenType::EQUAL => String::from_str("="),
            TokenType::EQUAL_EQUAL => String::from_str("=="),
            TokenType::GREATER => String::from_str(">"),
            TokenType::GREATER_EQUAL => String::from_str(">="),
            TokenType::LESS => String::from_str("<"),
            TokenType::LESS_EQUAL => String::from_str("<="),
            TokenType::IDENTIFIER(name) => name.clone(),
            TokenType::STRING(val) => val.clone(),
            TokenType::NUMBER(val) => val.to_display(),
            TokenType::AND => String::from_str("&&"),
            TokenType::CLASS => String::from_str("class"),
            TokenType::ELSE => String::from_str("else"),
            TokenType::FALSE => String::from_str("false"),
            TokenType::FUN => String::from_str("fun"),
            TokenType::FOR => String::from_str("for"),
            TokenType::IF => String::from_str("if"),
            TokenType::NIL => String::from_str("nil"),
            TokenType::OR => String::from_str("||"),
            TokenType::PRINT => String::from_str("print"),
            TokenType::RETURN => String::from_str("return"),
            TokenType::SUPER => String::from_str("super"),
            TokenType::THIS => String::from_str("this"),
            TokenType::TRUE => String::from_str("true"),
            TokenType::VAR => String::from_str("var"),
            TokenType::WHILE => String::from_str("while"),
            TokenType::EOF => String::from_str("<EOF>"),
            TokenType::UNKNOWN_TOKEN => String::from_str("#######UNKNOWN#######"),
        }
    }

    /// Well-formedness: a numeric payload has a positive denominator.
    pub open spec fn wf(self) -> bool {
        match self {
            TokenType::NUMBER(n) => n.wf(),
            _ => true,
        }
    }
}

impl Token {
    /// Well-formedness of the payload.
    pub open spec fn wf(self) -> bool {
        self.token_type.wf()
    }

    /// The display text of a token: its type followed by its line.
    pub open spec fn spec_display(self) -> Seq<char> {
        self.token_type.spec_display() + " on line "@ + crate::text::spec_int_digits(
            self.line as int,
        )
    }

    /// Renders the token for diagnostics and debug output.
    pub fn to_display_string(&self) -> (s: String)
        requires
            self.wf(),
        ensures
            s@ == self.spec_display(),
    {
        let mut s = self.token_type.to_display_string();
        s.append(" on line ");
        append_int(&mut s, self.line as i64);
        s
    }
}

/// The keyword spelled by the given characters, if any.
pub open spec fn spec_keyword(s: Seq<char>) -> Option<TokenTypeV> {
    if s == "and"@ {
        Some(TokenTypeV::AND)
    } else if s == "class"@ {
        Some(TokenTypeV::CLASS)
    } else if s == "else"@ {
        Some(TokenTypeV::ELSE)
    } else if s == "false"@ {
        Some(TokenTypeV::FALSE)
    } else if s == "fun"@ {
        Some(TokenTypeV::FUN)
    } else if s == "for"@ {
        Some(TokenTypeV::FOR)
    } else if s == "if"@ {
        Some(TokenTypeV::IF)
    } else if s == "nil"@ {
        Some(TokenTypeV::NIL)
    } else if s == "or"@ {
        Some(TokenTypeV::OR)
    } else if s == "print"@ {
        Some(TokenTypeV::PRINT)
    } else if s == "return"@ {
        Some(TokenTypeV::RETURN)
    } else if s == "super"@ {
        Some(TokenTypeV::SUPER)
    } else if s == "this"@ {
        Some(TokenTypeV::THIS)
    } else if s == "true"@ {
        Some(TokenTypeV::TRUE)
    } else if s == "var"@ {
        Some(TokenTypeV::VAR)
    } else if s == "while"@ {
        Some(TokenTypeV::WHILE)
    } else {
        None
    }
}

/// Looks up the keyword spelled by the given characters, if any.
pub fn keyword_of(v: &Vec<char>) -> (r: Option<TokenType>)
    ensures
        match r {
            Some(t) => spec_keyword(v@) == Some(t@),
            None => spec_keyword(v@) is None,
        },
{
    if chars_eq_str(v, "and") {
        Some(TokenType::AND)
    } else if chars_eq_str(v, "class") {
        Some(TokenType::CLASS)
    } else if chars_eq_str(v, "else") {
        Some(TokenType::ELSE)
    } else if chars_eq_str(v, "false") {
        Some(TokenType::FALSE)
    } else if chars_eq_str(v, "fun") {
        Some(TokenType::FUN)
    } else if chars_eq_str(v, "for") {
        Some(TokenType::FOR)
    } else if chars_eq_str(v, "if") {
        Some(TokenType::IF)
    } else if chars_eq_str(v, "nil") {
        Some(TokenType::NIL)
    } else if chars_eq_str(v, "or") {
        Some(TokenType::OR)
    } else if chars_eq_str(v, "print") {
        Some(TokenType::PRINT)
    } else if chars_eq_str(v, "return") {
        Some(TokenType::RETURN)
    } else if chars_eq_str(v, "super") {
        Some(TokenType::SUPER)
    } else if chars_eq_str(v, "this") {
        Some(TokenType::THIS)
    } else if chars_eq_str(v, "true") {
        Some(TokenType::TRUE)
    } else if chars_eq_str(v, "var") {
        Some(TokenType::VAR)
    } else if chars_eq_str(v, "while") {
        Some(TokenType::WHILE)
    } else {
        None
    }
}

/// The table of reserved words and the token each one scans to.
pub fn keywords() -> (r: Vec<(String, TokenType)>)
    ensures
        r@.len() == 16,
        r@[0].0@ == "and"@ && r@[0].1 == TokenType::AND,
        r@[1].0@ == "class"@ && r@[1].1 == TokenType::CLASS,
        r@[2].0@ == "else"@ && r@[2].1 == TokenType::ELSE,
        r@[3].0@ == "false"@ && r@[3].1 == TokenType::FALSE,
        r@[4].0@ == "fun"@ && r@[4].1 == TokenType::FUN,
        r@[5].0@ == "for"@ && r@[5].1 == TokenType::FOR,
        r@[6].0@ == "if"@ && r@[6].1 == TokenType::IF,
        r@[7].0@ == "nil"@ && r@[7].1 == TokenType::NIL,
        r@[8].0@ == "or"@ && r@[8].1 == TokenType::OR,
        r@[9].0@ == "print"@ && r@[9].1 == TokenType::PRINT,
        r@[10].0@ == "return"@ && r@[10].1 == TokenType::RETURN,
        r@[11].0@ == "super"@ && r@[11].1 == TokenType::SUPER,
        r@[12].0@ == "this"@ && r@[12].1 == TokenType::THIS,
        r@[13].0@ == "true"@ && r@[13].1 == TokenType::TRUE,
        r@[14].0@ == "var"@ && r@[14].1 == TokenType::VAR,
        r@[15].0@ == "while"@ && r@[15].1 == TokenType::WHILE,
{
    let mut r: Vec<(String, TokenType)> = Vec::new();
    r.push((String::from_str("and"), TokenType::AND));
    r.push((String::from_str("class"), TokenType::CLASS));
    r.push((String::from_str("else"), TokenType::ELSE));
    r.push((String::from_str("false"), TokenType::FALSE));
    r.push((String::from_str("fun"), TokenType::FUN));
    r.push((String::from_str("for"), TokenType::FOR));
    r.push((String::from_str("if"), TokenType::IF));
    r.push((String::from_str("nil"), TokenType::NIL));
    r.push((String::from_str("or"), TokenType::OR));
    r.push((String::from_str("print"), TokenType::PRINT));
    r.push((String::from_str("return"), TokenType::RETURN));
    r.push((String::from_str("super"), TokenType::SUPER));
    r.push((String::from_str("this"), TokenType::THIS));
    r.push((String::from_str("true"), TokenType::TRUE));
    r.push((String::from_str("var"), TokenType::VAR));
    r.push((String::from_str("while"), TokenType::WHILE));
    r
}


/// The mathematical view of a token type: literal payloads become their
/// character sequences.
#[allow(non_camel_case_types)]
pub enum TokenTypeV {
    LEFT_PAREN,
    RIGHT_PAREN,
    LEFT_BRACE,
    RIGHT_BRACE,
    COMMA,
    DOT,
    MINUS,
    PLUS,
    SEMICOLON,
    SLASH,
    STAR,
    BANG,
    BANG_EQUAL,
    EQUAL,
    EQUAL_EQUAL,
    GREATER,
    GREATER_EQUAL,
    LESS,
    LESS_EQUAL,
    IDENTIFIER(Seq<char>),
    STRING(Seq<char>),
    NUMBER(LoxNum),
    AND,
    CLASS,
    ELSE,
    FALSE,
    FUN,
    FOR,
    IF,
    NIL,
    OR,
    PRINT,
    RETURN,
    SUPER,
    THIS,
    TRUE,
    VAR,
    WHILE,
    EOF,
    UNKNOWN_TOKEN,
}

/// The mathematical view of a token.
pub struct TokenV {
    pub token_type: TokenTypeV,
    pub line: int,
}

impl View for TokenType {
    type V = TokenTypeV;

    open spec fn view(&self) -> TokenTypeV {
        match self {
            TokenType::LEFT_PAREN => TokenTypeV::LEFT_PAREN,
            TokenType::RIGHT_PAREN => TokenTypeV::RIGHT_PAREN,
            TokenType::LEFT_BRACE => TokenTypeV::LEFT_BRACE,
            TokenType::RIGHT_BRACE => TokenTypeV::RIGHT_BRACE,
            TokenType::COMMA => TokenTypeV::COMMA,
            TokenType::DOT => TokenTypeV::DOT,
            TokenType::MINUS => TokenTypeV::MINUS,
            TokenType::PLUS => TokenTypeV::PLUS,
            TokenType::SEMICOLON => TokenTypeV::SEMICOLON,
            TokenType::SLASH => TokenTypeV::SLASH,
            TokenType::STAR => TokenTypeV::STAR,
            TokenType::BANG => TokenTypeV::BANG,
            TokenType::BANG_EQUAL => TokenTypeV::BANG_EQUAL,
            TokenType::EQUAL => TokenTypeV::EQUAL,
            TokenType::EQUAL_EQUAL => TokenTypeV::EQUAL_EQUAL,
            TokenType::GREATER => TokenTypeV::GREATER,
            TokenType::GREATER_EQUAL => TokenTypeV::GREATER_EQUAL,
            TokenType::LESS => TokenTypeV::LESS,
            TokenType::LESS_EQUAL => TokenTypeV::LESS_EQUAL,
            TokenType::IDENTIFIER(name) => TokenTypeV::IDENTIFIER(name@),
            TokenType::STRING(val) => TokenTypeV::STRING(val@),
            TokenType::NUMBER(val) => TokenTypeV::NUMBER(*val),
            TokenType::AND => TokenTypeV::AND,
            TokenType::CLASS => TokenTypeV::CLASS,
            TokenType::ELSE => TokenTypeV::ELSE,
            TokenType::FALSE => TokenTypeV::FALSE,
            TokenType::FUN => TokenTypeV::FUN,
            TokenType::FOR => TokenTypeV::FOR,
            TokenType::IF => TokenTypeV::IF,
            TokenType::NIL => TokenTypeV::NIL,
            TokenType::OR => TokenTypeV::OR,
            TokenType::PRINT => TokenTypeV::PRINT,
            TokenType::RETURN => TokenTypeV::RETURN,
            TokenType::SUPER => TokenTypeV::SUPER,
            TokenType::THIS => TokenTypeV::THIS,
            TokenType::TRUE => TokenTypeV::TRUE,
            TokenType::VAR => TokenTypeV::VAR,
            TokenType::WHILE => TokenTypeV::WHILE,
            TokenType::EOF => TokenTypeV::EOF,
            TokenType::UNKNOWN_TOKEN => TokenTypeV::UNKNOWN_TOKEN,
        }
    }
}

impl View for Token {
    type V = TokenV;

    open spec fn view(&self) -> TokenV {
        TokenV { token_type: self.token_type@, line: self.line as int }
    }
}

} // verus!

