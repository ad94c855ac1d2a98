use vstd::prelude::*;

verus! {

/// A lexeme recognised by the scanner, borrowed from the source text.
#[derive(Debug, Clone, PartialEq)]
pub struct Token<'a> {
    pub ttype: TokenType,
    pub lexeme: &'a str,
    pub line: usize,
}

/// The closed set of token kinds.
#[derive(Debug, Clone, Copy, PartialEq, Eq, Structural)]
pub enum TokenType {
    RSqBrace,
    LSqBrace,
    LParen,
    RParen,
    LBrace,
    RBrace,
    Comma,
    Dot,
    Minus,
    Plus,
    Slash,
    Star,
    // One or two character tokens
    Bang,
    BangEqual,
    Equal,
    EqualEqual,
    Greater,
    GreaterEqual,
    Less,
    LessEqual,
    AmprSand,
    AmprAmprSand,
    Pipe,
    PipePipe,
    FatArrow,
    ThinArrow,
    // Literals
    Identifier,
    Strings,
    Integer,
    Float,
    Boolean,
    // Reserved keywords
    Type,
    Struct,
    Enum,
    If,
    Else,
    Elsif,
    Return,
    While,
    For,
    Match,
    Func,
    End,
    Eof,
}

/// A lexical fault: what went wrong and on which line.
#[derive(Debug)]
pub struct TokenError {
    pub message: String,
    pub line: u32,
}

/// What one scanning step produces.
#[derive(Debug)]
pub enum TokenResult<'a> {
    Token(Token<'a>),
    Error(TokenError),
}

/// The kind of a character that always forms a token on its own.
pub open spec fn single_char_kind(c: char) -> Option<TokenType> {
    if c == '(' {
        Some(TokenType::LParen)
    } else if c == ')' {
        Some(TokenType::RParen)
    } else if c == '{' {
        Some(TokenType::LBrace)
    } else if c == '}' {
        Some(TokenType::RBrace)
    } else if c == '[' {
        Some(TokenType::LSqBrace)
    } else if c == ']' {
        Some(TokenType::RSqBrace)
    } else if c == ',' {
        Some(TokenType::Comma)
    } else if c == '.' {
        Some(TokenType::Dot)
    } else if c == '+' {
        Some(TokenType::Plus)
    } else if c == '/' {
        Some(TokenType::Slash)
    } else if c == '*' {
        Some(TokenType::Star)
    } else {
        None
    }
}

/// For an operator character that may be followed by a second one: the
/// character that completes it, the one-character kind, the two-character kind.
pub open spec fn operator_pair(c: char) -> Option<(char, TokenType, TokenType)> {
    if c == '-' {
        Some(('>', TokenType::Minus, TokenType::ThinArrow))
    } else if c == '!' {
        Some(('=', TokenType::Bang, TokenType::BangEqual))
    } else if c == '<' {
        Some(('=', TokenType::Less, TokenType::LessEqual))
    } else if c == '>' {
        Some(('=', TokenType::Greater, TokenType::GreaterEqual))
    } else if c == '&' {
        Some(('&', TokenType::AmprSand, TokenType::AmprAmprSand))
    } else if c == '|' {
        Some(('|', TokenType::Pipe, TokenType::PipePipe))
    } else {
        None
    }
}

/// The kind of a punctuation character read on its own.
pub open spec fn punctuation_kind(c: char) -> Option<TokenType> {
    if single_char_kind(c) is Some {
        single_char_kind(c)
    } else if c == '=' {
        Some(TokenType::Equal)
    } else if operator_pair(c) is Some {
        let (_next, single, _double) = operator_pair(c)->0;
        Some(single)
    } else {
        None
    }
}

/// The kind of the two-character operator `a` `b`, if they form one.
pub open spec fn two_char_kind(a: char, b: char) -> Option<TokenType> {
    if a == '=' && b == '>' {
        Some(TokenType::FatArrow)
    } else if a == '=' && b == '=' {
        Some(TokenType::EqualEqual)
    } else if operator_pair(a) is Some {
        let (next, _single, double) = operator_pair(a)->0;
        if next == b {
            Some(double)
        } else {
            None
        }
    } else {
        None
    }
}

/// The reserved words of the language.
pub open spec fn is_keyword(w: Seq<char>) -> bool {
    w == "type"@ || w == "struct"@ || w == "enum"@ || w == "if"@ || w == "else"@ || w
        == "elsif"@ || w == "return"@ || w == "while"@ || w == "for"@ || w == "match"@ || w
        == "func"@ || w == "end"@
}

/// The kind of an identifier-shaped word: its keyword kind, or `Identifier`.
pub open spec fn keyword_kind(w: Seq<char>) -> TokenType {
    if w == "type"@ {
        TokenType::Type
    } else if w == "struct"@ {
        TokenType::Struct
    } else if w == "enum"@ {
        TokenType::Enum
    } else if w == "if"@ {
        TokenType::If
    } else if w == "else"@ {
        TokenType::Else
    } else if w == "elsif"@ {
        TokenType::Elsif
    } else if w == "return"@ {
        TokenType::Return
    } else if w == "while"@ {
        TokenType::While
    } else if w == "for"@ {
        TokenType::For
    } else if w == "match"@ {
        TokenType::Match
    } else if w == "func"@ {
        TokenType::Func
    } else if w == "end"@ {
        TokenType::End
    } else {
        TokenType::Identifier
    }
}

} // verus!
