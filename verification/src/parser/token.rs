//! Tokens as the lexer delivers them, each with its 1-based position.
use vstd::prelude::*;

verus! {

/// A token.
#[derive(Debug, Clone)]
pub enum Token {
    Let,
    Mut,
    Fn,
    Struct,
    Enum,
    Import,
    Export,
    Return,
    Break,
    Continue,
    If,
    Elif,
    Else,
    For,
    In,
    While,
    Match,
    True,
    False,
    Int(i64),
    Float(String),
    String(String),
    Char(char),
    Ident(String),
    Plus,
    Minus,
    Star,
    Slash,
    Percent,
    Equal,
    EqualEqual,
    BangEqual,
    Bang,
    Less,
    LessEqual,
    Greater,
    GreaterEqual,
    AmpAmp,
    BarBar,
    LParen,
    RParen,
    LBrace,
    RBrace,
    LBracket,
    RBracket,
    Comma,
    Colon,
    Semi,
    Dot,
    DotDot,
    PathSep,
    Arrow,
    FatArrow,
    Question,
    Eof,
}

/// The kind of a token, without its payload.
#[derive(Debug, Clone, Copy, PartialEq, Eq, Structural)]
pub enum TokenKind {
    Let,
    Mut,
    Fn,
    Struct,
    Enum,
    Import,
    Export,
    Return,
    Break,
    Continue,
    If,
    Elif,
    Else,
    For,
    In,
    While,
    Match,
    True,
    False,
    Int,
    Float,
    String,
    Char,
    Ident,
    Plus,
    Minus,
    Star,
    Slash,
    Percent,
    Equal,
    EqualEqual,
    BangEqual,
    Bang,
    Less,
    LessEqual,
    Greater,
    GreaterEqual,
    AmpAmp,
    BarBar,
    LParen,
    RParen,
    LBrace,
    RBrace,
    LBracket,
    RBracket,
    Comma,
    Colon,
    Semi,
    Dot,
    DotDot,
    PathSep,
    Arrow,
    FatArrow,
    Question,
    Eof,
}

/// A token and where it starts.
#[derive(Debug, Clone)]
pub struct SpannedToken {
    pub token: Token,
    pub line: usize,
    pub column: usize,
}

impl Token {
    pub open spec fn kind(self) -> TokenKind {
        match self {
            Token::Let => TokenKind::Let,
            Token::Mut => TokenKind::Mut,
            Token::Fn => TokenKind::Fn,
            Token::Struct => TokenKind::Struct,
            Token::Enum => TokenKind::Enum,
            Token::Import => TokenKind::Import,
            Token::Export => TokenKind::Export,
            Token::Return => TokenKind::Return,
            Token::Break => TokenKind::Break,
            Token::Continue => TokenKind::Continue,
            Token::If => TokenKind::If,
            Token::Elif => TokenKind::Elif,
            Token::Else => TokenKind::Else,
            Token::For => TokenKind::For,
            Token::In => TokenKind::In,
            Token::While => TokenKind::While,
            Token::Match => TokenKind::Match,
            Token::True => TokenKind::True,
            Token::False => TokenKind::False,
            Token::Plus => TokenKind::Plus,
            Token::Minus => TokenKind::Minus,
            Token::Star => TokenKind::Star,
            Token::Slash => TokenKind::Slash,
            Token::Percent => TokenKind::Percent,
            Token::Equal => TokenKind::Equal,
            Token::EqualEqual => TokenKind::EqualEqual,
            Token::BangEqual => TokenKind::BangEqual,
            Token::Bang => TokenKind::Bang,
            Token::Less => TokenKind::Less,
            Token::LessEqual => TokenKind::LessEqual,
            Token::Greater => TokenKind::Greater,
            Token::GreaterEqual => TokenKind::GreaterEqual,
            Token::AmpAmp => TokenKind::AmpAmp,
            Token::BarBar => TokenKind::BarBar,
            Token::LParen => TokenKind::LParen,
            Token::RParen => TokenKind::RParen,
            Token::LBrace => TokenKind::LBrace,
            Token::RBrace => TokenKind::RBrace,
            Token::LBracket => TokenKind::LBracket,
            Token::RBracket => TokenKind::RBracket,
            Token::Comma => TokenKind::Comma,
            Token::Colon => TokenKind::Colon,
            Token::Semi => TokenKind::Semi,
            Token::Dot => TokenKind::Dot,
            Token::DotDot => TokenKind::DotDot,
            Token::PathSep => TokenKind::PathSep,
            Token::Arrow => TokenKind::Arrow,
            Token::FatArrow => TokenKind::FatArrow,
            Token::Question => TokenKind::Question,
            Token::Eof => TokenKind::Eof,
            Token::Int(_) => TokenKind::Int,
            Token::Float(_) => TokenKind::Float,
            Token::String(_) => TokenKind::String,
            Token::Char(_) => TokenKind::Char,
            Token::Ident(_) => TokenKind::Ident,
        }
    }

    pub fn kind_of(&self) -> (r: TokenKind)
        ensures
            r == self.kind(),
    {
        match self {
            Token::Let => TokenKind::Let,
            Token::Mut => TokenKind::Mut,
            Token::Fn => TokenKind::Fn,
            Token::Struct => TokenKind::Struct,
            Token::Enum => TokenKind::Enum,
            Token::Import => TokenKind::Import,
            Token::Export => TokenKind::Export,
            Token::Return => TokenKind::Return,
            Token::Break => TokenKind::Break,
            Token::Continue => TokenKind::Continue,
            Token::If => TokenKind::If,
            Token::Elif => TokenKind::Elif,
            Token::Else => TokenKind::Else,
            Token::For => TokenKind::For,
            Token::In => TokenKind::In,
            Token::While => TokenKind::While,
            Token::Match => TokenKind::Match,
            Token::True => TokenKind::True,
            Token::False => TokenKind::False,
            Token::Plus => TokenKind::Plus,
            Token::Minus => TokenKind::Minus,
            Token::Star => TokenKind::Star,
            Token::Slash => TokenKind::Slash,
            Token::Percent => TokenKind::Percent,
            Token::Equal => TokenKind::Equal,
            Token::EqualEqual => TokenKind::EqualEqual,
            Token::BangEqual => TokenKind::BangEqual,
            Token::Bang => TokenKind::Bang,
            Token::Less => TokenKind::Less,
            Token::LessEqual => TokenKind::LessEqual,
            Token::Greater => TokenKind::Greater,
            Token::GreaterEqual => TokenKind::GreaterEqual,
            Token::AmpAmp => TokenKind::AmpAmp,
            Token::BarBar => TokenKind::BarBar,
            Token::LParen => TokenKind::LParen,
            Token::RParen => TokenKind::RParen,
            Token::LBrace => TokenKind::LBrace,
            Token::RBrace => TokenKind::RBrace,
            Token::LBracket => TokenKind::LBracket,
            Token::RBracket => TokenKind::RBracket,
            Token::Comma => TokenKind::Comma,
            Token::Colon => TokenKind::Colon,
            Token::Semi => TokenKind::Semi,
            Token::Dot => TokenKind::Dot,
            Token::DotDot => TokenKind::DotDot,
            Token::PathSep => TokenKind::PathSep,
            Token::Arrow => TokenKind::Arrow,
            Token::FatArrow => TokenKind::FatArrow,
            Token::Question => TokenKind::Question,
            Token::Eof => TokenKind::Eof,
            Token::Int(_) => TokenKind::Int,
            Token::Float(_) => TokenKind::Float,
            Token::String(_) => TokenKind::String,
            Token::Char(_) => TokenKind::Char,
            Token::Ident(_) => TokenKind::Ident,
        }
    }
}

/// How a token kind is written; literal and name tokens by their kind.
pub open spec fn kind_text(k: TokenKind) -> Seq<char> {
    match k {
        TokenKind::Let => "let"@,
        TokenKind::Mut => "mut"@,
        TokenKind::Fn => "fn"@,
        TokenKind::Struct => "struct"@,
        TokenKind::Enum => "enum"@,
        TokenKind::Import => "import"@,
        TokenKind::Export => "export"@,
        TokenKind::Return => "return"@,
        TokenKind::Break => "break"@,
        TokenKind::Continue => "continue"@,
        TokenKind::If => "if"@,
        TokenKind::Elif => "elif"@,
        TokenKind::Else => "else"@,
        TokenKind::For => "for"@,
        TokenKind::In => "in"@,
        TokenKind::While => "while"@,
        TokenKind::Match => "match"@,
        TokenKind::True => "true"@,
        TokenKind::False => "false"@,
        TokenKind::Plus => "+"@,
        TokenKind::Minus => "-"@,
        TokenKind::Star => "*"@,
        TokenKind::Slash => "/"@,
        TokenKind::Percent => "%"@,
        TokenKind::Equal => "="@,
        TokenKind::EqualEqual => "=="@,
        TokenKind::BangEqual => "!="@,
        TokenKind::Bang => "!"@,
        TokenKind::Less => "<"@,
        TokenKind::LessEqual => "<="@,
        TokenKind::Greater => ">"@,
        TokenKind::GreaterEqual => ">="@,
        TokenKind::AmpAmp => "&&"@,
        TokenKind::BarBar => "||"@,
        TokenKind::LParen => "("@,
        TokenKind::RParen => ")"@,
        TokenKind::LBrace => "{"@,
        TokenKind::RBrace => "}"@,
        TokenKind::LBracket => "["@,
        TokenKind::RBracket => "]"@,
        TokenKind::Comma => ","@,
        TokenKind::Colon => ":"@,
        TokenKind::Semi => ";"@,
        TokenKind::Dot => "."@,
        TokenKind::DotDot => ".."@,
        TokenKind::PathSep => "::"@,
        TokenKind::Arrow => "->"@,
        TokenKind::FatArrow => "=>"@,
        TokenKind::Question => "?"@,
        TokenKind::Eof => "end of input"@,
        TokenKind::Int => "integer"@,
        TokenKind::Float => "float"@,
        TokenKind::String => "string"@,
        TokenKind::Char => "char"@,
        TokenKind::Ident => "identifier"@,
    }
}

/// The text of a token kind.
pub fn kind_str(k: TokenKind) -> (r: &'static str)
    ensures
        r@ == kind_text(k),
{
    match k {
        TokenKind::Let => "let",
        TokenKind::Mut => "mut",
        TokenKind::Fn => "fn",
        TokenKind::Struct => "struct",
        TokenKind::Enum => "enum",
        TokenKind::Import => "import",
        TokenKind::Export => "export",
        TokenKind::Return => "return",
        TokenKind::Break => "break",
        TokenKind::Continue => "continue",
        TokenKind::If => "if",
        TokenKind::Elif => "elif",
        TokenKind::Else => "else",
        TokenKind::For => "for",
        TokenKind::In => "in",
        TokenKind::While => "while",
        TokenKind::Match => "match",
        TokenKind::True => "true",
        TokenKind::False => "false",
        TokenKind::Plus => "+",
        TokenKind::Minus => "-",
        TokenKind::Star => "*",
        TokenKind::Slash => "/",
        TokenKind::Percent => "%",
        TokenKind::Equal => "=",
        TokenKind::EqualEqual => "==",
        TokenKind::BangEqual => "!=",
        TokenKind::Bang => "!",
        TokenKind::Less => "<",
        TokenKind::LessEqual => "<=",
        TokenKind::Greater => ">",
        TokenKind::GreaterEqual => ">=",
        TokenKind::AmpAmp => "&&",
        TokenKind::BarBar => "||",
        TokenKind::LParen => "(",
        TokenKind::RParen => ")",
        TokenKind::LBrace => "{",
        TokenKind::RBrace => "}",
        TokenKind::LBracket => "[",
        TokenKind::RBracket => "]",
        TokenKind::Comma => ",",
        TokenKind::Colon => ":",
        TokenKind::Semi => ";",
        TokenKind::Dot => ".",
        TokenKind::DotDot => "..",
        TokenKind::PathSep => "::",
        TokenKind::Arrow => "->",
        TokenKind::FatArrow => "=>",
        TokenKind::Question => "?",
        TokenKind::Eof => "end of input",
        TokenKind::Int => "integer",
        TokenKind::Float => "float",
        TokenKind::String => "string",
        TokenKind::Char => "char",
        TokenKind::Ident => "identifier",
    }
}

} // verus!
