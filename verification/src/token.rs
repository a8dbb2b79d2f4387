use vstd::prelude::*;

verus! {

/// A lexical token of the language, as produced by the lexer.
///
/// `Whitespace` tokens are kept in the stream; the parsers skip them
/// where the grammar allows padding.
#[derive(Clone, Debug, PartialEq, Eq)]
pub enum Token {
    Var(String),
    Nat(u64),
    Whitespace,
    Int,
    Bool,
    Ref,
    Loc,
    True,
    False,
    Comma,
    LessThan,
    GreaterThan,
    LSqBra,
    RSqBra,
    LParen,
    RParen,
    Multiply,
    Divide,
    Plus,
    Minus,
    Sizeof,
    Equals,
    Bang,
    And,
    Amp,
    Mut,
    Skip,
    Let,
    Colon,
    Alloc,
    Free,
    While,
    Do,
    If,
    Then,
    Else,
    Semicolon,
}

/// The kind of a token: the token with its payload dropped.
#[derive(Clone, Copy, Debug, PartialEq, Eq, Structural)]
pub enum TokenKind {
    Var,
    Nat,
    Whitespace,
    Int,
    Bool,
    Ref,
    Loc,
    True,
    False,
    Comma,
    LessThan,
    GreaterThan,
    LSqBra,
    RSqBra,
    LParen,
    RParen,
    Multiply,
    Divide,
    Plus,
    Minus,
    Sizeof,
    Equals,
    Bang,
    And,
    Amp,
    Mut,
    Skip,
    Let,
    Colon,
    Alloc,
    Free,
    While,
    Do,
    If,
    Then,
    Else,
    Semicolon,
}

/// The kind of `t`.
pub open spec fn kind_of(t: Token) -> TokenKind {
    match t {
        Token::Var(_) => TokenKind::Var,
        Token::Nat(_) => TokenKind::Nat,
        Token::Whitespace => TokenKind::Whitespace,
        Token::Int => TokenKind::Int,
        Token::Bool => TokenKind::Bool,
        Token::Ref => TokenKind::Ref,
        Token::Loc => TokenKind::Loc,
        Token::True => TokenKind::True,
        Token::False => TokenKind::False,
        Token::Comma => TokenKind::Comma,
        Token::LessThan => TokenKind::LessThan,
        Token::GreaterThan => TokenKind::GreaterThan,
        Token::LSqBra => TokenKind::LSqBra,
        Token::RSqBra => TokenKind::RSqBra,
        Token::LParen => TokenKind::LParen,
        Token::RParen => TokenKind::RParen,
        Token::Multiply => TokenKind::Multiply,
        Token::Divide => TokenKind::Divide,
        Token::Plus => TokenKind::Plus,
        Token::Minus => TokenKind::Minus,
        Token::Sizeof => TokenKind::Sizeof,
        Token::Equals => TokenKind::Equals,
        Token::Bang => TokenKind::Bang,
        Token::And => TokenKind::And,
        Token::Amp => TokenKind::Amp,
        Token::Mut => TokenKind::Mut,
        Token::Skip => TokenKind::Skip,
        Token::Let => TokenKind::Let,
        Token::Colon => TokenKind::Colon,
        Token::Alloc => TokenKind::Alloc,
        Token::Free => TokenKind::Free,
        Token::While => TokenKind::While,
        Token::Do => TokenKind::Do,
        Token::If => TokenKind::If,
        Token::Then => TokenKind::Then,
        Token::Else => TokenKind::Else,
        Token::Semicolon => TokenKind::Semicolon,
    }
}

impl Token {
    /// The kind of this token.
    pub fn kind(&self) -> (k: TokenKind)
        ensures
            k == kind_of(*self),
    {
        match self {
            Token::Var(_) => TokenKind::Var,
            Token::Nat(_) => TokenKind::Nat,
            Token::Whitespace => TokenKind::Whitespace,
            Token::Int => TokenKind::Int,
            Token::Bool => TokenKind::Bool,
            Token::Ref => TokenKind::Ref,
            Token::Loc => TokenKind::Loc,
            Token::True => TokenKind::True,
            Token::False => TokenKind::False,
            Token::Comma => TokenKind::Comma,
            Token::LessThan => TokenKind::LessThan,
            Token::GreaterThan => TokenKind::GreaterThan,
            Token::LSqBra => TokenKind::LSqBra,
            Token::RSqBra => TokenKind::RSqBra,
            Token::LParen => TokenKind::LParen,
            Token::RParen => TokenKind::RParen,
            Token::Multiply => TokenKind::Multiply,
            Token::Divide => TokenKind::Divide,
            Token::Plus => TokenKind::Plus,
            Token::Minus => TokenKind::Minus,
            Token::Sizeof => TokenKind::Sizeof,
            Token::Equals => TokenKind::Equals,
            Token::Bang => TokenKind::Bang,
            Token::And => TokenKind::And,
            Token::Amp => TokenKind::Amp,
            Token::Mut => TokenKind::Mut,
            Token::Skip => TokenKind::Skip,
            Token::Let => TokenKind::Let,
            Token::Colon => TokenKind::Colon,
            Token::Alloc => TokenKind::Alloc,
            Token::Free => TokenKind::Free,
            Token::While => TokenKind::While,
            Token::Do => TokenKind::Do,
            Token::If => TokenKind::If,
            Token::Then => TokenKind::Then,
            Token::Else => TokenKind::Else,
            Token::Semicolon => TokenKind::Semicolon,
        }
    }
}

} // verus!
