use vstd::prelude::*;

verus! {

/// Operator tokens, as the scanner classifies them.
#[derive(Debug, Clone, Copy, PartialEq, Eq)]
pub enum BinOpToken {
    Plus,
    Minus,
    Star,
    Eq,
    Ne,
    Lt,
    Gt,
}

/// What a token is.
#[derive(Debug, Clone, PartialEq, Eq)]
pub enum TokenKind {
    NumLit(u64),
    Ident(String),
    True,
    False,
    If,
    Else,
    Return,
    OpenParen,
    CloseParen,
    OpenBrace,
    CloseBrace,
    Comma,
    /// The assignment sign `=`.
    Eq,
    BinOp(BinOpToken),
    /// The end-of-stream marker that closes every token stream.
    Eof,
}

/// One lexical unit handed over by the scanner.
#[derive(Debug, Clone, PartialEq, Eq)]
pub struct Token {
    pub kind: TokenKind,
}

impl Token {
    pub fn new(kind: TokenKind) -> (r: Token)
        ensures
            r.kind == kind,
    {
        Token { kind }
    }
}

} // verus!
