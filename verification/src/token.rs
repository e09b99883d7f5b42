//! The alphabet of lexical symbols.

use vstd::prelude::*;

verus! {

/// The kind of a lexical symbol.
#[derive(Debug, PartialEq, Eq, Clone, Copy, Structural)]
pub enum TokenKind {
    String,
    Let,
    Function,
    True,
    False,
    If,
    Else,
    Return,
    Illegal,
    Eof,
    Ident,
    Int,
    Comma,
    Semicolon,
    Lparen,
    Rparen,
    Lbrace,
    Rbrace,
    Assign,
    Plus,
    Minus,
    Bang,
    Asterisk,
    Slash,
    Lt,
    Gt,
    Eq,
    NotEq,
}

/// The mathematical value of a token: its kind and the characters it was
/// scanned from.
pub struct TokenModel {
    pub kind: TokenKind,
    pub val: Seq<char>,
}

/// A lexical symbol together with the exact source text it was scanned from.
#[derive(Debug)]
pub struct Token {
    pub kind: TokenKind,
    pub val: String,
}

impl View for Token {
    type V = TokenModel;

    open spec fn view(&self) -> TokenModel {
        TokenModel { kind: self.kind, val: self.val@ }
    }
}

impl Clone for Token {
    fn clone(&self) -> (res: Self)
        ensures
            res@ == self@,
    {
        Token { kind: self.kind, val: self.val.clone() }
    }
}

impl PartialEq for Token {
    fn eq(&self, other: &Self) -> (res: bool) {
        self.kind == other.kind && self.val == other.val
    }
}

impl Eq for Token {}

impl vstd::std_specs::cmp::PartialEqSpecImpl for Token {
    open spec fn obeys_eq_spec() -> bool {
        true
    }

    open spec fn eq_spec(&self, other: &Self) -> bool {
        self.kind == other.kind && self.val@ == other.val@
    }
}

} // verus!
