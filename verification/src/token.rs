use vstd::prelude::*;

use crate::object::literal_model;
use crate::object::Object;
use crate::object::ObjectModel;
use crate::token_type::TokenType;

verus! {

/// One classified token: its kind, the exact source lexeme, the literal
/// value (present only for string and number tokens), and the 1-based line
/// on which the scan finished the lexeme. A token is created once by the
/// scanner and never mutated; the lexeme is an owned copy, so the token does
/// not borrow from the source buffer.
#[derive(Debug, Clone, PartialEq)]
pub struct Token {
    pub typ: TokenType,
    pub lexeme: String,
    pub literal: Option<Object>,
    pub line: usize,
}

/// The mathematical view of a `Token`.
#[verifier::ext_equal]
pub struct TokenModel {
    pub kind: TokenType,
    pub lexeme: Seq<char>,
    pub literal: Option<ObjectModel>,
    pub line: int,
}

impl View for Token {
    type V = TokenModel;

    open spec fn view(&self) -> TokenModel {
        TokenModel {
            kind: self.typ,
            lexeme: self.lexeme@,
            literal: literal_model(self.literal),
            line: self.line as int,
        }
    }
}

impl Token {
    /// Builds a token record from its four parts.
    pub fn new(typ: TokenType, lexeme: String, literal: Option<Object>, line: usize) -> (t: Token)
        ensures
            t == (Token { typ, lexeme, literal, line }),
    {
        Token { typ, lexeme, literal, line }
    }
}

} // verus!
