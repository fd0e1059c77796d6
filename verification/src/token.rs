//! Tokens: immutable views into the source text.

use vstd::prelude::*;

use crate::token_type::TokenType;

verus! {

/// A source line number.
pub type LineNo = u16;

/// A token: its source line, the exact source substring it was derived from
/// (the lexeme), and its kind. It borrows from the source text and never
/// outlives it.
#[derive(Debug, Copy, Clone)]
pub struct Token<'a> {
    pub line: LineNo,
    pub content: &'a str,
    pub token_type: TokenType,
}

/// The mathematical shape of a token: the lexeme as a character sequence.
pub ghost struct TokenView {
    pub line: LineNo,
    pub content: Seq<char>,
    pub token_type: TokenType,
}

impl<'a> View for Token<'a> {
    type V = TokenView;

    open spec fn view(&self) -> TokenView {
        TokenView { line: self.line, content: self.content@, token_type: self.token_type }
    }
}

} // verus!
