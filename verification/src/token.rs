//! The shared token model: the tokenizer produces a sequence of `Token`s and
//! the assembler consumes it.  A token is a kind plus a textual payload.

use vstd::prelude::*;

verus! {

/// The kind of a token.  The assembler lowers each kind differently; the
/// kinds past `REGISTER` belong to the high-level front end, which hands the
/// assembler only the first five.
#[allow(non_camel_case_types)]
#[derive(Debug, Clone, Copy, PartialEq, Eq, Structural)]
pub enum TokenType {
    INSTRUCTION,
    LABEL,
    INTEGER,
    STRING,
    REGISTER,
    METHOD,
    VARIABLE_DECL,
    VARIABLE,
    INCLUDE,
    CHAR,
}

/// A token: a kind together with its textual payload.
#[derive(Debug)]
pub struct Token {
    pub token_t: TokenType,
    pub data: String,
}

/// The mathematical value of a token: its kind and the payload's characters.
pub struct TokenModel {
    pub token_t: TokenType,
    pub data: Seq<char>,
}

impl View for Token {
    type V = TokenModel;

    open spec fn view(&self) -> TokenModel {
        TokenModel { token_t: self.token_t, data: self.data@ }
    }
}

/// Relies on `core::iter::Iterator::collect` for `String`: collecting
/// characters yields the string of exactly those characters in order.
#[verifier::external_body]
pub fn chars_to_string(v: &Vec<char>) -> (r: String)
    ensures
        r@ == v@,
{
    v.iter().collect()
}

impl Token {
    pub fn new(t: TokenType, d: String) -> (r: Self)
        ensures
            r@.token_t == t,
            r@.data == d@,
    {
        Token { token_t: t, data: d }
    }
}

} // verus!
