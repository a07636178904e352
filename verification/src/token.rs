//! The coarse lexical units handed from the lexer to the parser. A token is
//! nothing but its tag: the lexer never materializes literal substrings, it
//! classifies the boundary character and leaves content-aware consumption
//! (string bodies, numeric text) to the parser, which reads the shared cursor
//! directly.

use vstd::prelude::*;

verus! {

/// The JSON tokens.
#[derive(Debug, Clone, Copy, PartialEq, Eq, Structural)]
pub enum TokenType {
    /// `{`
    Lbrace,
    /// `}`
    Rbrace,
    /// `[`
    LSqBracket,
    /// `]`
    RSqbracket,
    /// `,`
    Comma,
    /// `"`, the string delimiter; the string body follows on the cursor.
    Str,
    /// `:`
    Colon,
    /// Marker for a character a caller wants to flag as invalid; the lexer
    /// itself classifies every character and never produces it.
    InvalidChar(char),
    /// Any single character that is not structural and not a decimal digit;
    /// carries the character itself for keyword and sign dispatch. Consumed
    /// from the cursor when the token is produced.
    Character(char),
    /// A decimal digit. The digit is left on the cursor so that the parser
    /// can read the full numeric text, leading digit included.
    Digit,
}

/// Represents a distinct token in JSON.
/// The token is identified by its `TokenType`.
#[derive(Debug, Clone, Copy, PartialEq, Eq, Structural)]
pub struct Token {
    pub token_type: TokenType,
}

} // verus!
