//! A small JSON text parser: a lexer that classifies single characters into
//! coarse tokens, and a recursive-descent parser that builds a value tree or
//! reports the first grammar violation together with the source line on which
//! it occurred.
//!
//! The dialect accepted here is deliberately narrow in a few documented ways:
//! numeric tokens are kept as their source text (no floating-point conversion
//! happens in this crate), a numeric token whose first digit is `0` is
//! rejected, exponent notation is not part of the numeric alphabet, and the
//! only escape-sequence check inside strings is the rejection of a double
//! backslash.

pub mod errors;
pub mod laws;
pub mod lexer;
pub mod model;
pub mod parser;
pub mod token;

pub use parser::Parser;
