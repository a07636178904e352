//! The error taxonomy of the parser: a kind describing the first grammar
//! violation found, paired with the 1-based source line on which it occurred.
//! The line is absent only when the failure happens before any input is read
//! (empty input at construction).

use vstd::prelude::*;
use vstd::string::StringExecFns;

use crate::token::TokenType;

verus! {

/// What went wrong. Each variant corresponds to one grammar violation; the
/// conditions under which each is produced are pinned down by the contracts
/// of the parsing functions.
#[derive(Debug, Clone, Copy, PartialEq, Eq, Structural)]
pub enum ErrorKind {
    /// The token sequence matches no grammar production.
    InvalidSyntax,
    /// An object member key was not followed by `:`.
    MissingColon,
    /// An object member key was not a string.
    ObjectKeyNotString,
    /// A comma immediately followed by a closing delimiter.
    TrailingComma,
    /// Legacy marker for "expected curly brace or comma" exhaustion; the
    /// parser itself reports `UnclosedDelimiter` on those paths.
    UnexpectedEof,
    /// The input text had zero length at construction.
    EmptyInput,
    /// A value was expected but the token stream was exhausted.
    Eof,
    /// A comma, or an opening bracket, immediately followed by a comma
    /// inside an array.
    MissingValue,
    /// The input was exhausted before the named closing delimiter arrived.
    UnclosedDelimiter(TokenType),
    /// Object/array nesting exceeded the fixed maximum depth.
    NestingTooDeep,
    /// A numeric token whose first digit is `0`. Stricter than RFC 8259,
    /// which permits a lone `0`: here every such token is rejected.
    NumberWithLeadingZero,
    /// A double-backslash sequence inside a string.
    InvalidBackslashEscape,
    /// A bare `'` where a value was expected.
    SingleQuote,
    /// Marker for a stricter mode in which the root value must be an object
    /// or an array; `parse_root` itself does not enforce it.
    NotObjectOrArray,
    /// The accumulated numeric text does not denote a decimal number.
    ParseNumberError,
}

/// An error outcome: the kind of the first violation and the line it was
/// found on, or `None` for failures before any input was consumed.
#[derive(Debug, Clone, PartialEq, Eq)]
pub struct JsonError {
    pub kind: ErrorKind,
    pub line: Option<usize>,
}

impl JsonError {
    /// Compose an error
    pub(crate) fn compose(kind: ErrorKind, line: Option<usize>) -> (e: Self)
        ensures
            e.kind == kind,
            e.line == line,
    {
        JsonError { kind, line }
    }

    /// The fixed human-readable message for this error's kind.
    pub fn message(&self) -> (m: String)
        ensures
            m@ == kind_message(self.kind)@,
    {
        match self.kind {
            ErrorKind::UnexpectedEof => String::from_str("expected curly brace or comma"),
            ErrorKind::InvalidSyntax => String::from_str("invalid syntax"),
            ErrorKind::MissingColon => String::from_str("expected colon"),
            ErrorKind::ObjectKeyNotString => String::from_str("object key must be string"),
            ErrorKind::TrailingComma => String::from_str("trailing comma"),
            ErrorKind::Eof => String::from_str("end of input"),
            ErrorKind::EmptyInput => String::from_str("empty input"),
            ErrorKind::MissingValue => String::from_str("missing value"),
            ErrorKind::UnclosedDelimiter(TokenType::RSqbracket) => String::from_str(
                "expected square bracket or comma",
            ),
            ErrorKind::UnclosedDelimiter(_) => String::from_str("expected curly brace or comma"),
            ErrorKind::NestingTooDeep => String::from_str("nesting too deep"),
            ErrorKind::NumberWithLeadingZero => String::from_str("number with leading zero"),
            ErrorKind::InvalidBackslashEscape => String::from_str("invalid backslash escape"),
            ErrorKind::SingleQuote => String::from_str("single quote"),
            ErrorKind::NotObjectOrArray => String::from_str("root value must be object or array"),
            ErrorKind::ParseNumberError => String::from_str("failed to parse number"),
        }
    }

    /// The display form of this error: `error at line {N}: {message}` when
    /// the line is known, else `error: {message}`.
    pub fn display_string(&self) -> (m: String)
        ensures
            m@ == error_display(*self),
    {
        match self.line {
            Some(l) => {
                let mut m = String::from_str("error at line ");
                let num = dec_string(l);
                m.append(num.as_str());
                m.append(": ");
                let msg = self.message();
                m.append(msg.as_str());
                m
            },
            None => {
                let mut m = String::from_str("error: ");
                let msg = self.message();
                m.append(msg.as_str());
                m
            },
        }
    }
}

/// The one-character string for one decimal digit.
fn digit_str(d: usize) -> (r: &'static str)
    requires
        d < 10,
    ensures
        r@ == seq![dec_digit(d as int)],
{
    if d == 0 {
        proof {
            reveal_strlit("0");
            assert("0"@ =~= seq!['0']);
        }
        "0"
    } else if d == 1 {
        proof {
            reveal_strlit("1");
            assert("1"@ =~= seq!['1']);
        }
        "1"
    } else if d == 2 {
        proof {
            reveal_strlit("2");
            assert("2"@ =~= seq!['2']);
        }
        "2"
    } else if d == 3 {
        proof {
            reveal_strlit("3");
            assert("3"@ =~= seq!['3']);
        }
        "3"
    } else if d == 4 {
        proof {
            reveal_strlit("4");
            assert("4"@ =~= seq!['4']);
        }
        "4"
    } else if d == 5 {
        proof {
            reveal_strlit("5");
            assert("5"@ =~= seq!['5']);
        }
        "5"
    } else if d == 6 {
        proof {
            reveal_strlit("6");
            assert("6"@ =~= seq!['6']);
        }
        "6"
    } else if d == 7 {
        proof {
            reveal_strlit("7");
            assert("7"@ =~= seq!['7']);
        }
        "7"
    } else if d == 8 {
        proof {
            reveal_strlit("8");
            assert("8"@ =~= seq!['8']);
        }
        "8"
    } else {
        proof {
            reveal_strlit("9");
            assert("9"@ =~= seq!['9']);
        }
        "9"
    }
}

/// Render a number in decimal, most significant digit first.
fn dec_string(n: usize) -> (s: String)
    ensures
        s@ == dec_str(n as int),
    decreases n,
{
    if n < 10 {
        String::from_str(digit_str(n))
    } else {
        let high = dec_string(n / 10);
        high.concat(digit_str(n % 10))
    }
}

/// The digit character for one decimal digit.
pub open spec fn dec_digit(d: int) -> char {
    if d == 0 {
        '0'
    } else if d == 1 {
        '1'
    } else if d == 2 {
        '2'
    } else if d == 3 {
        '3'
    } else if d == 4 {
        '4'
    } else if d == 5 {
        '5'
    } else if d == 6 {
        '6'
    } else if d == 7 {
        '7'
    } else if d == 8 {
        '8'
    } else {
        '9'
    }
}

/// The decimal rendering of a number, most significant digit first.
pub open spec fn dec_str(n: int) -> Seq<char>
    decreases n,
{
    if n < 10 {
        seq![dec_digit(n)]
    } else {
        dec_str(n / 10) + seq![dec_digit(n % 10)]
    }
}

/// The display form of an error: its kind's message, prefixed with the
/// 1-based line it was found on when one is known.
pub open spec fn error_display(e: JsonError) -> Seq<char> {
    match e.line {
        Some(l) => "error at line "@ + dec_str(l as int) + ": "@ + kind_message(e.kind)@,
        None => "error: "@ + kind_message(e.kind)@,
    }
}

/// The message text associated with each error kind.
pub open spec fn kind_message(kind: ErrorKind) -> &'static str {
    match kind {
        ErrorKind::UnexpectedEof => "expected curly brace or comma",
        ErrorKind::InvalidSyntax => "invalid syntax",
        ErrorKind::MissingColon => "expected colon",
        ErrorKind::ObjectKeyNotString => "object key must be string",
        ErrorKind::TrailingComma => "trailing comma",
        ErrorKind::Eof => "end of input",
        ErrorKind::EmptyInput => "empty input",
        ErrorKind::MissingValue => "missing value",
        ErrorKind::UnclosedDelimiter(TokenType::RSqbracket) => "expected square bracket or comma",
        ErrorKind::UnclosedDelimiter(_) => "expected curly brace or comma",
        ErrorKind::NestingTooDeep => "nesting too deep",
        ErrorKind::NumberWithLeadingZero => "number with leading zero",
        ErrorKind::InvalidBackslashEscape => "invalid backslash escape",
        ErrorKind::SingleQuote => "single quote",
        ErrorKind::NotObjectOrArray => "root value must be object or array",
        ErrorKind::ParseNumberError => "failed to parse number",
    }
}

} // verus!
