//! The lexer: owner of the input cursor. It turns a character sequence into a
//! pull-based token stream, skipping runs of the four JSON whitespace
//! characters and classifying the next character, while tracking the current
//! 1-based line number for diagnostics.
//!
//! The behaviour of every operation is pinned down against the spec functions
//! below: `skip_ws_idx` (where a maximal whitespace run ends), `line_at` (the
//! line number at a cursor position) and `spec_next_token` (which token comes
//! next and where the cursor lands).

use vstd::prelude::*;
use vstd::string::StrSliceExecFns;

use crate::errors::{ErrorKind, JsonError};
use crate::token::{Token, TokenType};

verus! {

/// The whitespace characters allowed in JSON according to
/// the IETF JSON standard (RFC 8259): space, horizontal tab,
/// line feed and carriage return.
pub open spec fn is_ws(c: char) -> bool {
    c == ' ' || c == '\t' || c == '\n' || c == '\r'
}

/// A decimal digit.
pub open spec fn is_digit(c: char) -> bool {
    '0' <= c && c <= '9'
}

/// A character the numeric scanner accumulates: a digit or one of the two
/// constraint characters `-` and `.`.
pub open spec fn is_num_char(c: char) -> bool {
    is_digit(c) || c == '-' || c == '.'
}

/// How many line feeds occur among the first `i` characters of `s`.
pub open spec fn newline_count(s: Seq<char>, i: int) -> int
    decreases i,
{
    if i <= 0 {
        0
    } else {
        newline_count(s, i - 1) + if s[i - 1] == '\n' {
            1int
        } else {
            0int
        }
    }
}

/// The 1-based line number of the character at position `i`: one more than
/// the number of line feeds already consumed.
pub open spec fn line_at(s: Seq<char>, i: int) -> int {
    1 + newline_count(s, i)
}

/// The first position at or after `pos` that does not hold a whitespace
/// character (the input length if whitespace runs to the end).
pub open spec fn skip_ws_idx(s: Seq<char>, pos: int) -> int
    decreases s.len() - pos,
{
    if pos < s.len() && 0 <= pos && is_ws(s[pos]) {
        skip_ws_idx(s, pos + 1)
    } else {
        pos
    }
}

/// The first position at or after `pos` that does not hold a numeric
/// character (digit, `-` or `.`); the end of the numeric text.
pub open spec fn num_end(s: Seq<char>, pos: int) -> int
    decreases s.len() - pos,
{
    if pos < s.len() && 0 <= pos && is_num_char(s[pos]) {
        num_end(s, pos + 1)
    } else {
        pos
    }
}

/// The newline count never exceeds the number of characters counted.
pub proof fn lemma_newline_count_bounds(s: Seq<char>, i: int)
    requires
        0 <= i,
    ensures
        0 <= newline_count(s, i) <= i,
    decreases i,
{
    if i > 0 {
        lemma_newline_count_bounds(s, i - 1);
    }
}

/// What `skip_ws_idx` returns: the end of the maximal whitespace run that
/// starts at `pos`.
pub proof fn lemma_skip_ws_idx(s: Seq<char>, pos: int)
    requires
        0 <= pos <= s.len(),
    ensures
        pos <= skip_ws_idx(s, pos) <= s.len(),
        forall|i: int| pos <= i < skip_ws_idx(s, pos) ==> is_ws(#[trigger] s[i]),
        skip_ws_idx(s, pos) < s.len() ==> !is_ws(s[skip_ws_idx(s, pos)]),
    decreases s.len() - pos,
{
    if pos < s.len() && is_ws(s[pos]) {
        lemma_skip_ws_idx(s, pos + 1);
    }
}

/// The outcome of one `next_token` call: the token produced (none at end of
/// input) and the cursor position afterwards.
pub struct LexStep {
    pub tok: Option<Token>,
    pub pos: int,
}

/// What `next_token` does: skip the maximal whitespace run, then classify
/// the next character. Structural characters and the double quote are
/// consumed and mapped to their dedicated tokens; a digit is left on the
/// cursor and mapped to `Digit`; any other character is consumed and carried
/// in a `Character` token.
pub open spec fn spec_next_token(s: Seq<char>, pos: int) -> LexStep {
    let p = skip_ws_idx(s, pos);
    if p >= s.len() {
        LexStep { tok: None, pos: p }
    } else {
        let c = s[p];
        if c == '{' {
            LexStep { tok: Some(Token { token_type: TokenType::Lbrace }), pos: p + 1 }
        } else if c == '}' {
            LexStep { tok: Some(Token { token_type: TokenType::Rbrace }), pos: p + 1 }
        } else if c == '[' {
            LexStep { tok: Some(Token { token_type: TokenType::LSqBracket }), pos: p + 1 }
        } else if c == ']' {
            LexStep { tok: Some(Token { token_type: TokenType::RSqbracket }), pos: p + 1 }
        } else if c == ':' {
            LexStep { tok: Some(Token { token_type: TokenType::Colon }), pos: p + 1 }
        } else if c == ',' {
            LexStep { tok: Some(Token { token_type: TokenType::Comma }), pos: p + 1 }
        } else if c == '"' {
            LexStep { tok: Some(Token { token_type: TokenType::Str }), pos: p + 1 }
        } else if is_digit(c) {
            LexStep { tok: Some(Token { token_type: TokenType::Digit }), pos: p }
        } else {
            LexStep { tok: Some(Token { token_type: TokenType::Character(c) }), pos: p + 1 }
        }
    }
}

/// What well-formedness guarantees every caller of a `Lexer` may rely on:
/// the cursor stays within the input (or one past its end) and the input
/// length leaves room for the cursor and the line counter.
pub broadcast proof fn lemma_lexer_bounds(l: &Lexer)
    requires
        l.wf(),
    ensures
        0 <= #[trigger] l.pos() <= l.input().len(),
        l.input().len() < usize::MAX,
{
}

/// The input cursor: the characters of the input, the current position and
/// the current 1-based line number.
#[derive(Debug)]
pub struct Lexer {
    chars: Vec<char>,
    pos: usize,
    line: usize,
}

impl Lexer {
    /// The whole input, as the sequence of its characters.
    pub closed spec fn input(&self) -> Seq<char> {
        self.chars@
    }

    /// The current cursor position.
    pub closed spec fn pos(&self) -> int {
        self.pos as int
    }

    /// Well-formed: the cursor is inside the input (or one past its end) and
    /// the line counter agrees with the number of line feeds consumed.
    pub closed spec fn wf(&self) -> bool {
        &&& self.pos <= self.chars.len()
        &&& self.chars.len() < usize::MAX
        &&& self.line as int == line_at(self.chars@, self.pos as int)
    }

    /// Initializes a new lexer with the given input; rejects empty input.
    pub fn new(input: &str) -> (r: Result<Self, JsonError>)
        requires
            input@.len() < usize::MAX,
        ensures
            match r {
                Ok(l) => {
                    &&& input@.len() > 0
                    &&& l.wf()
                    &&& l.input() == input@
                    &&& l.pos() == 0
                },
                Err(e) => {
                    &&& input@.len() == 0
                    &&& e.kind == ErrorKind::EmptyInput
                    &&& e.line is None
                },
            },
    {
        let n = input.unicode_len();
        if n == 0 {
            return Err(JsonError::compose(ErrorKind::EmptyInput, None));
        }
        let mut chars: Vec<char> = Vec::new();
        let mut i: usize = 0;
        while i < n
            invariant
                i <= n,
                n == input@.len() < usize::MAX,
                chars@ =~= input@.subrange(0, i as int),
            decreases n - i,
        {
            chars.push(input.get_char(i));
            i = i + 1;
        }
        proof {
            assert(chars@ =~= input@);
        }
        Ok(Lexer { chars, pos: 0, line: 1 })
    }

    /// The line the cursor currently stands on.
    pub fn current_line(&self) -> (n: usize)
        requires
            self.wf(),
        ensures
            n as int == line_at(self.input(), self.pos()),
    {
        self.line
    }

    /// Peeks at the next character of the input.
    pub(crate) fn peek(&self) -> (r: Option<char>)
        requires
            self.wf(),
        ensures
            r == (if self.pos() < self.input().len() {
                Some(self.input()[self.pos()])
            } else {
                None::<char>
            }),
    {
        if self.pos < self.chars.len() {
            Some(self.chars[self.pos])
        } else {
            None
        }
    }

    /// Consumes and returns the next character, counting the line feeds that
    /// go by.
    pub(crate) fn advance(&mut self) -> (r: Option<char>)
        requires
            old(self).wf(),
        ensures
            final (self).wf(),
            final (self).input() == old(self).input(),
            if old(self).pos() < old(self).input().len() {
                &&& r == Some(old(self).input()[old(self).pos()])
                &&& final (self).pos() == old(self).pos() + 1
            } else {
                &&& r is None
                &&& final (self).pos() == old(self).pos()
            },
    {
        if self.pos < self.chars.len() {
            let c = self.chars[self.pos];
            proof {
                lemma_newline_count_bounds(self.chars@, self.pos as int);
            }
            self.pos = self.pos + 1;
            if c == '\n' {
                self.line = self.line + 1;
            }
            Some(c)
        } else {
            None
        }
    }

    /// Consumes the maximal run of JSON whitespace at the cursor.
    pub(crate) fn skip_whitespace(&mut self)
        requires
            old(self).wf(),
        ensures
            final (self).wf(),
            final (self).input() == old(self).input(),
            final (self).pos() == skip_ws_idx(old(self).input(), old(self).pos()),
    {
        loop
            invariant
                self.wf(),
                self.input() == old(self).input(),
                skip_ws_idx(self.input(), self.pos()) == skip_ws_idx(
                    old(self).input(),
                    old(self).pos(),
                ),
            decreases self.input().len() - self.pos(),
        {
            match self.peek() {
                Some(c) => {
                    if c == ' ' || c == '\t' || c == '\n' || c == '\r' {
                        self.advance();
                    } else {
                        return ;
                    }
                },
                None => {
                    return ;
                },
            }
        }
    }

    /// Produces the next token, as `spec_next_token` describes.
    pub fn next_token(&mut self) -> (t: Option<Token>)
        requires
            old(self).wf(),
        ensures
            final (self).wf(),
            final (self).input() == old(self).input(),
            ({
                let st = spec_next_token(old(self).input(), old(self).pos());
                t == st.tok && final (self).pos() == st.pos
            }),
    {
        self.skip_whitespace();
        match self.peek() {
            None => None,
            Some(c) => {
                if c == '{' {
                    self.advance();
                    Some(Token { token_type: TokenType::Lbrace })
                } else if c == '}' {
                    self.advance();
                    Some(Token { token_type: TokenType::Rbrace })
                } else if c == '[' {
                    self.advance();
                    Some(Token { token_type: TokenType::LSqBracket })
                } else if c == ']' {
                    self.advance();
                    Some(Token { token_type: TokenType::RSqbracket })
                } else if c == ':' {
                    self.advance();
                    Some(Token { token_type: TokenType::Colon })
                } else if c == ',' {
                    self.advance();
                    Some(Token { token_type: TokenType::Comma })
                } else if c == '"' {
                    self.advance();
                    Some(Token { token_type: TokenType::Str })
                } else if '0' <= c && c <= '9' {
                    Some(Token { token_type: TokenType::Digit })
                } else {
                    self.advance();
                    Some(Token { token_type: TokenType::Character(c) })
                }
            },
        }
    }
}

} // verus!
