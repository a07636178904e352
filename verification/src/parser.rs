//! The parser: one recursive function per grammar production, driving the
//! lexer's token stream and building a `JsonValue` tree bottom-up, or
//! failing fast with the first grammar violation and the line it was found
//! on. Every function's contract equates its outcome with the corresponding
//! `spec_parse_*` reference function of `crate::model`.

use vstd::prelude::*;
use vstd::string::StrSliceExecFns;

use crate::errors::{ErrorKind, JsonError};
use crate::lexer::{is_digit, line_at, num_end, Lexer};
use crate::model::{
    char_count, find_key, is_decimal_literal, lemma_find_key, lemma_text_prefix_nil,
    lemma_text_prefix_step, spec_check, spec_number_prefix, spec_parse_array, spec_parse_elements,
    spec_parse_keyword, spec_parse_members, spec_parse_number, spec_parse_object,
    spec_parse_root_at, spec_parse_text, spec_parse_value, spec_read_keyword, text_with_prefix,
    upsert, ParseStep, ValueModel,
};
use crate::token::TokenType;

verus! {

broadcast use crate::lexer::lemma_lexer_bounds;

/// Relies on `String::push`: appends the given character to the end of the
/// string.
#[verifier::external_body]
fn push_char(s: &mut String, c: char)
    ensures
        final (s)@ == old(s)@.push(c),
{
    s.push(c);
}

/// A JSON value.
///
/// A value in JSON can be one of the following types:
/// 1. A string in double quotes
/// 2. A number, kept as its validated source text
/// 3. A boolean
/// 4. A null
/// 5. An object
/// 6. An array
///
/// An object is kept as its members in the order they were first written,
/// keys unique; an array as its elements in source order. A number is kept
/// as the text the parser validated; turning it into a machine float is the
/// caller's concern and no part of this crate.
#[derive(Debug, PartialEq)]
pub enum JsonValue {
    Object(Vec<(String, JsonValue)>),
    String(String),
    Boolean(bool),
    Number(String),
    Null,
    Array(Vec<JsonValue>),
}

impl JsonValue {
    /// The abstract value this tree stands for.
    pub open spec fn model(self) -> ValueModel
        decreases self,
    {
        match self {
            JsonValue::Object(members) => ValueModel::Object(members_model(members@)),
            JsonValue::String(s) => ValueModel::Text(s@),
            JsonValue::Boolean(b) => ValueModel::Bool(b),
            JsonValue::Number(t) => ValueModel::Num(t@),
            JsonValue::Null => ValueModel::Null,
            JsonValue::Array(elems) => ValueModel::Array(elems_model(elems@)),
        }
    }
}

/// The abstract form of an object member sequence.
pub open spec fn members_model(ms: Seq<(String, JsonValue)>) -> Seq<(Seq<char>, ValueModel)>
    decreases ms,
{
    if ms.len() == 0 {
        Seq::empty()
    } else {
        members_model(ms.drop_last()).push((ms.last().0@, ms.last().1.model()))
    }
}

/// The abstract form of an array element sequence.
pub open spec fn elems_model(es: Seq<JsonValue>) -> Seq<ValueModel>
    decreases es,
{
    if es.len() == 0 {
        Seq::empty()
    } else {
        elems_model(es.drop_last()).push(es.last().model())
    }
}

/// `members_model` maps the sequence member by member.
pub proof fn lemma_members_model(ms: Seq<(String, JsonValue)>)
    ensures
        members_model(ms).len() == ms.len(),
        forall|i: int|
            0 <= i < ms.len() ==> members_model(ms)[i] == ((#[trigger] ms[i]).0@, ms[i].1.model()),
    decreases ms.len(),
{
    if ms.len() > 0 {
        lemma_members_model(ms.drop_last());
        assert forall|i: int|
            0 <= i < ms.len() implies members_model(ms)[i] == (
        (#[trigger] ms[i]).0@,
        ms[i].1.model(),
        ) by {
            if i < ms.len() - 1 {
                assert(ms.drop_last()[i] == ms[i]);
            }
        }
    }
}

/// A basic parser for JSON.
#[derive(Debug)]
pub struct Parser {
    lexer: Lexer,
    depth: usize,
}

/// The maximum object/array nesting depth a parse call accepts.
pub const MAX_DEPTH: usize = 15;

impl Parser {
    /// The input text the parser reads.
    pub closed spec fn input(&self) -> Seq<char> {
        self.lexer.input()
    }

    /// The current cursor position.
    pub closed spec fn pos(&self) -> int {
        self.lexer.pos()
    }

    /// The current nesting depth.
    pub closed spec fn depth_now(&self) -> int {
        self.depth as int
    }

    /// Well-formed: the lexer is, and the depth counter is within bounds.
    pub closed spec fn wf(&self) -> bool {
        &&& self.lexer.wf()
        &&& self.depth <= MAX_DEPTH
    }

    /// Create a new parser for the JSON data; rejects empty input.
    pub fn new(input: &str) -> (r: Result<Self, JsonError>)
        requires
            input@.len() < usize::MAX,
        ensures
            match r {
                Ok(p) => {
                    &&& input@.len() > 0
                    &&& p.wf()
                    &&& p.input() == input@
                    &&& p.pos() == 0
                    &&& p.depth_now() == 0
                },
                Err(e) => {
                    &&& input@.len() == 0
                    &&& e.kind == ErrorKind::EmptyInput
                    &&& e.line is None
                },
            },
    {
        let lexer = match Lexer::new(input) {
            Ok(l) => l,
            Err(e) => {
                return Err(e);
            },
        };
        Ok(Self { lexer, depth: 0 })
    }

    /// Helper function for `parse_null` and
    /// `parse_boolean`. Reads null and boolean values: compares each
    /// character at the cursor one-by-one against the expected literal, the
    /// keyword's first character having already been consumed with its
    /// token. Any mismatch, or input running out first, is invalid syntax.
    pub(crate) fn read_keyword(&mut self, keyword: &str) -> (r: Result<(), JsonError>)
        requires
            old(self).wf(),
        ensures
            final (self).wf(),
            final (self).input() == old(self).input(),
            final (self).depth_now() == old(self).depth_now(),
            final (self).pos() >= old(self).pos(),
            ({
                let ks = spec_read_keyword(old(self).input(), old(self).pos(), keyword@, 0);
                &&& final (self).pos() == ks.pos
                &&& match r {
                    Ok(u) => ks.ok,
                    Err(e) => {
                        &&& !ks.ok
                        &&& e.kind == ErrorKind::InvalidSyntax
                        &&& e.line matches Some(l) && l as int == line_at(old(self).input(), ks.pos)
                    },
                }
            }),
    {
        let n = keyword.unicode_len();
        let mut j: usize = 0;
        while j < n
            invariant
                j <= n,
                n == keyword@.len(),
                self.wf(),
                self.input() == old(self).input(),
                self.depth_now() == old(self).depth_now(),
                self.pos() >= old(self).pos(),
                spec_read_keyword(old(self).input(), old(self).pos(), keyword@, 0)
                    == spec_read_keyword(old(self).input(), self.pos(), keyword@, j as int),
            decreases n - j,
        {
            let expected = keyword.get_char(j);
            match self.lexer.advance() {
                None => {
                    return Err(
                        JsonError::compose(
                            ErrorKind::InvalidSyntax,
                            Some(self.lexer.current_line()),
                        ),
                    );
                },
                Some(c) => {
                    if c != expected {
                        return Err(
                            JsonError::compose(
                                ErrorKind::InvalidSyntax,
                                Some(self.lexer.current_line()),
                            ),
                        );
                    }
                },
            }
            j = j + 1;
        }
        Ok(())
    }

    /// Parses the JSON `null` value, its `n` already consumed.
    pub fn parse_null(&mut self) -> (r: Result<JsonValue, JsonError>)
        requires
            old(self).wf(),
        ensures
            final (self).wf(),
            final (self).input() == old(self).input(),
            final (self).depth_now() == old(self).depth_now(),
            final (self).pos() >= old(self).pos(),
            ({
                let step = spec_parse_keyword(
                    old(self).input(),
                    old(self).pos(),
                    "ull"@,
                    ValueModel::Null,
                );
                final (self).pos() == step.pos && value_result_matches(
                    r,
                    step,
                    old(self).input(),
                )
            }),
    {
        match self.read_keyword("ull") {
            Ok(_) => Ok(JsonValue::Null),
            Err(e) => Err(e),
        }
    }

    /// Parses the `true` boolean value, its `t` already consumed.
    pub fn parse_true(&mut self) -> (r: Result<JsonValue, JsonError>)
        requires
            old(self).wf(),
        ensures
            final (self).wf(),
            final (self).input() == old(self).input(),
            final (self).depth_now() == old(self).depth_now(),
            final (self).pos() >= old(self).pos(),
            ({
                let step = spec_parse_keyword(
                    old(self).input(),
                    old(self).pos(),
                    "rue"@,
                    ValueModel::Bool(true),
                );
                final (self).pos() == step.pos && value_result_matches(
                    r,
                    step,
                    old(self).input(),
                )
            }),
    {
        match self.read_keyword("rue") {
            Ok(_) => Ok(JsonValue::Boolean(true)),
            Err(e) => Err(e),
        }
    }

    /// Parses the `false` boolean value, its `f` already consumed.
    pub fn parse_false(&mut self) -> (r: Result<JsonValue, JsonError>)
        requires
            old(self).wf(),
        ensures
            final (self).wf(),
            final (self).input() == old(self).input(),
            final (self).depth_now() == old(self).depth_now(),
            final (self).pos() >= old(self).pos(),
            ({
                let step = spec_parse_keyword(
                    old(self).input(),
                    old(self).pos(),
                    "alse"@,
                    ValueModel::Bool(false),
                );
                final (self).pos() == step.pos && value_result_matches(
                    r,
                    step,
                    old(self).input(),
                )
            }),
    {
        match self.read_keyword("alse") {
            Ok(_) => Ok(JsonValue::Boolean(false)),
            Err(e) => Err(e),
        }
    }

    /// Parses a string key or value from the JSON, the opening quote having
    /// been consumed by the dispatcher with the string token: accumulates
    /// characters up to and including the closing quote (consumed and
    /// dropped), with no unescaping; a double backslash is rejected; an
    /// unterminated body yields the content accumulated when the input ran
    /// out.
    pub(crate) fn parse_string(&mut self) -> (r: Result<JsonValue, JsonError>)
        requires
            old(self).wf(),
        ensures
            final (self).wf(),
            final (self).input() == old(self).input(),
            final (self).depth_now() == old(self).depth_now(),
            final (self).pos() >= old(self).pos(),
            ({
                let step = spec_parse_text(old(self).input(), old(self).pos());
                final (self).pos() == step.pos && value_result_matches(
                    r,
                    step,
                    old(self).input(),
                )
            }),
    {
        let mut acc = String::new();
        proof {
            lemma_text_prefix_nil(spec_parse_text(old(self).input(), old(self).pos()));
        }
        loop
            invariant
                self.wf(),
                self.input() == old(self).input(),
                self.depth_now() == old(self).depth_now(),
                self.pos() >= old(self).pos(),
                text_with_prefix(acc@, spec_parse_text(self.input(), self.pos()))
                    == spec_parse_text(old(self).input(), old(self).pos()),
            decreases self.input().len() - self.pos(),
        {
            let ghost s = self.input();
            let ghost cur = self.pos();
            match self.lexer.peek() {
                None => {
                    proof {
                        assert(acc@ + Seq::<char>::empty() =~= acc@);
                    }
                    return Ok(JsonValue::String(acc));
                },
                Some(c) => {
                    if c == '"' {
                        self.lexer.advance();
                        proof {
                            assert(acc@ + Seq::<char>::empty() =~= acc@);
                        }
                        return Ok(JsonValue::String(acc));
                    } else if c == '\\' {
                        self.lexer.advance();
                        match self.lexer.peek() {
                            Some(c2) => {
                                if c2 == '\\' {
                                    return Err(
                                        JsonError::compose(
                                            ErrorKind::InvalidBackslashEscape,
                                            Some(self.lexer.current_line()),
                                        ),
                                    );
                                }
                            },
                            None => {},
                        }
                        proof {
                            lemma_text_prefix_step(acc@, '\\', spec_parse_text(s, cur + 1));
                        }
                        push_char(&mut acc, '\\');
                    } else {
                        self.lexer.advance();
                        proof {
                            lemma_text_prefix_step(acc@, c, spec_parse_text(s, cur + 1));
                        }
                        push_char(&mut acc, c);
                    }
                },
            }
        }
    }

    /// Parses a number value, the dispatcher having consumed a leading
    /// minus when `negative` holds (and left a leading digit on the
    /// cursor otherwise). A first digit `0` is rejected outright; then the
    /// maximal run of digits and the constraint characters `-` and `.` is
    /// accumulated and kept as the value's text when it denotes a decimal
    /// number.
    pub(crate) fn parse_number(&mut self, negative: bool) -> (r: Result<JsonValue, JsonError>)
        requires
            old(self).wf(),
        ensures
            final (self).wf(),
            final (self).input() == old(self).input(),
            final (self).depth_now() == old(self).depth_now(),
            final (self).pos() >= old(self).pos(),
            r is Ok ==> final (self).pos() > old(self).pos(),
            ({
                let step = spec_parse_number(old(self).input(), old(self).pos(), negative);
                final (self).pos() == step.pos && value_result_matches(
                    r,
                    step,
                    old(self).input(),
                )
            }),
    {
        match self.lexer.peek() {
            Some(c) => {
                if c == '0' {
                    return Err(
                        JsonError::compose(
                            ErrorKind::NumberWithLeadingZero,
                            Some(self.lexer.current_line()),
                        ),
                    );
                }
            },
            None => {},
        }
        let mut txt = String::new();
        if negative {
            push_char(&mut txt, '-');
        }
        proof {
            assert(txt@ =~= spec_number_prefix(negative) + old(self).input().subrange(
                old(self).pos(),
                old(self).pos(),
            ));
        }
        loop
            invariant
                old(self).wf(),
                self.wf(),
                self.input() == old(self).input(),
                self.depth_now() == old(self).depth_now(),
                self.pos() >= old(self).pos(),
                txt@ == spec_number_prefix(negative) + self.input().subrange(
                    old(self).pos(),
                    self.pos(),
                ),
                num_end(self.input(), self.pos()) == num_end(
                    old(self).input(),
                    old(self).pos(),
                ),
            ensures
                self.wf(),
                self.input() == old(self).input(),
                self.depth_now() == old(self).depth_now(),
                self.pos() >= old(self).pos(),
                txt@ == spec_number_prefix(negative) + self.input().subrange(
                    old(self).pos(),
                    self.pos(),
                ),
                self.pos() == num_end(old(self).input(), old(self).pos()),
            decreases self.input().len() - self.pos(),
        {
            let ghost s = self.input();
            let ghost cur = self.pos();
            match self.lexer.peek() {
                Some(c) => {
                    if ('0' <= c && c <= '9') || c == '-' || c == '.' {
                        self.lexer.advance();
                        proof {
                            assert(s.subrange(old(self).pos(), cur + 1) =~= s.subrange(
                                old(self).pos(),
                                cur,
                            ).push(s[cur]));
                            assert(spec_number_prefix(negative) + s.subrange(
                                old(self).pos(),
                                cur + 1,
                            ) =~= (spec_number_prefix(negative) + s.subrange(
                                old(self).pos(),
                                cur,
                            )).push(s[cur]));
                        }
                        push_char(&mut txt, c);
                    } else {
                        break ;
                    }
                },
                None => {
                    break ;
                },
            }
        }
        proof {
            let step = spec_parse_number(old(self).input(), old(self).pos(), negative);
            assert(self.pos() == num_end(old(self).input(), old(self).pos()));
            assert(txt@ =~= ({
                let body = old(self).input().subrange(old(self).pos(), self.pos());
                if negative {
                    seq!['-'] + body
                } else {
                    body
                }
            }));
        }
        if is_decimal_text(&txt) {
            proof {
                if self.pos() == old(self).pos() {
                    assert(old(self).input().subrange(old(self).pos(), self.pos())
                        =~= Seq::<char>::empty());
                    if negative {
                        assert(txt@ =~= seq!['-']);
                        assert(crate::model::decimal_body(txt@).len() == 0);
                    } else {
                        assert(crate::model::decimal_body(txt@).len() == 0);
                    }
                    assert(false);
                }
            }
            Ok(JsonValue::Number(txt))
        } else {
            Err(
                JsonError::compose(
                    ErrorKind::ParseNumberError,
                    Some(self.lexer.current_line()),
                ),
            )
        }
    }

    /// Parses the JSON data: requests one token and routes on its tag to
    /// the matching grammar production, as `spec_parse_value` describes. An
    /// exhausted stream where a value was expected is `Eof`; a bare single
    /// quote gets its dedicated diagnostic; any other unexpected token is
    /// invalid syntax.
    pub fn parse(&mut self) -> (r: Result<JsonValue, JsonError>)
        requires
            old(self).wf(),
        ensures
            final (self).wf(),
            final (self).input() == old(self).input(),
            final (self).depth_now() == old(self).depth_now(),
            final (self).pos() >= old(self).pos(),
            r is Ok ==> final (self).pos() > old(self).pos(),
            ({
                let step = spec_parse_value(
                    old(self).input(),
                    old(self).pos(),
                    old(self).depth_now(),
                );
                final (self).pos() == step.pos && value_result_matches(
                    r,
                    step,
                    old(self).input(),
                )
            }),
        decreases self.input().len() - self.pos(), 1int,
    {
        proof {
            crate::model::lemma_skip_ws_ge(self.input(), self.pos());
        }
        let tok = match self.lexer.next_token() {
            None => {
                return Err(JsonError::compose(ErrorKind::Eof, Some(self.lexer.current_line())));
            },
            Some(t) => t,
        };
        match tok.token_type {
            TokenType::Lbrace => self.parse_object(),
            TokenType::LSqBracket => self.parse_array(),
            TokenType::Str => self.parse_string(),
            TokenType::Digit => self.parse_number(false),
            TokenType::Character(c) => {
                if c == '-' {
                    self.parse_number(true)
                } else if c == 'n' {
                    self.parse_null()
                } else if c == 't' {
                    self.parse_true()
                } else if c == 'f' {
                    self.parse_false()
                } else if c == '\'' {
                    Err(
                        JsonError::compose(
                            ErrorKind::SingleQuote,
                            Some(self.lexer.current_line()),
                        ),
                    )
                } else {
                    Err(
                        JsonError::compose(
                            ErrorKind::InvalidSyntax,
                            Some(self.lexer.current_line()),
                        ),
                    )
                }
            },
            _ => Err(
                JsonError::compose(ErrorKind::InvalidSyntax, Some(self.lexer.current_line())),
            ),
        }
    }

    /// Parses a JSON object body, the `{` consumed by the dispatcher:
    /// counts the new nesting level (erroring before any member is read
    /// when it exceeds the maximum), closes the empty object on an
    /// immediate `}`, and otherwise runs the member loop.
    pub(crate) fn parse_object(&mut self) -> (r: Result<JsonValue, JsonError>)
        requires
            old(self).wf(),
        ensures
            final (self).wf(),
            final (self).input() == old(self).input(),
            final (self).depth_now() == old(self).depth_now(),
            final (self).pos() >= old(self).pos(),
            ({
                let step = spec_parse_object(
                    old(self).input(),
                    old(self).pos(),
                    old(self).depth_now() + 1,
                );
                final (self).pos() == step.pos && value_result_matches(
                    r,
                    step,
                    old(self).input(),
                )
            }),
        decreases self.input().len() - self.pos(), 3int,
    {
        self.depth = self.depth + 1;
        if self.depth > MAX_DEPTH {
            let line = self.lexer.current_line();
            self.depth = self.depth - 1;
            return Err(JsonError::compose(ErrorKind::NestingTooDeep, Some(line)));
        }
        match self.lexer.peek() {
            Some(c) => {
                if c == '}' {
                    self.lexer.advance();
                    self.depth = self.depth - 1;
                    return Ok(JsonValue::Object(Vec::new()));
                }
            },
            None => {},
        }
        let r = self.parse_members(Vec::new());
        self.depth = self.depth - 1;
        r
    }

    /// The object member loop: parse a key (which must be a string; a bare
    /// single quote keeps its dedicated diagnostic, every other failure or
    /// non-string key becomes `ObjectKeyNotString`), require a colon, parse
    /// the value, record the member last-write-wins into `store`, then
    /// continue or close as `check` decides.
    pub(crate) fn parse_members(&mut self, store: Vec<(String, JsonValue)>) -> (r: Result<
        JsonValue,
        JsonError,
    >)
        requires
            old(self).wf(),
        ensures
            final (self).wf(),
            final (self).input() == old(self).input(),
            final (self).depth_now() == old(self).depth_now(),
            final (self).pos() >= old(self).pos(),
            ({
                let step = spec_parse_members(
                    old(self).input(),
                    old(self).pos(),
                    old(self).depth_now(),
                    members_model(store@),
                );
                final (self).pos() == step.pos && value_result_matches(
                    r,
                    step,
                    old(self).input(),
                )
            }),
        decreases self.input().len() - self.pos(), 2int,
    {
        let key = match self.parse() {
            Ok(v) => {
                match v {
                    JsonValue::String(k) => k,
                    _ => {
                        return Err(
                            JsonError::compose(
                                ErrorKind::ObjectKeyNotString,
                                Some(self.lexer.current_line()),
                            ),
                        );
                    },
                }
            },
            Err(e) => {
                match e.kind {
                    ErrorKind::SingleQuote => {
                        return Err(e);
                    },
                    _ => {
                        return Err(
                            JsonError::compose(
                                ErrorKind::ObjectKeyNotString,
                                Some(self.lexer.current_line()),
                            ),
                        );
                    },
                }
            },
        };
        proof {
            crate::model::lemma_skip_ws_ge(self.input(), self.pos());
        }
        let colon_tok = match self.lexer.next_token() {
            None => {
                return Err(JsonError::compose(ErrorKind::Eof, Some(self.lexer.current_line())));
            },
            Some(t) => t,
        };
        match colon_tok.token_type {
            TokenType::Colon => {},
            _ => {
                return Err(
                    JsonError::compose(
                        ErrorKind::MissingColon,
                        Some(self.lexer.current_line()),
                    ),
                );
            },
        }
        let value = match self.parse() {
            Ok(v) => v,
            Err(e) => {
                return Err(e);
            },
        };
        let mut store2 = store;
        insert_pair(&mut store2, key, value);
        match self.check(false) {
            Err(e) => Err(e),
            Ok(ContinueBreak::Continue) => self.parse_members(store2),
            Ok(ContinueBreak::Break) => Ok(JsonValue::Object(store2)),
        }
    }

    /// Parses a JSON array body, the `[` consumed by the dispatcher:
    /// counts the new nesting level (erroring before any element is read
    /// when it exceeds the maximum), skips leading whitespace and runs the
    /// element loop.
    pub(crate) fn parse_array(&mut self) -> (r: Result<JsonValue, JsonError>)
        requires
            old(self).wf(),
        ensures
            final (self).wf(),
            final (self).input() == old(self).input(),
            final (self).depth_now() == old(self).depth_now(),
            final (self).pos() >= old(self).pos(),
            ({
                let step = spec_parse_array(
                    old(self).input(),
                    old(self).pos(),
                    old(self).depth_now() + 1,
                );
                final (self).pos() == step.pos && value_result_matches(
                    r,
                    step,
                    old(self).input(),
                )
            }),
        decreases self.input().len() - self.pos(), 3int,
    {
        self.depth = self.depth + 1;
        if self.depth > MAX_DEPTH {
            let line = self.lexer.current_line();
            self.depth = self.depth - 1;
            return Err(JsonError::compose(ErrorKind::NestingTooDeep, Some(line)));
        }
        proof {
            crate::model::lemma_skip_ws_ge(self.input(), self.pos());
        }
        self.lexer.skip_whitespace();
        let r = self.parse_elements(Vec::new());
        self.depth = self.depth - 1;
        r
    }

    /// The array element loop, entered with whitespace already skipped:
    /// `]` closes the array, a comma at element position is a missing
    /// value, otherwise an element is parsed and appended to `elems` and
    /// the loop continues or closes as `check` decides.
    pub(crate) fn parse_elements(&mut self, elems: Vec<JsonValue>) -> (r: Result<
        JsonValue,
        JsonError,
    >)
        requires
            old(self).wf(),
        ensures
            final (self).wf(),
            final (self).input() == old(self).input(),
            final (self).depth_now() == old(self).depth_now(),
            final (self).pos() >= old(self).pos(),
            ({
                let step = spec_parse_elements(
                    old(self).input(),
                    old(self).pos(),
                    old(self).depth_now(),
                    elems_model(elems@),
                );
                final (self).pos() == step.pos && value_result_matches(
                    r,
                    step,
                    old(self).input(),
                )
            }),
        decreases self.input().len() - self.pos(), 2int,
    {
        match self.lexer.peek() {
            Some(c) => {
                if c == ']' {
                    self.lexer.advance();
                    return Ok(JsonValue::Array(elems));
                }
                if c == ',' {
                    return Err(
                        JsonError::compose(
                            ErrorKind::MissingValue,
                            Some(self.lexer.current_line()),
                        ),
                    );
                }
            },
            None => {},
        }
        let value = match self.parse() {
            Ok(v) => v,
            Err(e) => {
                return Err(e);
            },
        };
        let ghost before = elems@;
        let mut elems2 = elems;
        elems2.push(value);
        proof {
            assert(elems2@.drop_last() =~= before);
            assert(elems_model(elems2@) == elems_model(before).push(value.model()));
        }
        match self.check(true) {
            Err(e) => Err(e),
            Ok(ContinueBreak::Continue) => self.parse_elements(elems2),
            Ok(ContinueBreak::Break) => Ok(JsonValue::Array(elems2)),
        }
    }

    /// Parses the whole document: exactly one value, then only whitespace
    /// up to the end of the input; any trailing non-whitespace is invalid
    /// syntax.
    pub fn parse_root(&mut self) -> (r: Result<JsonValue, JsonError>)
        requires
            old(self).wf(),
        ensures
            final (self).wf(),
            final (self).input() == old(self).input(),
            final (self).depth_now() == old(self).depth_now(),
            final (self).pos() >= old(self).pos(),
            ({
                let step = spec_parse_root_at(
                    old(self).input(),
                    old(self).pos(),
                    old(self).depth_now(),
                );
                final (self).pos() == step.pos && value_result_matches(
                    r,
                    step,
                    old(self).input(),
                )
            }),
    {
        let v = match self.parse() {
            Ok(v) => v,
            Err(e) => {
                return Err(e);
            },
        };
        proof {
            crate::model::lemma_skip_ws_ge(self.input(), self.pos());
        }
        self.lexer.skip_whitespace();
        match self.lexer.peek() {
            Some(_) => Err(
                JsonError::compose(ErrorKind::InvalidSyntax, Some(self.lexer.current_line())),
            ),
            None => Ok(v),
        }
    }

    /// After an object member or an array element: decide whether the loop
    /// continues past a comma or the container closes, as `spec_check`
    /// describes.
    pub(crate) fn check(&mut self, in_array: bool) -> (r: Result<ContinueBreak, JsonError>)
        requires
            old(self).wf(),
        ensures
            final (self).wf(),
            final (self).input() == old(self).input(),
            final (self).depth_now() == old(self).depth_now(),
            final (self).pos() >= old(self).pos(),
            ({
                let cs = spec_check(old(self).input(), old(self).pos(), in_array);
                &&& final (self).pos() == cs.pos
                &&& match r {
                    Ok(cb) => cs.res matches Ok(b) && (b <==> cb is Continue),
                    Err(e) => {
                        &&& cs.res matches Err(k) && e.kind == k
                        &&& e.line matches Some(l) && l as int == line_at(old(self).input(), cs.pos)
                    },
                }
            }),
            r matches Ok(ContinueBreak::Continue) ==> final (self).pos() > old(self).pos(),
    {
        proof {
            crate::model::lemma_skip_ws_ge(old(self).input(), old(self).pos());
        }
        match self.lexer.next_token() {
            None => {
                let which = if in_array {
                    TokenType::RSqbracket
                } else {
                    TokenType::Rbrace
                };
                Err(
                    JsonError::compose(
                        ErrorKind::UnclosedDelimiter(which),
                        Some(self.lexer.current_line()),
                    ),
                )
            },
            Some(tok) => {
                match tok.token_type {
                    TokenType::Comma => {
                        proof {
                            crate::model::lemma_skip_ws_ge(self.input(), self.pos());
                        }
                        self.lexer.skip_whitespace();
                        match self.lexer.peek() {
                            Some(c) => {
                                if c == '}' || c == ']' {
                                    Err(
                                        JsonError::compose(
                                            ErrorKind::TrailingComma,
                                            Some(self.lexer.current_line()),
                                        ),
                                    )
                                } else {
                                    Ok(ContinueBreak::Continue)
                                }
                            },
                            None => Ok(ContinueBreak::Continue),
                        }
                    },
                    TokenType::Rbrace => {
                        if in_array {
                            Err(
                                JsonError::compose(
                                    ErrorKind::InvalidSyntax,
                                    Some(self.lexer.current_line()),
                                ),
                            )
                        } else {
                            Ok(ContinueBreak::Break)
                        }
                    },
                    TokenType::RSqbracket => {
                        if in_array {
                            Ok(ContinueBreak::Break)
                        } else {
                            Err(
                                JsonError::compose(
                                    ErrorKind::InvalidSyntax,
                                    Some(self.lexer.current_line()),
                                ),
                            )
                        }
                    },
                    _ => Err(
                        JsonError::compose(
                            ErrorKind::InvalidSyntax,
                            Some(self.lexer.current_line()),
                        ),
                    ),
                }
            },
        }
    }
}

/// Whether a member/element loop goes on after a comma or the container
/// has been closed.
pub(crate) enum ContinueBreak {
    Continue,
    Break,
}

/// How an executable parse outcome corresponds to a reference `ParseStep`
/// over the input `s`: a success builds exactly the value the step holds; a
/// failure carries the step's error kind and the line of the position the
/// cursor had reached.
pub open spec fn value_result_matches(
    r: Result<JsonValue, JsonError>,
    step: ParseStep,
    s: Seq<char>,
) -> bool {
    match r {
        Ok(v) => step.res == Ok::<ValueModel, ErrorKind>(v.model()),
        Err(e) => {
            &&& step.res matches Err(k) && e.kind == k
            &&& e.line matches Some(l) && l as int == line_at(s, step.pos)
        },
    }
}

/// Decide whether the accumulated numeric text denotes a decimal number:
/// after an optional leading minus there must be at least one digit, at
/// most one dot, and nothing but digits and dots.
fn is_decimal_text(t: &String) -> (b: bool)
    ensures
        b == is_decimal_literal(t@),
{
    let st: &str = t.as_str();
    let n = st.unicode_len();
    let offset: usize = if n > 0 && st.get_char(0) == '-' {
        1
    } else {
        0
    };
    if n == offset {
        return false;
    }
    let mut dots: usize = 0;
    let mut seen_digit = false;
    let mut ok_chars = true;
    let mut i: usize = offset;
    while i < n
        invariant
            offset <= i <= n,
            n == t@.len(),
            st@ == t@,
            offset == 1 || offset == 0,
            offset == 1 ==> t@.len() > 0 && t@[0] == '-',
            offset == 0 ==> !(t@.len() > 0 && t@[0] == '-'),
            dots as int == char_count(t@.subrange(offset as int, i as int), '.'),
            dots <= i - offset,
            seen_digit ==> exists|k: int| offset <= k < i && is_digit(#[trigger] t@[k]),
            !seen_digit ==> forall|k: int| offset <= k < i ==> !is_digit(#[trigger] t@[k]),
            ok_chars ==> forall|k: int|
                offset <= k < i ==> is_digit(#[trigger] t@[k]) || t@[k] == '.',
            !ok_chars ==> exists|k: int|
                offset <= k < i && !(is_digit(#[trigger] t@[k]) || t@[k] == '.'),
        decreases n - i,
    {
        let c = st.get_char(i);
        proof {
            assert(t@.subrange(offset as int, i + 1) =~= t@.subrange(
                offset as int,
                i as int,
            ).push(t@[i as int]));
            assert(t@.subrange(offset as int, i + 1).drop_last() =~= t@.subrange(
                offset as int,
                i as int,
            ));
        }
        if c == '.' {
            dots = dots + 1;
        } else if '0' <= c && c <= '9' {
            seen_digit = true;
        } else {
            ok_chars = false;
        }
        i = i + 1;
    }
    proof {
        let u = crate::model::decimal_body(t@);
        assert(u =~= t@.subrange(offset as int, n as int));
        if seen_digit {
            let k = choose|k: int| offset <= k < n && is_digit(#[trigger] t@[k]);
            assert(u[k - offset] == t@[k]);
        }
        if !seen_digit {
            assert forall|j: int| 0 <= j < u.len() implies !is_digit(#[trigger] u[j]) by {
                assert(u[j] == t@[offset + j]);
            }
        }
        if ok_chars {
            assert forall|j: int| 0 <= j < u.len() implies is_digit(#[trigger] u[j]) || u[j]
                == '.' by {
                assert(u[j] == t@[offset + j]);
            }
        }
        if !ok_chars {
            let k = choose|k: int|
                offset <= k < n && !(is_digit(#[trigger] t@[k]) || t@[k] == '.');
            assert(u[k - offset] == t@[k]);
        }
        if ok_chars && dots <= 1 && seen_digit {
            assert(is_decimal_literal(t@));
        } else {
            assert(!is_decimal_literal(t@));
        }
    }
    ok_chars && dots <= 1 && seen_digit
}

/// Record `key -> value` in the member list: overwrite the value of the
/// first member already holding the key, else append a new member.
fn insert_pair(store: &mut Vec<(String, JsonValue)>, key: String, value: JsonValue)
    ensures
        members_model(final (store)@) == upsert(
            members_model(old(store)@),
            key@,
            value.model(),
        ),
{
    let n = store.len();
    let mut i: usize = 0;
    while i < n
        invariant
            i <= n,
            n == store.len(),
            store@ == old(store)@,
            forall|j: int| 0 <= j < i ==> (#[trigger] store@[j]).0@ != key@,
        decreases n - i,
    {
        if store[i].0 == key {
            proof {
                lemma_members_model(store@);
                lemma_find_key(members_model(store@), key@);
                let mm = members_model(store@);
                let fk = find_key(mm, key@);
                assert(store@[i as int].0@ == key@);
                assert(mm[i as int].0 == store@[i as int].0@);
                if fk < i {
                    assert(mm[fk].0 == key@);
                    assert(mm[fk].0 == store@[fk].0@);
                    assert(false);
                }
                if fk > i {
                    assert(mm[i as int].0 != key@);
                    assert(false);
                }
            }
            let kept = store.remove(i);
            store.insert(i, (kept.0, value));
            proof {
                lemma_members_model(store@);
                lemma_members_model(old(store)@);
                let up = upsert(members_model(old(store)@), key@, value.model());
                assert(store@ =~= old(store)@.update(i as int, (old(store)@[i as int].0, value)));
                assert forall|j: int| 0 <= j < members_model(store@).len() implies members_model(
                    store@,
                )[j] == up[j] by {
                    assert(members_model(store@)[j] == (store@[j].0@, store@[j].1.model()));
                    if j != i {
                        assert(store@[j] == old(store)@[j]);
                    } else {
                        assert(store@[j].0 == old(store)@[i as int].0);
                        assert(store@[j].0@ == key@);
                    }
                }
                assert(members_model(store@) =~= up);
            }
            return ;
        }
        i = i + 1;
    }
    store.push((key, value));
    proof {
        lemma_members_model(store@);
        lemma_members_model(old(store)@);
        lemma_find_key(members_model(old(store)@), key@);
        let mm = members_model(old(store)@);
        let fk = find_key(mm, key@);
        if fk < n {
            assert(mm[fk].0 == key@);
            assert(mm[fk].0 == old(store)@[fk].0@);
            assert(false);
        }
        assert(store@ =~= old(store)@.push((key, value)));
        assert forall|j: int| 0 <= j < members_model(store@).len() implies members_model(store@)[j]
            == upsert(mm, key@, value.model())[j] by {
            assert(members_model(store@)[j] == (store@[j].0@, store@[j].1.model()));
            if j < n {
                assert(store@[j] == old(store)@[j]);
            }
        }
        assert(members_model(store@) =~= upsert(mm, key@, value.model()));
    }
}

} // verus!
