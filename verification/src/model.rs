//! The mathematical model of parsing. `ValueModel` is the abstract value
//! tree; the `spec_parse_*` functions are the reference description of the
//! grammar this parser accepts: one spec function per production, recursing
//! over the input character sequence exactly as the executable parser drives
//! its lexer. Every executable parsing function's contract pins its result
//! and its cursor movement to these functions.

use vstd::prelude::*;

use crate::errors::ErrorKind;
use crate::lexer::{is_digit, is_ws, lemma_skip_ws_idx, num_end, skip_ws_idx, spec_next_token};
use crate::token::TokenType;

verus! {

/// The abstract form of a parsed JSON value. An object is the sequence of
/// its members in the order they were first written, each key mapped to the
/// value it was last given (last write wins); an array is the sequence of
/// its elements in source order; a number is its validated source text.
#[verifier::ext_equal]
pub enum ValueModel {
    Object(Seq<(Seq<char>, ValueModel)>),
    Array(Seq<ValueModel>),
    Text(Seq<char>),
    Num(Seq<char>),
    Bool(bool),
    Null,
}

/// The outcome of one parsing production: the value built or the kind of
/// the first violation, and the cursor position afterwards (for an error,
/// the position the lexer had reached when the error was raised, from which
/// its line is derived).
pub struct ParseStep {
    pub res: Result<ValueModel, ErrorKind>,
    pub pos: int,
}

/// A successful step.
pub open spec fn step_ok(v: ValueModel, pos: int) -> ParseStep {
    ParseStep { res: Ok(v), pos }
}

/// A failed step.
pub open spec fn step_err(kind: ErrorKind, pos: int) -> ParseStep {
    ParseStep { res: Err(kind), pos }
}

/// The index of the first member of `ps` whose key is `k`, or `ps.len()`
/// when no member has that key.
pub open spec fn find_key(ps: Seq<(Seq<char>, ValueModel)>, k: Seq<char>) -> int
    decreases ps.len(),
{
    if ps.len() == 0 {
        0
    } else if ps[0].0 == k {
        0
    } else {
        1 + find_key(ps.drop_first(), k)
    }
}

/// What `find_key` returns: the first position holding `k`, or the length.
pub proof fn lemma_find_key(ps: Seq<(Seq<char>, ValueModel)>, k: Seq<char>)
    ensures
        0 <= find_key(ps, k) <= ps.len(),
        forall|j: int| 0 <= j < find_key(ps, k) ==> (#[trigger] ps[j]).0 != k,
        find_key(ps, k) < ps.len() ==> ps[find_key(ps, k)].0 == k,
    decreases ps.len(),
{
    if ps.len() > 0 && ps[0].0 != k {
        lemma_find_key(ps.drop_first(), k);
        assert forall|j: int| 0 <= j < find_key(ps, k) implies (#[trigger] ps[j]).0 != k by {
            if j > 0 {
                assert(ps.drop_first()[j - 1] == ps[j]);
            }
        }
        if find_key(ps, k) < ps.len() {
            assert(ps.drop_first()[find_key(ps, k) - 1] == ps[find_key(ps, k)]);
        }
    }
}

/// Insert `k -> v` into the member sequence: overwrite the value of the
/// first member already holding `k`, else append a new member.
pub open spec fn upsert(ps: Seq<(Seq<char>, ValueModel)>, k: Seq<char>, v: ValueModel) -> Seq<
    (Seq<char>, ValueModel),
> {
    if find_key(ps, k) < ps.len() {
        ps.update(find_key(ps, k), (k, v))
    } else {
        ps.push((k, v))
    }
}

/// How many times `c` occurs in `t`.
pub open spec fn char_count(t: Seq<char>, c: char) -> int
    decreases t.len(),
{
    if t.len() == 0 {
        0
    } else {
        char_count(t.drop_last(), c) + if t.last() == c {
            1int
        } else {
            0int
        }
    }
}

/// A numeric text with its optional leading minus removed.
pub open spec fn decimal_body(t: Seq<char>) -> Seq<char> {
    if t.len() > 0 && t[0] == '-' {
        t.drop_first()
    } else {
        t
    }
}

/// The strings over the numeric alphabet (digits, `-`, `.`) that denote a
/// decimal number: an optional leading minus, then at least one digit, at
/// most one dot and nothing else.
pub open spec fn is_decimal_literal(t: Seq<char>) -> bool {
    let u = decimal_body(t);
    &&& u.len() > 0
    &&& forall|i: int| 0 <= i < u.len() ==> is_digit(#[trigger] u[i]) || u[i] == '.'
    &&& char_count(u, '.') <= 1
    &&& exists|i: int| 0 <= i < u.len() && is_digit(#[trigger] u[i])
}

/// No two members of an object share a key.
pub open spec fn keys_unique(ps: Seq<(Seq<char>, ValueModel)>) -> bool {
    forall|i: int, j: int| 0 <= i < j < ps.len() ==> (#[trigger] ps[i]).0 != (#[trigger] ps[j]).0
}

/// A well-formed value tree: every object in it, at any depth, has
/// pairwise distinct keys.
pub open spec fn value_wf(vm: ValueModel) -> bool
    decreases vm,
{
    match vm {
        ValueModel::Object(ps) => {
            &&& keys_unique(ps)
            &&& forall|i: int| 0 <= i < ps.len() ==> value_wf((#[trigger] ps[i]).1)
        },
        ValueModel::Array(es) => forall|i: int| 0 <= i < es.len() ==> value_wf(#[trigger] es[i]),
        _ => true,
    }
}

/// Inserting a member keeps keys unique and keeps every stored value
/// well-formed.
pub proof fn lemma_upsert_wf(ps: Seq<(Seq<char>, ValueModel)>, k: Seq<char>, v: ValueModel)
    requires
        keys_unique(ps),
        forall|i: int| 0 <= i < ps.len() ==> value_wf((#[trigger] ps[i]).1),
        value_wf(v),
    ensures
        keys_unique(upsert(ps, k, v)),
        forall|i: int| 0 <= i < upsert(ps, k, v).len() ==> value_wf((#[trigger] upsert(ps, k, v)[i]).1),
{
    lemma_find_key(ps, k);
}

/// The cursor never moves backwards while whitespace is skipped.
pub proof fn lemma_skip_ws_ge(s: Seq<char>, pos: int)
    ensures
        skip_ws_idx(s, pos) >= pos,
    decreases s.len() - pos,
{
    if pos < s.len() && 0 <= pos && is_ws(s[pos]) {
        lemma_skip_ws_ge(s, pos + 1);
    }
}

/// What reading an expected keyword tail does: compare the characters at
/// the cursor one by one with `kw` from index `j` on, consuming each
/// compared character; stop short of consuming only when the input runs
/// out.
pub struct KeywordStep {
    pub ok: bool,
    pub pos: int,
}

/// Reference description of `Parser::read_keyword`.
pub open spec fn spec_read_keyword(s: Seq<char>, pos: int, kw: Seq<char>, j: int) -> KeywordStep
    decreases kw.len() - j,
{
    if j >= kw.len() {
        KeywordStep { ok: true, pos }
    } else if pos < 0 || pos >= s.len() {
        KeywordStep { ok: false, pos }
    } else if s[pos] == kw[j] {
        spec_read_keyword(s, pos + 1, kw, j + 1)
    } else {
        KeywordStep { ok: false, pos: pos + 1 }
    }
}

/// A keyword at value position: `out` when the expected tail is present,
/// `InvalidSyntax` otherwise.
pub open spec fn spec_parse_keyword(s: Seq<char>, pos: int, kw: Seq<char>, out: ValueModel) -> ParseStep {
    let st = spec_read_keyword(s, pos, kw, 0);
    if st.ok {
        step_ok(out, st.pos)
    } else {
        step_err(ErrorKind::InvalidSyntax, st.pos)
    }
}

/// Prefix one character onto the content of a successfully parsed string
/// body; leave any other outcome unchanged.
pub open spec fn text_prepend(c: char, st: ParseStep) -> ParseStep {
    match st.res {
        Ok(vm) => match vm {
            ValueModel::Text(t) => ParseStep { res: Ok(ValueModel::Text(seq![c] + t)), pos: st.pos },
            _ => st,
        },
        Err(_) => st,
    }
}

/// A string body, entered with the opening quote already consumed: every
/// character up to the closing quote (consumed and dropped) becomes content,
/// with no unescaping; a double backslash is rejected; an unterminated body
/// yields the content accumulated when the input ran out.
pub open spec fn spec_parse_text(s: Seq<char>, pos: int) -> ParseStep
    decreases s.len() - pos,
{
    if pos < 0 || pos >= s.len() {
        step_ok(ValueModel::Text(Seq::empty()), pos)
    } else if s[pos] == '"' {
        step_ok(ValueModel::Text(Seq::empty()), pos + 1)
    } else if s[pos] == '\\' && pos + 1 < s.len() && s[pos + 1] == '\\' {
        step_err(ErrorKind::InvalidBackslashEscape, pos + 1)
    } else {
        text_prepend(s[pos], spec_parse_text(s, pos + 1))
    }
}

/// Prefix a whole accumulated run of characters onto the content of a
/// successfully parsed string body; leave any other outcome unchanged. The
/// executable string scanner grows its accumulator left to right and this
/// function relates the accumulator to the body still ahead of the cursor.
pub open spec fn text_with_prefix(p: Seq<char>, st: ParseStep) -> ParseStep {
    match st.res {
        Ok(vm) => match vm {
            ValueModel::Text(t) => ParseStep { res: Ok(ValueModel::Text(p + t)), pos: st.pos },
            _ => st,
        },
        Err(_) => st,
    }
}

/// An empty prefix changes nothing.
pub proof fn lemma_text_prefix_nil(st: ParseStep)
    ensures
        text_with_prefix(Seq::empty(), st) == st,
{
    match st.res {
        Ok(vm) => match vm {
            ValueModel::Text(t) => {
                assert(Seq::empty() + t =~= t);
            },
            _ => {},
        },
        Err(_) => {},
    }
}

/// Moving one character from the body into the prefix.
pub proof fn lemma_text_prefix_step(p: Seq<char>, c: char, st: ParseStep)
    ensures
        text_with_prefix(p, text_prepend(c, st)) == text_with_prefix(p.push(c), st),
{
    match st.res {
        Ok(vm) => match vm {
            ValueModel::Text(t) => {
                assert(p + (seq![c] + t) =~= p.push(c) + t);
            },
            _ => {},
        },
        Err(_) => {},
    }
}

/// What the dispatcher already consumed of a numeric token: the minus sign,
/// or nothing.
pub open spec fn spec_number_prefix(neg: bool) -> Seq<char> {
    if neg {
        seq!['-']
    } else {
        Seq::empty()
    }
}

/// A number at value position. `neg` says whether the dispatcher consumed a
/// leading minus. A first digit `0` is rejected outright; otherwise the
/// maximal run of numeric characters is taken as the token text (minus
/// prepended), kept when it denotes a decimal number and rejected with
/// `ParseNumberError` when it does not.
pub open spec fn spec_parse_number(s: Seq<char>, pos: int, neg: bool) -> ParseStep {
    if 0 <= pos < s.len() && s[pos] == '0' {
        step_err(ErrorKind::NumberWithLeadingZero, pos)
    } else {
        let e = num_end(s, pos);
        let body = s.subrange(pos, e);
        let txt = if neg {
            seq!['-'] + body
        } else {
            body
        };
        if is_decimal_literal(txt) {
            step_ok(ValueModel::Num(txt), e)
        } else {
            step_err(ErrorKind::ParseNumberError, e)
        }
    }
}

/// The outcome of the continue/break decision after an object member or an
/// array element: continue the loop (`Ok(true)`), close the container
/// (`Ok(false)`), or fail.
pub struct CheckStep {
    pub res: Result<bool, ErrorKind>,
    pub pos: int,
}

/// Reference description of `Parser::check`: a comma continues the loop
/// unless a closing delimiter follows it (trailing comma); the matching
/// closing delimiter breaks; exhaustion is an unclosed delimiter; anything
/// else is invalid syntax.
pub open spec fn spec_check(s: Seq<char>, pos: int, in_array: bool) -> CheckStep {
    let nt = spec_next_token(s, pos);
    match nt.tok {
        None => CheckStep {
            res: Err(
                ErrorKind::UnclosedDelimiter(
                    if in_array {
                        TokenType::RSqbracket
                    } else {
                        TokenType::Rbrace
                    },
                ),
            ),
            pos: nt.pos,
        },
        Some(tok) => match tok.token_type {
            TokenType::Comma => {
                let q = skip_ws_idx(s, nt.pos);
                if q < s.len() && (s[q] == '}' || s[q] == ']') {
                    CheckStep { res: Err(ErrorKind::TrailingComma), pos: q }
                } else {
                    CheckStep { res: Ok(true), pos: q }
                }
            },
            TokenType::Rbrace => if in_array {
                CheckStep { res: Err(ErrorKind::InvalidSyntax), pos: nt.pos }
            } else {
                CheckStep { res: Ok(false), pos: nt.pos }
            },
            TokenType::RSqbracket => if in_array {
                CheckStep { res: Ok(false), pos: nt.pos }
            } else {
                CheckStep { res: Err(ErrorKind::InvalidSyntax), pos: nt.pos }
            },
            _ => CheckStep { res: Err(ErrorKind::InvalidSyntax), pos: nt.pos },
        },
    }
}

/// A value at the cursor: request one token and route on its tag. This is
/// the root of the grammar's mutual recursion; `depth` is the nesting level
/// already entered.
pub open spec fn spec_parse_value(s: Seq<char>, pos: int, depth: int) -> ParseStep
    decreases s.len() - pos, 1int,
        via spec_parse_value_dec
{
    let nt = spec_next_token(s, pos);
    match nt.tok {
        None => step_err(ErrorKind::Eof, nt.pos),
        Some(tok) => match tok.token_type {
            TokenType::Lbrace => spec_parse_object(s, nt.pos, depth + 1),
            TokenType::LSqBracket => spec_parse_array(s, nt.pos, depth + 1),
            TokenType::Str => spec_parse_text(s, nt.pos),
            TokenType::Digit => spec_parse_number(s, nt.pos, false),
            TokenType::Character(c) => {
                if c == '-' {
                    spec_parse_number(s, nt.pos, true)
                } else if c == 'n' {
                    spec_parse_keyword(s, nt.pos, "ull"@, ValueModel::Null)
                } else if c == 't' {
                    spec_parse_keyword(s, nt.pos, "rue"@, ValueModel::Bool(true))
                } else if c == 'f' {
                    spec_parse_keyword(s, nt.pos, "alse"@, ValueModel::Bool(false))
                } else if c == '\'' {
                    step_err(ErrorKind::SingleQuote, nt.pos)
                } else {
                    step_err(ErrorKind::InvalidSyntax, nt.pos)
                }
            },
            _ => step_err(ErrorKind::InvalidSyntax, nt.pos),
        },
    }
}

#[via_fn]
proof fn spec_parse_value_dec(s: Seq<char>, pos: int, depth: int) {
    lemma_skip_ws_ge(s, pos);
}

/// An object body, entered with `{` consumed and the nesting level already
/// counted: too-deep nesting fails before any member is read; an immediate
/// `}` closes the empty object; otherwise the member loop runs.
pub open spec fn spec_parse_object(s: Seq<char>, pos: int, depth: int) -> ParseStep
    decreases s.len() - pos, 3int,
{
    if depth > crate::parser::MAX_DEPTH as int {
        step_err(ErrorKind::NestingTooDeep, pos)
    } else if 0 <= pos < s.len() && s[pos] == '}' {
        step_ok(ValueModel::Object(Seq::empty()), pos + 1)
    } else {
        spec_parse_members(s, pos, depth, Seq::empty())
    }
}

/// The object member loop: parse a key (which must be a string; a bare
/// single quote keeps its dedicated diagnostic, every other failure or
/// non-string key becomes `ObjectKeyNotString`), require a colon, parse the
/// value, record the member last-write-wins, then continue or close as
/// `spec_check` decides. The cursor-sanity branches yielding
/// `InvalidSyntax` at `pos` are never reached: parsing never moves the
/// cursor backwards (`crate::laws::lemma_parse_value_progress`); they only
/// make the recursion's termination measure evident.
pub open spec fn spec_parse_members(
    s: Seq<char>,
    pos: int,
    depth: int,
    acc: Seq<(Seq<char>, ValueModel)>,
) -> ParseStep
    decreases s.len() - pos, 2int,
{
    let kstep = spec_parse_value(s, pos, depth);
    match kstep.res {
        Err(k) => if k == ErrorKind::SingleQuote {
            kstep
        } else {
            step_err(ErrorKind::ObjectKeyNotString, kstep.pos)
        },
        Ok(key_vm) => match key_vm {
            ValueModel::Text(key) => {
                let ct = spec_next_token(s, kstep.pos);
                match ct.tok {
                    None => step_err(ErrorKind::Eof, ct.pos),
                    Some(tok) => {
                        if tok.token_type != TokenType::Colon {
                            step_err(ErrorKind::MissingColon, ct.pos)
                        } else if ct.pos < pos {
                            step_err(ErrorKind::InvalidSyntax, pos)
                        } else {
                            let vstep = spec_parse_value(s, ct.pos, depth);
                            match vstep.res {
                                Err(_) => vstep,
                                Ok(v) => {
                                    let acc2 = upsert(acc, key, v);
                                    let cstep = spec_check(s, vstep.pos, false);
                                    match cstep.res {
                                        Err(k2) => step_err(k2, cstep.pos),
                                        Ok(true) => if !(pos < cstep.pos <= s.len()) {
                                            step_err(ErrorKind::InvalidSyntax, pos)
                                        } else {
                                            spec_parse_members(s, cstep.pos, depth, acc2)
                                        },
                                        Ok(false) => step_ok(ValueModel::Object(acc2), cstep.pos),
                                    }
                                },
                            }
                        }
                    },
                }
            },
            _ => step_err(ErrorKind::ObjectKeyNotString, kstep.pos),
        },
    }
}

/// An array body, entered with `[` consumed and the nesting level already
/// counted: too-deep nesting fails before any element is read; otherwise
/// leading whitespace is skipped and the element loop runs.
pub open spec fn spec_parse_array(s: Seq<char>, pos: int, depth: int) -> ParseStep
    decreases s.len() - pos, 3int,
        via spec_parse_array_dec
{
    if depth > crate::parser::MAX_DEPTH as int {
        step_err(ErrorKind::NestingTooDeep, pos)
    } else {
        spec_parse_elements(s, skip_ws_idx(s, pos), depth, Seq::empty())
    }
}

#[via_fn]
proof fn spec_parse_array_dec(s: Seq<char>, pos: int, depth: int) {
    lemma_skip_ws_ge(s, pos);
    if 0 <= pos <= s.len() {
        lemma_skip_ws_idx(s, pos);
    }
}

/// The array element loop, entered with whitespace already skipped: `]`
/// closes the array, a comma at element position is a missing value,
/// otherwise an element is parsed and the loop continues or closes as
/// `spec_check` decides. The cursor-sanity branch yielding `InvalidSyntax`
/// at `pos` is never reached: parsing never moves the cursor backwards
/// (`crate::laws::lemma_parse_value_progress`); it only makes the
/// recursion's termination measure evident.
pub open spec fn spec_parse_elements(
    s: Seq<char>,
    pos: int,
    depth: int,
    acc: Seq<ValueModel>,
) -> ParseStep
    decreases s.len() - pos, 2int,
{
    if 0 <= pos < s.len() && s[pos] == ']' {
        step_ok(ValueModel::Array(acc), pos + 1)
    } else if 0 <= pos < s.len() && s[pos] == ',' {
        step_err(ErrorKind::MissingValue, pos)
    } else {
        let vstep = spec_parse_value(s, pos, depth);
        match vstep.res {
            Err(_) => vstep,
            Ok(v) => {
                let cstep = spec_check(s, vstep.pos, true);
                match cstep.res {
                    Err(k) => step_err(k, cstep.pos),
                    Ok(true) => if !(pos < cstep.pos <= s.len()) {
                        step_err(ErrorKind::InvalidSyntax, pos)
                    } else {
                        spec_parse_elements(s, cstep.pos, depth, acc.push(v))
                    },
                    Ok(false) => step_ok(ValueModel::Array(acc.push(v)), cstep.pos),
                }
            },
        }
    }
}

/// The whole document: exactly one value, then only whitespace up to the
/// end of the input; any trailing non-whitespace is `InvalidSyntax`.
pub open spec fn spec_parse_root_at(s: Seq<char>, pos: int, depth: int) -> ParseStep {
    let st = spec_parse_value(s, pos, depth);
    match st.res {
        Err(_) => st,
        Ok(v) => {
            let q = skip_ws_idx(s, st.pos);
            if q < s.len() {
                step_err(ErrorKind::InvalidSyntax, q)
            } else {
                ParseStep { res: Ok(v), pos: q }
            }
        },
    }
}

/// The whole document, from the start of the input at nesting level zero:
/// what `Parser::new(text)` followed by `parse_root` produces.
pub open spec fn spec_parse_root(s: Seq<char>) -> ParseStep {
    spec_parse_root_at(s, 0, 0)
}

} // verus!
