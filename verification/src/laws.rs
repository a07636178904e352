//! General properties of the parser, stated and proved against the
//! reference functions of `crate::model` that every executable parsing
//! function's contract is pinned to.

use vstd::prelude::*;

use crate::errors::ErrorKind;
use crate::lexer::{lemma_skip_ws_idx, skip_ws_idx, spec_next_token};
use crate::model::{
    keys_unique, lemma_skip_ws_ge, lemma_upsert_wf, spec_check, spec_parse_array,
    spec_parse_elements, spec_parse_members, spec_parse_object, spec_parse_root, spec_parse_value,
    step_err, step_ok, upsert, value_wf, ParseStep, ValueModel,
};
use crate::parser::MAX_DEPTH;
use crate::token::TokenType;

verus! {

/// Every value the parser builds is well-formed: each object in it, at any
/// depth, has pairwise distinct keys — a later member with the same key
/// overwrote the earlier one rather than standing beside it.
pub proof fn lemma_parse_value_wf(s: Seq<char>, pos: int, depth: int)
    ensures
        spec_parse_value(s, pos, depth).res matches Ok(v) ==> value_wf(v),
    decreases s.len() - pos, 1int,
{
    let nt = spec_next_token(s, pos);
    match nt.tok {
        None => {},
        Some(tok) => match tok.token_type {
            TokenType::Lbrace => {
                lemma_skip_ws_ge(s, pos);
                lemma_parse_object_wf(s, nt.pos, depth + 1);
            },
            TokenType::LSqBracket => {
                lemma_skip_ws_ge(s, pos);
                lemma_parse_array_wf(s, nt.pos, depth + 1);
            },
            TokenType::Str => {
                lemma_parse_text_shape(s, nt.pos);
            },
            _ => {},
        },
    }
}

/// A successfully parsed string body is always a text value.
proof fn lemma_parse_text_shape(s: Seq<char>, pos: int)
    ensures
        crate::model::spec_parse_text(s, pos).res matches Ok(v) ==> v is Text,
    decreases s.len() - pos,
{
    if pos < 0 || pos >= s.len() {
    } else if s[pos] == '"' {
    } else if s[pos] == '\\' && pos + 1 < s.len() && s[pos + 1] == '\\' {
    } else {
        lemma_parse_text_shape(s, pos + 1);
    }
}

/// Objects: the member loop starts from the empty member list, which is
/// trivially unique-keyed.
proof fn lemma_parse_object_wf(s: Seq<char>, pos: int, depth: int)
    ensures
        spec_parse_object(s, pos, depth).res matches Ok(v) ==> value_wf(v),
    decreases s.len() - pos, 3int,
{
    if depth > MAX_DEPTH as int {
    } else if 0 <= pos < s.len() && s[pos] == '}' {
        assert(value_wf(ValueModel::Object(Seq::empty())));
    } else {
        lemma_parse_members_wf(s, pos, depth, Seq::empty());
    }
}

/// The member loop keeps its accumulator unique-keyed and its stored
/// values well-formed through every insertion.
proof fn lemma_parse_members_wf(
    s: Seq<char>,
    pos: int,
    depth: int,
    acc: Seq<(Seq<char>, ValueModel)>,
)
    requires
        keys_unique(acc),
        forall|i: int| 0 <= i < acc.len() ==> value_wf((#[trigger] acc[i]).1),
    ensures
        spec_parse_members(s, pos, depth, acc).res matches Ok(v) ==> value_wf(v),
    decreases s.len() - pos, 2int,
{
    let kstep = spec_parse_value(s, pos, depth);
    match kstep.res {
        Err(_) => {},
        Ok(key_vm) => match key_vm {
            ValueModel::Text(key) => {
                let ct = spec_next_token(s, kstep.pos);
                match ct.tok {
                    None => {},
                    Some(tok) => {
                        if tok.token_type != TokenType::Colon {
                        } else if ct.pos < pos {
                        } else {
                            lemma_parse_value_wf(s, ct.pos, depth);
                            let vstep = spec_parse_value(s, ct.pos, depth);
                            match vstep.res {
                                Err(_) => {},
                                Ok(v) => {
                                    lemma_upsert_wf(acc, key, v);
                                    let acc2 = upsert(acc, key, v);
                                    let cstep = spec_check(s, vstep.pos, false);
                                    match cstep.res {
                                        Err(_) => {},
                                        Ok(true) => {
                                            if pos < cstep.pos <= s.len() {
                                                lemma_parse_members_wf(s, cstep.pos, depth, acc2);
                                            }
                                        },
                                        Ok(false) => {
                                            assert(value_wf(ValueModel::Object(acc2)));
                                        },
                                    }
                                },
                            }
                        }
                    },
                }
            },
            _ => {},
        },
    }
}

/// Arrays: the element loop starts from the empty element list.
proof fn lemma_parse_array_wf(s: Seq<char>, pos: int, depth: int)
    ensures
        spec_parse_array(s, pos, depth).res matches Ok(v) ==> value_wf(v),
    decreases s.len() - pos, 3int,
{
    if depth > MAX_DEPTH as int {
    } else {
        lemma_skip_ws_ge(s, pos);
        if 0 <= pos <= s.len() {
            lemma_skip_ws_idx(s, pos);
        }
        lemma_parse_elements_wf(s, skip_ws_idx(s, pos), depth, Seq::empty());
    }
}

/// The element loop keeps every accumulated element well-formed.
proof fn lemma_parse_elements_wf(s: Seq<char>, pos: int, depth: int, acc: Seq<ValueModel>)
    requires
        forall|i: int| 0 <= i < acc.len() ==> value_wf(#[trigger] acc[i]),
    ensures
        spec_parse_elements(s, pos, depth, acc).res matches Ok(v) ==> value_wf(v),
    decreases s.len() - pos, 2int,
{
    if 0 <= pos < s.len() && s[pos] == ']' {
        assert(value_wf(ValueModel::Array(acc)));
    } else if 0 <= pos < s.len() && s[pos] == ',' {
    } else {
        lemma_parse_value_wf(s, pos, depth);
        let vstep = spec_parse_value(s, pos, depth);
        match vstep.res {
            Err(_) => {},
            Ok(v) => {
                let cstep = spec_check(s, vstep.pos, true);
                match cstep.res {
                    Err(_) => {},
                    Ok(true) => {
                        if pos < cstep.pos <= s.len() {
                            lemma_parse_elements_wf(s, cstep.pos, depth, acc.push(v));
                        }
                    },
                    Ok(false) => {
                        assert(value_wf(ValueModel::Array(acc.push(v))));
                    },
                }
            },
        }
    }
}

/// The whole-document form of the well-formedness law.
pub proof fn lemma_parse_root_wf(s: Seq<char>)
    ensures
        spec_parse_root(s).res matches Ok(v) ==> value_wf(v),
{
    lemma_parse_value_wf(s, 0, 0);
}

/// The cursor only moves forward: whatever a value parse returns, the
/// position it reports lies at or past the one it started from. The
/// cursor-sanity branches of the member and element loops are therefore
/// never reached.
pub proof fn lemma_parse_value_progress(s: Seq<char>, pos: int, depth: int)
    ensures
        spec_parse_value(s, pos, depth).pos >= pos,
    decreases s.len() - pos, 1int,
{
    lemma_skip_ws_ge(s, pos);
    let nt = spec_next_token(s, pos);
    match nt.tok {
        None => {},
        Some(tok) => match tok.token_type {
            TokenType::Lbrace => {
                lemma_parse_object_progress(s, nt.pos, depth + 1);
            },
            TokenType::LSqBracket => {
                lemma_parse_array_progress(s, nt.pos, depth + 1);
            },
            TokenType::Str => {
                lemma_parse_text_progress(s, nt.pos);
            },
            TokenType::Digit => {
                lemma_num_end_ge(s, nt.pos);
            },
            TokenType::Character(c) => {
                if c == '-' {
                    lemma_num_end_ge(s, nt.pos);
                } else if c == 'n' {
                    lemma_read_keyword_progress(s, nt.pos, "ull"@, 0);
                } else if c == 't' {
                    lemma_read_keyword_progress(s, nt.pos, "rue"@, 0);
                } else if c == 'f' {
                    lemma_read_keyword_progress(s, nt.pos, "alse"@, 0);
                }
            },
            _ => {},
        },
    }
}

/// A string body never moves the cursor backwards.
proof fn lemma_parse_text_progress(s: Seq<char>, pos: int)
    ensures
        crate::model::spec_parse_text(s, pos).pos >= pos,
    decreases s.len() - pos,
{
    if pos < 0 || pos >= s.len() {
    } else if s[pos] == '"' {
    } else if s[pos] == '\\' && pos + 1 < s.len() && s[pos + 1] == '\\' {
    } else {
        lemma_parse_text_progress(s, pos + 1);
    }
}

/// The numeric scan never moves the cursor backwards.
proof fn lemma_num_end_ge(s: Seq<char>, pos: int)
    ensures
        crate::lexer::num_end(s, pos) >= pos,
    decreases s.len() - pos,
{
    if pos < s.len() && 0 <= pos && crate::lexer::is_num_char(s[pos]) {
        lemma_num_end_ge(s, pos + 1);
    }
}

/// Keyword reading never moves the cursor backwards.
proof fn lemma_read_keyword_progress(s: Seq<char>, pos: int, kw: Seq<char>, j: int)
    ensures
        crate::model::spec_read_keyword(s, pos, kw, j).pos >= pos,
    decreases kw.len() - j,
{
    if j >= kw.len() {
    } else if pos < 0 || pos >= s.len() {
    } else if s[pos] == kw[j] {
        lemma_read_keyword_progress(s, pos + 1, kw, j + 1);
    }
}

/// An object body never moves the cursor backwards.
proof fn lemma_parse_object_progress(s: Seq<char>, pos: int, depth: int)
    ensures
        spec_parse_object(s, pos, depth).pos >= pos,
    decreases s.len() - pos, 3int,
{
    if depth > MAX_DEPTH as int {
    } else if 0 <= pos < s.len() && s[pos] == '}' {
    } else {
        lemma_parse_members_progress(s, pos, depth, Seq::empty());
    }
}

/// The member loop never moves the cursor backwards.
proof fn lemma_parse_members_progress(
    s: Seq<char>,
    pos: int,
    depth: int,
    acc: Seq<(Seq<char>, ValueModel)>,
)
    ensures
        spec_parse_members(s, pos, depth, acc).pos >= pos,
    decreases s.len() - pos, 2int,
{
    lemma_parse_value_progress(s, pos, depth);
    let kstep = spec_parse_value(s, pos, depth);
    match kstep.res {
        Err(_) => {},
        Ok(key_vm) => match key_vm {
            ValueModel::Text(key) => {
                lemma_skip_ws_ge(s, kstep.pos);
                let ct = spec_next_token(s, kstep.pos);
                match ct.tok {
                    None => {},
                    Some(tok) => {
                        if tok.token_type != TokenType::Colon {
                        } else if ct.pos < pos {
                        } else {
                            lemma_parse_value_progress(s, ct.pos, depth);
                            let vstep = spec_parse_value(s, ct.pos, depth);
                            match vstep.res {
                                Err(_) => {},
                                Ok(v) => {
                                    lemma_check_progress(s, vstep.pos, false);
                                    let cstep = spec_check(s, vstep.pos, false);
                                    match cstep.res {
                                        Err(_) => {},
                                        Ok(true) => {
                                            if pos < cstep.pos <= s.len() {
                                                lemma_parse_members_progress(
                                                    s,
                                                    cstep.pos,
                                                    depth,
                                                    upsert(acc, key, v),
                                                );
                                            }
                                        },
                                        Ok(false) => {},
                                    }
                                },
                            }
                        }
                    },
                }
            },
            _ => {},
        },
    }
}

/// The continue/break decision never moves the cursor backwards.
proof fn lemma_check_progress(s: Seq<char>, pos: int, in_array: bool)
    ensures
        spec_check(s, pos, in_array).pos >= pos,
{
    lemma_skip_ws_ge(s, pos);
    let nt = spec_next_token(s, pos);
    match nt.tok {
        None => {},
        Some(tok) => match tok.token_type {
            TokenType::Comma => {
                lemma_skip_ws_ge(s, nt.pos);
            },
            _ => {},
        },
    }
}

/// An array body never moves the cursor backwards.
proof fn lemma_parse_array_progress(s: Seq<char>, pos: int, depth: int)
    ensures
        spec_parse_array(s, pos, depth).pos >= pos,
    decreases s.len() - pos, 3int,
{
    if depth > MAX_DEPTH as int {
    } else {
        lemma_skip_ws_ge(s, pos);
        if 0 <= pos <= s.len() {
            lemma_skip_ws_idx(s, pos);
        }
        lemma_parse_elements_progress(s, skip_ws_idx(s, pos), depth, Seq::empty());
    }
}

/// The element loop never moves the cursor backwards.
proof fn lemma_parse_elements_progress(s: Seq<char>, pos: int, depth: int, acc: Seq<ValueModel>)
    ensures
        spec_parse_elements(s, pos, depth, acc).pos >= pos,
    decreases s.len() - pos, 2int,
{
    if 0 <= pos < s.len() && s[pos] == ']' {
    } else if 0 <= pos < s.len() && s[pos] == ',' {
    } else {
        lemma_parse_value_progress(s, pos, depth);
        let vstep = spec_parse_value(s, pos, depth);
        match vstep.res {
            Err(_) => {},
            Ok(v) => {
                lemma_check_progress(s, vstep.pos, true);
                let cstep = spec_check(s, vstep.pos, true);
                match cstep.res {
                    Err(_) => {},
                    Ok(true) => {
                        if pos < cstep.pos <= s.len() {
                            lemma_parse_elements_progress(s, cstep.pos, depth, acc.push(v));
                        }
                    },
                    Ok(false) => {},
                }
            },
        }
    }
}

/// The document made of `d` opening brackets followed by `d` closing
/// brackets: an array nested exactly `d` levels deep.
pub open spec fn nested_brackets(d: int) -> Seq<char> {
    Seq::new((2 * d) as nat, |i: int| if i < d { '[' } else { ']' })
}

/// The value that document denotes: arrays nested `k` levels deep with the
/// empty array innermost.
pub open spec fn nested_array_value(k: int) -> ValueModel
    decreases k,
{
    if k <= 1 {
        ValueModel::Array(Seq::empty())
    } else {
        ValueModel::Array(seq![nested_array_value(k - 1)])
    }
}

/// Parsing the nested-bracket document from position `j` (with `j` levels
/// already open): within the depth bound it yields the remaining nesting
/// and stops after the matching closers; one level over the bound it fails
/// with `NestingTooDeep`, found just past the deepest opener.
proof fn lemma_nested_parse(d: int, j: int)
    requires
        1 <= d <= MAX_DEPTH + 1,
        0 <= j < d,
    ensures
        d <= MAX_DEPTH ==> spec_parse_value(nested_brackets(d), j, j) == step_ok(
            nested_array_value(d - j),
            2 * d - j,
        ),
        d == MAX_DEPTH + 1 ==> spec_parse_value(nested_brackets(d), j, j) == step_err(
            ErrorKind::NestingTooDeep,
            MAX_DEPTH as int + 1,
        ),
    decreases d - j,
{
    let s = nested_brackets(d);
    assert(s[j] == '[');
    assert(skip_ws_idx(s, j) == j);
    assert(skip_ws_idx(s, j + 1) == j + 1);
    if j + 1 < d {
        assert(s[j + 1] == '[');
        lemma_nested_parse(d, j + 1);
        if d <= MAX_DEPTH {
            let inner = nested_array_value(d - j - 1);
            assert(s[2 * d - j - 1] == ']');
            assert(skip_ws_idx(s, 2 * d - j - 1) == 2 * d - j - 1);
            assert(Seq::<ValueModel>::empty().push(inner) =~= seq![inner]);
            assert(spec_parse_value(s, j, j) == step_ok(nested_array_value(d - j), 2 * d - j));
        } else {
            assert(spec_parse_value(s, j, j) == step_err(
                ErrorKind::NestingTooDeep,
                MAX_DEPTH as int + 1,
            ));
        }
    } else {
        assert(j + 1 == d);
        if d <= MAX_DEPTH {
            assert(s[d] == ']');
            assert(spec_parse_value(s, j, j) == step_ok(nested_array_value(1), d + 1));
        } else {
            assert(spec_parse_value(s, j, j) == step_err(
                ErrorKind::NestingTooDeep,
                MAX_DEPTH as int + 1,
            ));
        }
    }
}

/// Depth boundary: an array nested exactly at the configured maximum depth
/// parses successfully; one level deeper fails with `NestingTooDeep`.
pub proof fn lemma_depth_boundary()
    ensures
        spec_parse_root(nested_brackets(MAX_DEPTH as int)).res == Ok::<
            ValueModel,
            ErrorKind,
        >(nested_array_value(MAX_DEPTH as int)),
        spec_parse_root(nested_brackets(MAX_DEPTH as int + 1)).res == Err::<
            ValueModel,
            ErrorKind,
        >(ErrorKind::NestingTooDeep),
{
    lemma_nested_parse(MAX_DEPTH as int, 0);
    lemma_nested_parse(MAX_DEPTH as int + 1, 0);
    assert(skip_ws_idx(nested_brackets(MAX_DEPTH as int), 2 * (MAX_DEPTH as int)) == 2 * (
    MAX_DEPTH as int));
}

/// A well-formed document followed by anything but whitespace — a comma,
/// another value, any stray character — makes the whole parse fail with
/// `InvalidSyntax`: the root production demands that nothing but whitespace
/// remain after the one value it parses.
pub proof fn lemma_trailing_content_rejected(s: Seq<char>)
    requires
        spec_parse_value(s, 0, 0).res is Ok,
        skip_ws_idx(s, spec_parse_value(s, 0, 0).pos) < s.len(),
    ensures
        spec_parse_root(s) == step_err(
            ErrorKind::InvalidSyntax,
            skip_ws_idx(s, spec_parse_value(s, 0, 0).pos),
        ),
{
}

/// Parsing is deterministic and keeps no hidden state between calls: the
/// outcome `parse_root` promises is a function of the input text alone, so
/// any two results tied to the same text by that contract are equal.
pub proof fn lemma_parse_root_deterministic(s: Seq<char>, r1: ParseStep, r2: ParseStep)
    requires
        r1 == spec_parse_root(s),
        r2 == spec_parse_root(s),
    ensures
        r1 == r2,
{
}

} // verus!
