//! Tests for the documented behaviours of the parser: the concrete
//! scenarios, the boundary cases (nesting depth, leading zero, empty
//! input), one input for each error kind the parser produces, and the
//! stability of parsing the same text twice.

use jimson::errors::ErrorKind;
use jimson::parser::{JsonValue, Parser, MAX_DEPTH};

fn parse_root(text: &str) -> Result<JsonValue, jimson::errors::JsonError> {
    Parser::new(text).unwrap().parse_root()
}

#[test]
fn scenario_empty_object() {
    assert_eq!(parse_root("{}").unwrap(), JsonValue::Object(vec![]));
}

#[test]
fn scenario_single_member_object() {
    assert_eq!(
        parse_root("{\"key\":\"value\"}").unwrap(),
        JsonValue::Object(vec![(String::from("key"), JsonValue::String(String::from("value")))])
    );
}

#[test]
fn scenario_trailing_comma_in_object() {
    assert_eq!(parse_root("{\"key\":\"value\",}").unwrap_err().kind, ErrorKind::TrailingComma);
}

#[test]
fn scenario_array_of_numbers() {
    // Numbers are kept as their source text; `1` denotes 1.0 and so on.
    assert_eq!(
        parse_root("[1,2,3]").unwrap(),
        JsonValue::Array(vec![
            JsonValue::Number(String::from("1")),
            JsonValue::Number(String::from("2")),
            JsonValue::Number(String::from("3")),
        ])
    );
}

#[test]
fn scenario_trailing_comma_line_number() {
    // The trailing comma stands on the second line; the error carries it.
    let err = parse_root("{\"a\":1,\n\"b\":2,}").unwrap_err();
    assert_eq!(err.kind, ErrorKind::TrailingComma);
    assert_eq!(err.line, Some(2));
}

#[test]
fn scenario_single_quoted_key() {
    assert_eq!(parse_root("{'a':1}").unwrap_err().kind, ErrorKind::SingleQuote);
}

#[test]
fn parse_is_deterministic_across_calls() {
    let text = "{\"a\": [1, true, null], \"b\": \"x\"}";
    let first = parse_root(text).unwrap();
    let second = parse_root(text).unwrap();
    assert_eq!(first, second);
}

#[test]
fn depth_at_maximum_parses() {
    let text = format!("{}{}", "[".repeat(MAX_DEPTH), "]".repeat(MAX_DEPTH));
    assert!(parse_root(&text).is_ok());
}

#[test]
fn depth_one_past_maximum_fails() {
    let text = format!("{}{}", "[".repeat(MAX_DEPTH + 1), "]".repeat(MAX_DEPTH + 1));
    assert_eq!(parse_root(&text).unwrap_err().kind, ErrorKind::NestingTooDeep);
}

#[test]
fn lone_zero_is_rejected() {
    // Stricter than RFC 8259: a numeric token may not begin with `0`.
    assert_eq!(parse_root("0").unwrap_err().kind, ErrorKind::NumberWithLeadingZero);
}

#[test]
fn empty_input_is_rejected_at_construction() {
    let err = Parser::new("").unwrap_err();
    assert_eq!(err.kind, ErrorKind::EmptyInput);
    assert_eq!(err.line, None);
}

#[test]
fn duplicate_keys_last_write_wins() {
    assert_eq!(
        parse_root("{\"a\":1,\"a\":2}").unwrap(),
        JsonValue::Object(vec![(String::from("a"), JsonValue::Number(String::from("2")))])
    );
}

#[test]
fn negative_and_fractional_numbers_keep_their_text() {
    assert_eq!(
        parse_root("[-1.5, -.5, 1.]").unwrap(),
        JsonValue::Array(vec![
            JsonValue::Number(String::from("-1.5")),
            JsonValue::Number(String::from("-.5")),
            JsonValue::Number(String::from("1.")),
        ])
    );
}

#[test]
fn number_with_two_dots_fails() {
    assert_eq!(parse_root("1.2.3").unwrap_err().kind, ErrorKind::ParseNumberError);
}

#[test]
fn bare_minus_fails() {
    assert_eq!(parse_root("-").unwrap_err().kind, ErrorKind::ParseNumberError);
}

#[test]
fn whitespace_inside_strings_is_kept() {
    assert_eq!(
        parse_root("{\"k\": \" v \"}").unwrap(),
        JsonValue::Object(vec![(String::from("k"), JsonValue::String(String::from(" v ")))])
    );
}

#[test]
fn missing_colon_is_reported() {
    assert_eq!(parse_root("{\"a\" 1}").unwrap_err().kind, ErrorKind::MissingColon);
}

#[test]
fn value_expected_at_end_of_input() {
    assert_eq!(parse_root("   ").unwrap_err().kind, ErrorKind::Eof);
}

#[test]
fn unclosed_object_is_reported() {
    assert_eq!(
        parse_root("{\"a\": 1").unwrap_err().kind,
        ErrorKind::UnclosedDelimiter(jimson::token::TokenType::Rbrace)
    );
}

#[test]
fn keywords_parse_to_their_values() {
    assert_eq!(
        parse_root("[true, false, null]").unwrap(),
        JsonValue::Array(vec![
            JsonValue::Boolean(true),
            JsonValue::Boolean(false),
            JsonValue::Null,
        ])
    );
}

#[test]
fn unterminated_string_yields_accumulated_content() {
    // The string scanner stops quietly at end of input; the root parse then
    // succeeds because nothing remains.
    assert_eq!(parse_root("\"abc").unwrap(), JsonValue::String(String::from("abc")));
}

#[test]
fn newline_inside_string_counts_toward_line_numbers() {
    let err = parse_root("{\"a\n b\": 1,}").unwrap_err();
    assert_eq!(err.kind, ErrorKind::TrailingComma);
    assert_eq!(err.line, Some(2));
}

#[test]
fn nested_structures_parse() {
    assert_eq!(
        parse_root("{\"a\": [1, {\"b\": []}]}").unwrap(),
        JsonValue::Object(vec![(
            String::from("a"),
            JsonValue::Array(vec![
                JsonValue::Number(String::from("1")),
                JsonValue::Object(vec![(String::from("b"), JsonValue::Array(vec![]))]),
            ]),
        )])
    );
}

#[test]
fn errors_render_with_their_line() {
    let err = parse_root("{\n\"key\": \"value\",\nkey2: \"value\"\n}").unwrap_err();
    assert_eq!(err.display_string(), String::from("error at line 3: object key must be string"));
    let err = Parser::new("").unwrap_err();
    assert_eq!(err.display_string(), String::from("error: empty input"));
}

#[test]
fn errors_render_multi_digit_lines() {
    let text = format!("[1,{}2,]", "\n".repeat(11));
    let err = parse_root(&text).unwrap_err();
    assert_eq!(err.display_string(), String::from("error at line 12: trailing comma"));
}

#[test]
fn trailing_value_after_document_fails() {
    assert_eq!(parse_root("{} {}").unwrap_err().kind, ErrorKind::InvalidSyntax);
    assert_eq!(parse_root("1 2").unwrap_err().kind, ErrorKind::InvalidSyntax);
    assert_eq!(parse_root("null,").unwrap_err().kind, ErrorKind::InvalidSyntax);
}
