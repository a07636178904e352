use jimson::errors::{ErrorKind, JsonError};
use jimson::parser::{JsonValue, Parser};
use jimson::token::TokenType;

#[test]
fn prepare_test_data_invalids() {
    let cases: Vec<(&str, ErrorKind)> = vec![
        ("[1, 2", ErrorKind::UnclosedDelimiter(TokenType::RSqbracket)),
        ("{1: 2}", ErrorKind::ObjectKeyNotString),
        ("{\"a\": 1,}", ErrorKind::TrailingComma),
        ("[1, 2,]", ErrorKind::TrailingComma),
        ("[1,,2]", ErrorKind::MissingValue),
        ("x", ErrorKind::InvalidSyntax),
        ("truth", ErrorKind::InvalidSyntax),
        ("{\"a\": {\"b\": 2,}}", ErrorKind::TrailingComma),
        ("nul", ErrorKind::InvalidSyntax),
        ("[1}", ErrorKind::InvalidSyntax),
        ("{\"a\": 1} 2", ErrorKind::InvalidSyntax),
        ("0", ErrorKind::NumberWithLeadingZero),
        ("{\"a\": 0123}", ErrorKind::NumberWithLeadingZero),
        ("\"a\\\\b\"", ErrorKind::InvalidBackslashEscape),
    ];

    for (test_data, expected) in cases.iter() {
        let parser = parse_test_json(test_data);
        assert_eq!(&parser.unwrap_err().kind, expected);
    }
}

fn parse_test_json(j: &str) -> Result<JsonValue, JsonError> {
    let mut parser = Parser::new(j).unwrap();
    parser.parse_root()
}
