use jimson::parser::{JsonValue, Parser};

#[test]
fn create_a_new_parser_for_valid_json() {
    let json_parser = Parser::new("{}");
    assert!(json_parser.is_ok());
}

#[test]
fn create_a_new_parser_for_empty_json() {
    let json_parser = Parser::new("");
    assert!(json_parser.is_err());
    assert_eq!(json_parser.unwrap_err().message(), String::from("empty input"));
}

#[test]
fn parse_valid_json_containing_an_empty_object() {
    let mut json_parser = Parser::new("{}").unwrap();
    let result = json_parser.parse();
    let JsonValue::Object(store) = result.unwrap() else {
        unreachable!()
    };
    assert!(store.is_empty());
}

#[test]
fn parse_valid_json_object_with_single_string_key_val_pair() {
    let mut json_parser = Parser::new("{\"key\": \"value\"}").unwrap();
    let result = json_parser.parse();
    assert!(result.is_ok());
    let JsonValue::Object(store) = result.unwrap() else {
        unreachable!()
    };
    assert_eq!(store.len(), 1);
    let expected_value = JsonValue::String(String::from("value"));
    let expected_key = String::from("key");
    let (result_key, result_value) = &store[0];
    assert_eq!(&expected_value, result_value);
    assert_eq!(&expected_key, result_key);
}

#[test]
fn parse_invalid_json_object_with_trailing_comma() {
    let mut json_parser = Parser::new("{\"key\": \"value\",}").unwrap();
    let result = json_parser.parse();
    assert!(result.is_err());
}

#[test]
fn parse_valid_json_object_with_multiple_string_key_val_pairs() {
    let mut json_parser = Parser::new("{\n\"key\": \"value\",\n\"key2\": \"value2\"\n}").unwrap();
    let result = json_parser.parse();
    assert!(result.is_ok());

    let JsonValue::Object(store) = result.unwrap() else {
        unreachable!()
    };
    assert_eq!(store.len(), 2);

    let expected_value = JsonValue::String(String::from("value2"));
    let expected_key = String::from("key2");
    let (result_key, result_value) = &store[1];
    assert_eq!(&expected_value, result_value);
    assert_eq!(&expected_key, result_key);
}

#[test]
fn parse_invalid_json_object_with_one_nonstring_key() {
    let mut json_parser = Parser::new("{\n\"key\": \"value\",\nkey2: \"value\"\n}").unwrap();
    let result = json_parser.parse().unwrap_err();
    assert_eq!(result.line, Some(3));
    assert_eq!(result.message(), "object key must be string".to_string());
}

#[test]
fn parse_invalid_json_object_with_missing_brace_or_comma() {
    let mut json_parser = Parser::new("{\n\"key\": \"value\"").unwrap();
    let result = json_parser.parse().unwrap_err();
    assert_eq!(result.line, Some(2));
    assert_eq!(result.message(), "expected curly brace or comma".to_string());
}

#[test]
fn parse_valid_json_object_with_null_value() {
    let mut json_parser = Parser::new("{\"key\": null}").unwrap();
    let result = json_parser.parse();
    assert!(result.is_ok());
}

#[test]
fn parse_valid_json_object_with_null_and_boolean_values() {
    let mut json_parser = Parser::new(
        "{\n\"key1\": true,\n\"key2\": false,\n\"key3\": null\n}",
    ).unwrap();
    let result = json_parser.parse();
    assert!(result.is_ok());
}

#[test]
fn parse_invalid_json_object_with_invalid_boolean_value() {
    let mut json_parser = Parser::new("{\n\"key1\": true,\n\"key2\": falze\n}").unwrap();
    let result = json_parser.parse().unwrap_err();
    assert_eq!(result.line, Some(3));
    assert_eq!(result.message(), "invalid syntax".to_string());
}

#[test]
fn parse_valid_json_object_with_numbers() {
    let mut json_parser = Parser::new("{\"key\": 101, \"temp\": 21.4}").unwrap();
    let result = json_parser.parse();
    println!("{result:?}");
    assert!(result.is_ok());
}
