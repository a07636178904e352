use jimson::lexer::Lexer;
use jimson::token::{Token, TokenType};

#[test]
fn test_valid_json_with_empty_object() {
    let json = "{}";
    let mut lexer = Lexer::new(json).unwrap();

    let expected = vec![
        Token { token_type: TokenType::Lbrace },
        Token { token_type: TokenType::Rbrace },
    ];

    for expected_token in expected {
        if let Some(result_token) = lexer.next_token() {
            assert_eq!(result_token, expected_token);
        }
    }
    assert!(!json.is_empty());
}

#[test]
fn test_invalid_json_file_empty() {
    let json = "";
    assert!(Lexer::new(json).is_err());
}

#[test]
fn test_valid_json_file_with_string_keys_and_values() {
    let json = "{\"key\": \"value\"}";
    let mut lexer = Lexer::new(json).unwrap();

    let expected = vec![
        Token { token_type: TokenType::Lbrace },
        Token { token_type: TokenType::Str },
        Token { token_type: TokenType::Character('k') },
        Token { token_type: TokenType::Character('e') },
        Token { token_type: TokenType::Character('y') },
        Token { token_type: TokenType::Str },
        Token { token_type: TokenType::Colon },
        Token { token_type: TokenType::Str },
        Token { token_type: TokenType::Character('v') },
        Token { token_type: TokenType::Character('a') },
        Token { token_type: TokenType::Character('l') },
        Token { token_type: TokenType::Character('u') },
        Token { token_type: TokenType::Character('e') },
        Token { token_type: TokenType::Str },
        Token { token_type: TokenType::Rbrace },
    ];
    for expected_token in expected {
        if let Some(result_token) = lexer.next_token() {
            assert_eq!(result_token, expected_token);
        }
    }
}

#[test]
fn test_valid_json_file_with_multiple_string_keys_and_values() {
    let json = "{\n\"key\": \"value\",\n\"keyb\": \"value\"\n}";
    let mut lexer = Lexer::new(json).unwrap();

    let expected = vec![
        Token { token_type: TokenType::Lbrace },
        Token { token_type: TokenType::Str },
        Token { token_type: TokenType::Character('k') },
        Token { token_type: TokenType::Character('e') },
        Token { token_type: TokenType::Character('y') },
        Token { token_type: TokenType::Str },
        Token { token_type: TokenType::Colon },
        Token { token_type: TokenType::Str },
        Token { token_type: TokenType::Character('v') },
        Token { token_type: TokenType::Character('a') },
        Token { token_type: TokenType::Character('l') },
        Token { token_type: TokenType::Character('u') },
        Token { token_type: TokenType::Character('e') },
        Token { token_type: TokenType::Str },
        Token { token_type: TokenType::Comma },
        Token { token_type: TokenType::Str },
        Token { token_type: TokenType::Character('k') },
        Token { token_type: TokenType::Character('e') },
        Token { token_type: TokenType::Character('y') },
        Token { token_type: TokenType::Character('b') },
        Token { token_type: TokenType::Str },
        Token { token_type: TokenType::Colon },
        Token { token_type: TokenType::Str },
        Token { token_type: TokenType::Character('v') },
        Token { token_type: TokenType::Character('a') },
        Token { token_type: TokenType::Character('l') },
        Token { token_type: TokenType::Character('u') },
        Token { token_type: TokenType::Character('e') },
        Token { token_type: TokenType::Str },
        Token { token_type: TokenType::Rbrace },
    ];
    for expected_token in expected {
        if let Some(result_token) = lexer.next_token() {
            assert_eq!(result_token, expected_token);
        }
    }
}
