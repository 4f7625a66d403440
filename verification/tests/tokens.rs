use c_preprocessor::token::{Kind, Token};

#[test]
fn named_tokens_have_their_texts() {
    assert_eq!(Token::new_line(), Token(Kind::NewLine, "new-line".to_string()));
    assert_eq!(Token::left_parenthesis(), Token(Kind::Symbol, "(".to_string()));
    assert_eq!(Token::right_parenthesis(), Token(Kind::Symbol, ")".to_string()));
    assert_eq!(Token::hash(), Token(Kind::Symbol, "#".to_string()));
    assert_eq!(Token::comma(), Token(Kind::Symbol, ",".to_string()));
    assert_eq!(Token::semicolon(), Token(Kind::Symbol, ";".to_string()));
    assert_eq!(Token::forward_slash(), Token(Kind::Symbol, "/".to_string()));
    assert_eq!(Token::forward_slash_asterix(), Token(Kind::Symbol, "/*".to_string()));
    assert_eq!(Token::asterix_forward_slash(), Token(Kind::Symbol, "*/".to_string()));
    assert_eq!(Token::forward_slash_slash(), Token(Kind::Symbol, "//".to_string()));
    assert_eq!(Token::asterix(), Token(Kind::Symbol, "*".to_string()));
    assert_eq!(Token::define(), Token(Kind::Word, "define".to_string()));
}

#[test]
fn tokens_are_equal_when_kind_and_text_are() {
    let word = Token(Kind::Word, "x".to_string());
    assert_eq!(word, Token(Kind::Word, "x".to_string()));
    assert_ne!(word, Token(Kind::Symbol, "x".to_string()));
    assert_ne!(word, Token(Kind::Word, "y".to_string()));
    assert_eq!(word.clone(), word);
}

#[test]
fn token_gives_its_text_and_kind() {
    let literal = Token(Kind::IntegerLiteral, "0x10".to_string());
    assert_eq!(literal.value(), "0x10");
    assert_eq!(literal.to_string(), "0x10");
    assert!(literal.is(Kind::IntegerLiteral));
    assert!(!literal.is(Kind::Word));
    assert_eq!(literal.move_value(), "0x10".to_string());
}

#[test]
fn kinds_have_their_names() {
    assert_eq!(Kind::Symbol.to_string(), "symbol");
    assert_eq!(Kind::Word.to_string(), "word");
    assert_eq!(Kind::IntegerLiteral.to_string(), "integer");
    assert_eq!(Kind::StringLiteral.to_string(), "string");
    assert_eq!(Kind::NewLine.to_string(), "new line");
}
