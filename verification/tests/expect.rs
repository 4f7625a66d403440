use c_preprocessor::token::expect;
use c_preprocessor::token::{Kind, Token};

fn word(text: &str) -> Token {
    Token(Kind::Word, text.to_string())
}

fn some(token: Token) -> Option<Result<Token, String>> {
    Some(Ok(token))
}

fn lexical_error() -> Option<Result<Token, String>> {
    Some(Err("unknown token".to_string()))
}

#[test]
fn something_hands_the_item_on() {
    assert_eq!(expect::something(some(word("a"))), Ok(word("a")));
    assert_eq!(expect::something(lexical_error()), Err("unknown token".to_string()));
    assert_eq!(expect::something(None), Err("unexpected end of input".to_string()));
}

#[test]
fn token_checks_for_equality() {
    assert_eq!(expect::token(some(Token::comma()), &Token::comma()), Ok(Token::comma()));
    assert_eq!(
        expect::token(some(Token::hash()), &Token::comma()),
        Err("expected ,".to_string())
    );
    assert_eq!(
        expect::token(some(Token(Kind::Word, ",".to_string())), &Token::comma()),
        Err("expected ,".to_string())
    );
    assert_eq!(expect::token(None, &Token::new_line()), Err("expected new-line".to_string()));
    assert_eq!(
        expect::token(lexical_error(), &Token::comma()),
        Err("unknown token".to_string())
    );
}

#[test]
fn kind_checks_the_kind() {
    assert_eq!(expect::kind(some(word("a")), Kind::Word), Ok(word("a")));
    assert_eq!(
        expect::kind(some(word("a")), Kind::IntegerLiteral),
        Err("expected integer".to_string())
    );
    assert_eq!(expect::kind(None, Kind::Symbol), Err("expected symbol".to_string()));
    assert_eq!(expect::kind(None, Kind::StringLiteral), Err("expected string".to_string()));
    assert_eq!(expect::kind(None, Kind::NewLine), Err("expected new line".to_string()));
    assert_eq!(expect::kind(lexical_error(), Kind::Word), Err("unknown token".to_string()));
}

#[test]
fn kinds_checks_for_one_of_the_kinds() {
    let expected = vec![Kind::Symbol, Kind::Word];
    assert_eq!(expect::kinds(some(word("a")), &expected), Ok(word("a")));
    assert_eq!(expect::kinds(some(Token::hash()), &expected), Ok(Token::hash()));
    assert_eq!(
        expect::kinds(some(Token::new_line()), &expected),
        Err("expected one of: symbol, word".to_string())
    );
    assert_eq!(
        expect::kinds(None, &expected),
        Err("expected one of: symbol, word".to_string())
    );
    assert_eq!(expect::kinds(lexical_error(), &expected), Err("unknown token".to_string()));
    assert_eq!(
        expect::kinds(some(word("a")), &Vec::new()),
        Err("expected one of: ".to_string())
    );
}

#[test]
fn one_of_checks_for_one_of_the_tokens() {
    let expected = vec![Token::comma(), Token::right_parenthesis(), Token::define()];
    assert_eq!(expect::one_of(some(Token::comma()), &expected), Ok(Token::comma()));
    assert_eq!(expect::one_of(some(Token::define()), &expected), Ok(Token::define()));
    assert_eq!(
        expect::one_of(some(word("a")), &expected),
        Err("expected one of: ,, ), define".to_string())
    );
    assert_eq!(
        expect::one_of(None, &expected),
        Err("expected one of: ,, ), define".to_string())
    );
    assert_eq!(expect::one_of(lexical_error(), &expected), Err("unknown token".to_string()));
    assert_eq!(
        expect::one_of(some(word("a")), &vec![Token::hash()]),
        Err("expected one of: #".to_string())
    );
}

#[test]
fn asserting_forms_take_the_token() {
    assert_eq!(expect::assert_something(some(word("a"))), word("a"));
    assert_eq!(expect::assert_token(some(Token::hash()), &Token::hash()), Token::hash());
    assert_eq!(expect::assert_kind(some(word("a")), Kind::Word), word("a"));
    assert_eq!(
        expect::assert_kinds(some(word("a")), &vec![Kind::Symbol, Kind::Word]),
        word("a")
    );
    assert_eq!(
        expect::assert_one_of(some(Token::comma()), &vec![Token::hash(), Token::comma()]),
        Token::comma()
    );
}
