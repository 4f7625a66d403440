use c_preprocessor::token::{Kind, Token, Tokenizer};

fn tokenize(text: &str) -> Vec<Result<Token, String>> {
    let mut tokenizer = Tokenizer::new(text.chars().collect());
    let mut items = Vec::new();
    while let Some(item) = tokenizer.next() {
        let failed = item.is_err();
        items.push(item);
        if failed {
            break;
        }
    }
    items
}

fn tokens(text: &str) -> Vec<Token> {
    tokenize(text).into_iter().map(|item| item.unwrap()).collect()
}

fn tok(kind: Kind, text: &str) -> Token {
    Token(kind, text.to_string())
}

#[test]
fn define_line_is_cut_into_five_tokens() {
    assert_eq!(
        tokens("#define X 1"),
        vec![
            tok(Kind::Symbol, "#"),
            tok(Kind::Word, "define"),
            tok(Kind::Word, "X"),
            tok(Kind::IntegerLiteral, "1"),
            Token::new_line(),
        ]
    );
}

#[test]
fn empty_text_gives_one_new_line() {
    assert_eq!(tokens(""), vec![Token::new_line()]);
    assert_eq!(tokens("   \t "), vec![Token::new_line()]);
}

#[test]
fn the_closing_new_line_comes_once() {
    let mut tokenizer = Tokenizer::new("a".chars().collect());
    assert_eq!(tokenizer.next(), Some(Ok(tok(Kind::Word, "a"))));
    assert_eq!(tokenizer.next(), Some(Ok(Token::new_line())));
    assert_eq!(tokenizer.next(), None);
    assert_eq!(tokenizer.next(), None);
    assert_eq!(tokenizer.peek(), None);
}

#[test]
fn trailing_new_line_is_followed_by_the_closing_one() {
    assert_eq!(
        tokens("a\n"),
        vec![tok(Kind::Word, "a"), Token::new_line(), Token::new_line()]
    );
}

#[test]
fn peek_is_idempotent() {
    let mut tokenizer = Tokenizer::new("abc += 12".chars().collect());
    let first = tokenizer.peek();
    assert_eq!(first, Some(Ok(tok(Kind::Word, "abc"))));
    assert_eq!(tokenizer.peek(), first);
    assert_eq!(tokenizer.peek(), first);
    assert_eq!(tokenizer.next(), first);
    assert_eq!(tokenizer.peek(), Some(Ok(tok(Kind::Symbol, "+="))));
    assert_eq!(tokenizer.next(), Some(Ok(tok(Kind::Symbol, "+="))));
    assert_eq!(tokenizer.next(), Some(Ok(tok(Kind::IntegerLiteral, "12"))));
}

#[test]
fn peek_at_the_end_does_not_lose_the_closing_new_line() {
    let mut tokenizer = Tokenizer::new("".chars().collect());
    assert_eq!(tokenizer.peek(), Some(Ok(Token::new_line())));
    assert_eq!(tokenizer.peek(), Some(Ok(Token::new_line())));
    assert_eq!(tokenizer.next(), Some(Ok(Token::new_line())));
    assert_eq!(tokenizer.peek(), None);
    assert_eq!(tokenizer.next(), None);
}

#[test]
fn peek_n_looks_ahead_without_taking() {
    let mut tokenizer = Tokenizer::new("a b c".chars().collect());
    assert_eq!(tokenizer.peek_n(2), Some(Ok(tok(Kind::Word, "c"))));
    assert_eq!(tokenizer.peek_n(0), Some(Ok(tok(Kind::Word, "a"))));
    assert_eq!(tokenizer.peek_n(1), Some(Ok(tok(Kind::Word, "b"))));
    assert_eq!(tokenizer.peek_n(3), Some(Ok(Token::new_line())));
    assert_eq!(tokenizer.peek_n(4), None);
    assert_eq!(tokenizer.peek_n(usize::MAX), None);
    assert_eq!(tokenizer.next(), Some(Ok(tok(Kind::Word, "a"))));
    assert_eq!(tokenizer.next(), Some(Ok(tok(Kind::Word, "b"))));
    assert_eq!(tokenizer.next(), Some(Ok(tok(Kind::Word, "c"))));
    assert_eq!(tokenizer.next(), Some(Ok(Token::new_line())));
    assert_eq!(tokenizer.next(), None);
}

#[test]
fn peek_n_past_a_lexical_error_keeps_the_tokens_before_it() {
    let mut tokenizer = Tokenizer::new("a b @".chars().collect());
    assert_eq!(tokenizer.peek_n(2), Some(Err("unknown token".to_string())));
    assert_eq!(tokenizer.peek_n(5), Some(Err("unknown token".to_string())));
    assert_eq!(tokenizer.next(), Some(Ok(tok(Kind::Word, "a"))));
    assert_eq!(tokenizer.next(), Some(Ok(tok(Kind::Word, "b"))));
    assert_eq!(tokenizer.next(), Some(Err("unknown token".to_string())));
    assert_eq!(tokenizer.next(), Some(Err("unknown token".to_string())));
}

#[test]
fn eat_drops_one_token() {
    let mut tokenizer = Tokenizer::new("a b".chars().collect());
    tokenizer.eat();
    assert_eq!(tokenizer.next(), Some(Ok(tok(Kind::Word, "b"))));
    tokenizer.eat();
    tokenizer.eat();
    assert_eq!(tokenizer.next(), None);
}

#[test]
fn maximal_munch_takes_the_longer_symbol() {
    assert_eq!(tokens("+="), vec![tok(Kind::Symbol, "+="), Token::new_line()]);
    assert_eq!(
        tokens("+ -"),
        vec![tok(Kind::Symbol, "+"), tok(Kind::Symbol, "-"), Token::new_line()]
    );
    assert_eq!(
        tokens("**/"),
        vec![tok(Kind::Symbol, "*"), tok(Kind::Symbol, "*/"), Token::new_line()]
    );
    assert_eq!(
        tokens("<=<"),
        vec![tok(Kind::Symbol, "<="), tok(Kind::Symbol, "<"), Token::new_line()]
    );
}

#[test]
fn a_symbol_cut_short_by_the_end_is_the_shorter_symbol() {
    assert_eq!(tokens("/"), vec![tok(Kind::Symbol, "/"), Token::new_line()]);
    assert_eq!(tokens("//"), vec![tok(Kind::Symbol, "//"), Token::new_line()]);
}

#[test]
fn every_symbol_of_the_table_is_cut() {
    for symbol in [
        "/*", "*/", "//", "+=", "-=", "*=", "/=", "<=", ">=", ";", "#", ":", ",", "(", ")", "[",
        "]", "/", "*", "&", "+", "-", "<", ">",
    ] {
        assert_eq!(tokens(symbol), vec![tok(Kind::Symbol, symbol), Token::new_line()]);
    }
}

#[test]
fn line_feed_and_carriage_return_line_feed_give_one_new_line() {
    assert_eq!(tokens("\n"), vec![Token::new_line(), Token::new_line()]);
    assert_eq!(tokens("\r\n"), vec![Token::new_line(), Token::new_line()]);
    assert_eq!(
        tokens("a\r\nb"),
        vec![tok(Kind::Word, "a"), Token::new_line(), tok(Kind::Word, "b"), Token::new_line()]
    );
}

#[test]
fn lone_carriage_return_gives_no_new_line() {
    assert_eq!(tokens("\r"), vec![Token::new_line()]);
    assert_eq!(
        tokens("a\rb"),
        vec![tok(Kind::Word, "a"), tok(Kind::Word, "b"), Token::new_line()]
    );
    assert_eq!(
        tokens("a \r \r\n"),
        vec![tok(Kind::Word, "a"), Token::new_line(), Token::new_line()]
    );
}

#[test]
fn whitespace_between_tokens_is_dropped() {
    assert_eq!(
        tokens("  a \t\u{a0} b\u{3000}"),
        vec![tok(Kind::Word, "a"), tok(Kind::Word, "b"), Token::new_line()]
    );
}

#[test]
fn words_run_as_far_as_identifier_characters_go() {
    assert_eq!(
        tokens("_ab1c2+d"),
        vec![
            tok(Kind::Word, "_ab1c2"),
            tok(Kind::Symbol, "+"),
            tok(Kind::Word, "d"),
            Token::new_line()
        ]
    );
    assert_eq!(tokens("\u{e9}t\u{e9}"), vec![tok(Kind::Word, "\u{e9}t\u{e9}"), Token::new_line()]);
}

#[test]
fn integer_literals_keep_their_text() {
    assert_eq!(tokens("0x1F"), vec![tok(Kind::IntegerLiteral, "0x1F"), Token::new_line()]);
    assert_eq!(
        tokens("12abxg"),
        vec![tok(Kind::IntegerLiteral, "12abx"), tok(Kind::Word, "g"), Token::new_line()]
    );
    assert_eq!(tokens("007"), vec![tok(Kind::IntegerLiteral, "007"), Token::new_line()]);
}

#[test]
fn unknown_character_is_a_lexical_error() {
    assert_eq!(tokenize("@"), vec![Err("unknown token".to_string())]);
    assert_eq!(
        tokenize("a = b"),
        vec![Ok(tok(Kind::Word, "a")), Err("unknown token".to_string())]
    );
}

#[test]
fn lexical_error_stays_where_it_is() {
    let mut tokenizer = Tokenizer::new("$".chars().collect());
    assert_eq!(tokenizer.peek(), Some(Err("unknown token".to_string())));
    assert_eq!(tokenizer.next(), Some(Err("unknown token".to_string())));
    assert_eq!(tokenizer.next(), Some(Err("unknown token".to_string())));
}
