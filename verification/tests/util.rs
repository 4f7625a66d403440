use c_preprocessor::util::{build_list_str, IteratorPeeker};

fn peeker(text: &str) -> IteratorPeeker<char> {
    IteratorPeeker::new(text.chars().collect())
}

fn rest(mut peeker: IteratorPeeker<char>) -> String {
    let mut text = String::new();
    while let Some(c) = peeker.next() {
        text.push(c);
    }
    text
}

#[test]
fn list_is_separated_by_commas() {
    assert_eq!(build_list_str(&vec![]), "");
    assert_eq!(build_list_str(&vec!["a".to_string()]), "a");
    assert_eq!(
        build_list_str(&vec!["a".to_string(), "".to_string(), "b c".to_string()]),
        "a, , b c"
    );
}

#[test]
fn next_hands_out_the_characters_in_order() {
    let mut p = peeker("ab");
    assert_eq!(p.next(), Some('a'));
    assert_eq!(p.next(), Some('b'));
    assert_eq!(p.next(), None);
    assert_eq!(p.next(), None);
}

#[test]
fn peek_does_not_take() {
    let mut p = peeker("ab");
    assert_eq!(p.peek(), Some('a'));
    assert_eq!(p.peek(), Some('a'));
    assert_eq!(p.next(), Some('a'));
    assert_eq!(p.peek(), Some('b'));
    assert_eq!(p.next(), Some('b'));
    assert_eq!(p.peek(), None);
}

#[test]
fn peek_n_restores_the_order() {
    let mut p = peeker("abcd");
    assert_eq!(p.peek_n(2), Some('c'));
    assert_eq!(p.peek_n(0), Some('a'));
    assert_eq!(p.peek_n(3), Some('d'));
    assert_eq!(p.peek_n(4), None);
    assert_eq!(p.peek_n(usize::MAX), None);
    assert_eq!(rest(p), "abcd");
}

#[test]
fn peek_n_past_the_end_gives_nothing() {
    let mut p = peeker("/");
    assert_eq!(p.peek_n(1), None);
    assert_eq!(p.peek_n(0), Some('/'));
    let mut empty = peeker("");
    assert_eq!(empty.peek_n(0), None);
}

#[test]
fn eat_takes_one_and_eat_several_takes_many() {
    let mut p = peeker("abcdef");
    p.eat();
    assert_eq!(p.peek(), Some('b'));
    p.eat_several(0);
    assert_eq!(p.peek(), Some('b'));
    p.eat_several(3);
    assert_eq!(p.peek(), Some('e'));
    p.eat_several(10);
    assert_eq!(p.peek(), None);
    p.eat();
    assert_eq!(p.next(), None);
}

#[test]
fn whitespace_is_eaten_up_to_the_line_end() {
    let mut p = peeker("  \t x");
    p.eat_whitespace_but_line();
    assert_eq!(rest(p), "x");

    let mut p = peeker(" \t\n x");
    p.eat_whitespace_but_line();
    assert_eq!(rest(p), "\n x");

    let mut p = peeker(" \r\n x");
    p.eat_whitespace_but_line();
    assert_eq!(rest(p), "\r\n x");

    let mut p = peeker(" \r \rx");
    p.eat_whitespace_but_line();
    assert_eq!(rest(p), "x");

    let mut p = peeker(" \r");
    p.eat_whitespace_but_line();
    assert_eq!(rest(p), "");

    let mut p = peeker("x  ");
    p.eat_whitespace_but_line();
    assert_eq!(rest(p), "x  ");

    let mut p = peeker("");
    p.eat_whitespace_but_line();
    assert_eq!(rest(p), "");
}

#[test]
fn whitespace_is_eaten_after_a_peek() {
    let mut p = peeker("  \r\r\nab");
    assert_eq!(p.peek_n(3), Some('\r'));
    p.eat_whitespace_but_line();
    assert_eq!(p.peek_n(1), Some('\n'));
    assert_eq!(rest(p), "\r\nab");
}

#[test]
fn peeker_works_on_any_items() {
    let mut p = IteratorPeeker::new(vec![10u32, 20, 30]);
    assert_eq!(p.peek_n(1), Some(20));
    assert_eq!(p.peek(), Some(10));
    assert_eq!(p.next(), Some(10));
    p.eat();
    assert_eq!(p.peek_n(0), Some(30));
    assert_eq!(p.next(), Some(30));
    assert_eq!(p.next(), None);
}
