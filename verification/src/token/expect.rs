//! Checks on the token that a tokenizer handed out.
//!
//! Each check comes in two forms. The first returns the token or a message
//! that names what was expected. The second is for a caller that has looked at
//! the token before: it takes for granted that the check holds.

use vstd::prelude::*;
use vstd::pervasive::unreached;
use vstd::string::StringExecFns;
use crate::token::stream::item_view;
use crate::token::{kind_name, Kind, Token, TokenView};
use crate::util::{build_list_str, list_text, texts};

verus! {

/// What a checked token is in contracts.
pub open spec fn result_view(result: Result<Token, String>) -> Result<TokenView, Seq<char>> {
    match result {
        Ok(token) => Ok(token@),
        Err(message) => Err(message@),
    }
}

/// The views of the tokens of `tokens`.
pub open spec fn token_views(tokens: Seq<Token>) -> Seq<TokenView> {
    Seq::new(tokens.len(), |i: int| tokens[i]@)
}

/// The message for a text that ends where a token had to stand.
pub open spec fn end_of_input() -> Seq<char> {
    "unexpected end of input"@
}

/// The message for a token that is not `expected`.
pub open spec fn expected_text(expected: Seq<char>) -> Seq<char> {
    "expected "@ + expected
}

/// The message for a token that is none of `expected`.
pub open spec fn expected_one_of_text(expected: Seq<Seq<char>>) -> Seq<char> {
    "expected one of: "@ + list_text(expected)
}

/// `something` on views: the item itself, and a message where there is none.
pub open spec fn checked_something(item: Option<Result<TokenView, Seq<char>>>) -> Result<
    TokenView,
    Seq<char>,
> {
    match item {
        Some(thing) => thing,
        None => Err(end_of_input()),
    }
}

/// What a check gives that lets a token pass where `accepts` holds of it and
/// answers `message` otherwise. A lexical error is handed on as it is.
pub open spec fn checked_where(
    item: Option<Result<TokenView, Seq<char>>>,
    accepts: spec_fn(TokenView) -> bool,
    message: Seq<char>,
) -> Result<TokenView, Seq<char>> {
    match item {
        Some(Ok(token)) => if accepts(token) {
            Ok(token)
        } else {
            Err(message)
        },
        Some(Err(error)) => Err(error),
        None => Err(message),
    }
}

/// `token` on views: the token has to be `expected`.
pub open spec fn checked_token(
    item: Option<Result<TokenView, Seq<char>>>,
    expected: TokenView,
) -> Result<TokenView, Seq<char>> {
    checked_where(item, |token: TokenView| token == expected, expected_text(expected.text))
}

/// `kind` on views: the token has to be of the kind `expected`.
pub open spec fn checked_kind(
    item: Option<Result<TokenView, Seq<char>>>,
    expected: Kind,
) -> Result<TokenView, Seq<char>> {
    checked_where(
        item,
        |token: TokenView| token.kind == expected,
        expected_text(kind_name(expected)),
    )
}

/// `kinds` on views: the token has to be of one of the kinds `expected`.
pub open spec fn checked_kinds(
    item: Option<Result<TokenView, Seq<char>>>,
    expected: Seq<Kind>,
) -> Result<TokenView, Seq<char>> {
    checked_where(
        item,
        |token: TokenView| expected.contains(token.kind),
        expected_one_of_text(Seq::new(expected.len(), |i: int| kind_name(expected[i]))),
    )
}

/// `one_of` on views: the token has to be one of `expected`.
pub open spec fn checked_one_of(
    item: Option<Result<TokenView, Seq<char>>>,
    expected: Seq<TokenView>,
) -> Result<TokenView, Seq<char>> {
    checked_where(
        item,
        |token: TokenView| expected.contains(token),
        expected_one_of_text(Seq::new(expected.len(), |i: int| expected[i].text)),
    )
}

/// Checks that there is a token.
pub fn something(opt: Option<Result<Token, String>>) -> (result: Result<Token, String>)
    ensures
        result_view(result) == checked_something(item_view(opt)),
        opt matches Some(thing) ==> result == thing,
{
    match opt {
        Some(thing) => thing,
        None => Err("unexpected end of input".to_owned()),
    }
}

/// Takes the token that is known to be there.
pub fn assert_something(opt: Option<Result<Token, String>>) -> (token: Token)
    requires
        opt matches Some(Ok(_)),
    ensures
        opt == Some(Ok::<Token, String>(token)),
{
    assert_result(something(opt))
}

/// Checks that a token is equal to a given token.
pub fn token(opt: Option<Result<Token, String>>, expected_token: &Token) -> (result: Result<
    Token,
    String,
>)
    ensures
        result_view(result) == checked_token(item_view(opt), expected_token@),
        result matches Ok(token) ==> opt == Some(Ok::<Token, String>(token)),
{
    match opt {
        Some(Ok(read_token)) => {
            if &read_token == expected_token {
                return Ok(read_token);
            }
        },
        Some(Err(err)) => {
            return Err(err);
        },
        None => (),
    }
    let mut msg = "expected ".to_owned();
    msg.append(expected_token.value());
    Err(msg)
}

/// Takes the token that is known to be equal to a given token.
pub fn assert_token(opt: Option<Result<Token, String>>, expected_token: &Token) -> (token: Token)
    requires
        item_view(opt) == Some(Ok::<TokenView, Seq<char>>(expected_token@)),
    ensures
        opt == Some(Ok::<Token, String>(token)),
{
    assert_result(token(opt, expected_token))
}

/// Checks that a token is of a given kind.
pub fn kind(opt: Option<Result<Token, String>>, expected_kind: Kind) -> (result: Result<
    Token,
    String,
>)
    ensures
        result_view(result) == checked_kind(item_view(opt), expected_kind),
        result matches Ok(token) ==> opt == Some(Ok::<Token, String>(token)),
{
    match opt {
        Some(Ok(read_token)) => {
            if read_token.is(expected_kind) {
                return Ok(read_token);
            }
        },
        Some(Err(err)) => {
            return Err(err);
        },
        None => (),
    }
    let mut msg = "expected ".to_owned();
    msg.append(expected_kind.to_string().as_str());
    Err(msg)
}

/// Takes the token that is known to be of a given kind.
pub fn assert_kind(opt: Option<Result<Token, String>>, expected_kind: Kind) -> (token: Token)
    requires
        opt matches Some(Ok(read_token)) && read_token@.kind == expected_kind,
    ensures
        opt == Some(Ok::<Token, String>(token)),
{
    assert_result(kind(opt, expected_kind))
}

/// Checks that a token is an element of a set of kinds.
pub fn kinds(opt: Option<Result<Token, String>>, expected_kinds: &Vec<Kind>) -> (result: Result<
    Token,
    String,
>)
    ensures
        result_view(result) == checked_kinds(item_view(opt), expected_kinds@),
        result matches Ok(token) ==> opt == Some(Ok::<Token, String>(token)),
{
    // a list of the names of the expected kinds.
    // if the token is not matched, this list holds all expected kinds.
    let mut kind_list: Vec<String> = Vec::new();
    let mut i: usize = 0;
    while i < expected_kinds.len()
        invariant
            i <= expected_kinds.len(),
            kind_list@.len() == i,
            texts(kind_list@) == Seq::new(i as nat, |j: int| kind_name(expected_kinds@[j])),
            opt matches Some(Ok(read_token)) ==> forall|j: int|
                0 <= j < i ==> #[trigger] expected_kinds@[j] != read_token@.kind,
        decreases expected_kinds.len() - i,
    {
        let expected_kind = expected_kinds[i];
        match &opt {
            Some(Ok(read_token)) => {
                if read_token.is(expected_kind) {
                    assert(expected_kinds@.contains(read_token@.kind));
                    return something(opt);
                }
            },
            _ => (),
        }
        let ghost names = texts(kind_list@);
        kind_list.push(expected_kind.to_string());
        i += 1;
        assert forall|j: int| 0 <= j < i implies texts(kind_list@)[j] == kind_name(
            expected_kinds@[j],
        ) by {
            if j < i - 1 {
                assert(names[j] == kind_name(expected_kinds@[j]));
            }
        }
        assert(texts(kind_list@) =~= Seq::new(i as nat, |j: int| kind_name(expected_kinds@[j])));
    }
    match opt {
        Some(Err(err)) => {
            return Err(err);
        },
        _ => (),
    }
    let mut msg = "expected one of: ".to_owned();
    msg.append(build_list_str(&kind_list).as_str());
    Err(msg)
}

/// Takes the token that is known to be of one of a set of kinds.
pub fn assert_kinds(opt: Option<Result<Token, String>>, expected_kinds: &Vec<Kind>) -> (token:
    Token)
    requires
        opt matches Some(Ok(read_token)) && expected_kinds@.contains(read_token@.kind),
    ensures
        opt == Some(Ok::<Token, String>(token)),
{
    assert_result(kinds(opt, expected_kinds))
}

/// Checks that the next token is one of a set of tokens.
pub fn one_of(opt: Option<Result<Token, String>>, expected_tokens: &Vec<Token>) -> (result: Result<
    Token,
    String,
>)
    ensures
        result_view(result) == checked_one_of(item_view(opt), token_views(expected_tokens@)),
        result matches Ok(token) ==> opt == Some(Ok::<Token, String>(token)),
{
    // a list of the texts of the expected tokens.
    // if the token is not matched, this list holds all expected tokens.
    let mut token_list: Vec<String> = Vec::new();
    let ghost expected = token_views(expected_tokens@);
    let mut i: usize = 0;
    while i < expected_tokens.len()
        invariant
            i <= expected_tokens.len(),
            expected == token_views(expected_tokens@),
            token_list@.len() == i,
            texts(token_list@) == Seq::new(i as nat, |j: int| expected[j].text),
            opt matches Some(Ok(read_token)) ==> forall|j: int|
                0 <= j < i ==> #[trigger] expected[j] != read_token@,
        decreases expected_tokens.len() - i,
    {
        let possible_token = &expected_tokens[i];
        match &opt {
            Some(Ok(read_token)) => {
                if read_token == possible_token {
                    assert(expected[i as int] == read_token@);
                    assert(expected.contains(read_token@));
                    return something(opt);
                }
            },
            _ => (),
        }
        let ghost names = texts(token_list@);
        token_list.push(possible_token.to_string());
        i += 1;
        assert forall|j: int| 0 <= j < i implies texts(token_list@)[j] == expected[j].text by {
            if j < i - 1 {
                assert(names[j] == expected[j].text);
            }
        }
        assert(texts(token_list@) =~= Seq::new(i as nat, |j: int| expected[j].text));
    }
    match opt {
        Some(Err(err)) => {
            return Err(err);
        },
        _ => (),
    }
    let mut msg = "expected one of: ".to_owned();
    msg.append(build_list_str(&token_list).as_str());
    Err(msg)
}

/// Takes the token that is known to be one of a set of tokens.
pub fn assert_one_of(opt: Option<Result<Token, String>>, expected_tokens: &Vec<Token>) -> (token:
    Token)
    requires
        opt matches Some(Ok(read_token)) && token_views(expected_tokens@).contains(read_token@),
    ensures
        opt == Some(Ok::<Token, String>(token)),
{
    match one_of(opt, expected_tokens) {
        Ok(token) => token,
        Err(_) => unreached(),
    }
}

/// Unwraps the result of a check that is known to have passed.
fn assert_result(opt: Result<Token, String>) -> (token: Token)
    requires
        opt is Ok,
    ensures
        opt == Ok::<Token, String>(token),
{
    match opt {
        Ok(token) => token,
        Err(_) => unreached(),
    }
}

} // verus!
