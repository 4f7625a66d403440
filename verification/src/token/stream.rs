//! What tokenizing means: the tokens that a text is cut into, as a function of
//! the text.

use vstd::prelude::*;
use crate::identifier::{valid_char, valid_first_char, valid_name};
use crate::token::symbols::{
    lemma_munch_found, lemma_munch_is_maximal, lemma_symbols_longest_first, munch, symbols,
};
use crate::token::{Kind, Token, TokenView};
use crate::util::iteratorpeeker::{at_blank, at_line_end, skip_blank};

verus! {

/// Whether `c` is a decimal digit.
pub open spec fn decimal_digit(c: char) -> bool {
    '0' <= c <= '9'
}

/// Whether `c` may continue an integer literal: a hexadecimal digit, or the
/// `x` of a hexadecimal prefix.
pub open spec fn number_char(c: char) -> bool {
    decimal_digit(c) || 'a' <= c <= 'f' || 'A' <= c <= 'F' || c == 'x'
}

/// How many characters at the start of `s` may stand inside an identifier.
pub open spec fn word_run(s: Seq<char>) -> nat
    decreases s.len(),
{
    if s.len() > 0 && valid_char(s[0]) {
        1 + word_run(s.drop_first())
    } else {
        0
    }
}

/// How many characters at the start of `s` may continue an integer literal.
pub open spec fn number_run(s: Seq<char>) -> nat
    decreases s.len(),
{
    if s.len() > 0 && number_char(s[0]) {
        1 + number_run(s.drop_first())
    } else {
        0
    }
}

/// A token together with the number of characters that it was cut from.
pub struct Scanned {
    pub token: TokenView,
    pub length: nat,
}

/// The token that opens `s`, a text that is not empty and does not start with
/// whitespace within a line; `None` where no token can be cut from its start.
///
/// A line terminator gives a new line. A valid first character of an
/// identifier opens a word, which runs as far as identifier characters go. A
/// decimal digit opens an integer literal, which runs as far as hexadecimal
/// digits and `x` go. Anything else has to be a symbol, the longest that
/// matches.
pub open spec fn scan(s: Seq<char>) -> Option<Scanned>
    recommends
        s.len() > 0,
{
    if s[0] == '\n' {
        Some(Scanned { token: TokenView::new_line(), length: 1 })
    } else if s[0] == '\r' && s.len() > 1 && s[1] == '\n' {
        Some(Scanned { token: TokenView::new_line(), length: 2 })
    } else if valid_first_char(s[0]) {
        let length = 1 + word_run(s.drop_first());
        Some(Scanned { token: TokenView::word(s.take(length as int)), length })
    } else if decimal_digit(s[0]) {
        let length = 1 + number_run(s.drop_first());
        Some(Scanned { token: TokenView::integer(s.take(length as int)), length })
    } else {
        match munch(symbols(), s) {
            Some(symbol) => Some(Scanned { token: TokenView::symbol(symbol), length: symbol.len() }),
            None => None,
        }
    }
}

/// The message of the lexical error.
pub open spec fn unknown_token() -> Seq<char> {
    "unknown token"@
}

/// What a tokenizer still has to hand out: `tokens`, one after the other, and
/// after them either the end or, where `failed` holds, the lexical error, again
/// and again.
pub struct Stream {
    pub tokens: Seq<TokenView>,
    pub failed: bool,
}

impl Stream {
    /// What stands `n` places after the front of the stream.
    pub open spec fn at(self, n: int) -> Option<Result<TokenView, Seq<char>>> {
        if 0 <= n < self.tokens.len() {
            Some(Ok(self.tokens[n]))
        } else if self.failed {
            Some(Err(unknown_token()))
        } else {
            None
        }
    }

    /// What stands at the front of the stream.
    pub open spec fn front(self) -> Option<Result<TokenView, Seq<char>>> {
        self.at(0)
    }

    /// The stream without the token at its front. The error and the end stay
    /// where they are.
    pub open spec fn advance(self) -> Stream {
        if self.tokens.len() > 0 {
            Stream { tokens: self.tokens.drop_first(), failed: self.failed }
        } else {
            self
        }
    }

    /// The stream with `token` put in front of it.
    pub open spec fn after(self, token: TokenView) -> Stream {
        Stream { tokens: seq![token] + self.tokens, failed: self.failed }
    }
}

/// What an item handed out by the tokenizer is in contracts.
pub open spec fn item_view(item: Option<Result<Token, String>>) -> Option<
    Result<TokenView, Seq<char>>,
> {
    match item {
        Some(Ok(token)) => Some(Ok(token@)),
        Some(Err(message)) => Some(Err(message@)),
        None => None,
    }
}

/// The tokens of the text `chars`.
///
/// Whitespace between tokens is dropped. Where the text is used up, one new
/// line closes the stream. Where no token can be cut, the stream fails there.
pub open spec fn lex(chars: Seq<char>) -> Stream
    decreases chars.len(),
    via lex_terminates
{
    let rest = skip_blank(chars);
    if rest.len() == 0 {
        Stream { tokens: seq![TokenView::new_line()], failed: false }
    } else {
        match scan(rest) {
            Some(scanned) => lex(rest.skip(scanned.length as int)).after(scanned.token),
            None => Stream { tokens: Seq::empty(), failed: true },
        }
    }
}

/// Each token is cut from at least one character, so that less of the text is
/// left with every token.
#[via_fn]
proof fn lex_terminates(chars: Seq<char>) {
    let rest = skip_blank(chars);
    lemma_skip_blank_is_suffix(chars);
    if rest.len() > 0 {
        lemma_scan_length(rest);
    }
}

/// Dropping leading whitespace leaves a tail of the text, which does not start
/// with whitespace within a line.
pub proof fn lemma_skip_blank_is_suffix(s: Seq<char>)
    ensures
        skip_blank(s).len() <= s.len(),
        skip_blank(s) == s.skip(s.len() - skip_blank(s).len()),
        !at_blank(skip_blank(s)),
        skip_blank(skip_blank(s)) == skip_blank(s),
    decreases s.len(),
{
    if at_blank(s) {
        let tail = s.drop_first();
        lemma_skip_blank_is_suffix(tail);
        assert(tail.skip(tail.len() - skip_blank(tail).len()) =~= s.skip(
            s.len() - skip_blank(s).len(),
        ));
    } else {
        assert(s.skip(0) =~= s);
    }
}

/// The run of identifier characters at the start of `s` lies within `s`, holds
/// identifier characters only, and ends where they end.
pub proof fn lemma_word_run(s: Seq<char>)
    ensures
        word_run(s) <= s.len(),
        forall|i: int| 0 <= i < word_run(s) ==> valid_char(#[trigger] s[i]),
        word_run(s) < s.len() ==> !valid_char(s[word_run(s) as int]),
    decreases s.len(),
{
    if s.len() > 0 && valid_char(s[0]) {
        let tail = s.drop_first();
        lemma_word_run(tail);
        assert forall|i: int| 0 <= i < word_run(s) implies valid_char(#[trigger] s[i]) by {
            if i > 0 {
                assert(s[i] == tail[i - 1]);
            }
        }
        if word_run(s) < s.len() {
            assert(s[word_run(s) as int] == tail[word_run(tail) as int]);
        }
    }
}

/// The run of literal characters at the start of `s` lies within `s`, holds
/// literal characters only, and ends where they end.
pub proof fn lemma_number_run(s: Seq<char>)
    ensures
        number_run(s) <= s.len(),
        forall|i: int| 0 <= i < number_run(s) ==> number_char(#[trigger] s[i]),
        number_run(s) < s.len() ==> !number_char(s[number_run(s) as int]),
    decreases s.len(),
{
    if s.len() > 0 && number_char(s[0]) {
        let tail = s.drop_first();
        lemma_number_run(tail);
        assert forall|i: int| 0 <= i < number_run(s) implies number_char(#[trigger] s[i]) by {
            if i > 0 {
                assert(s[i] == tail[i - 1]);
            }
        }
        if number_run(s) < s.len() {
            assert(s[number_run(s) as int] == tail[number_run(tail) as int]);
        }
    }
}

/// A token is cut from at least one character and from no more than there
/// are, and but for a new line its text is those characters.
pub proof fn lemma_scan_length(s: Seq<char>)
    requires
        s.len() > 0,
    ensures
        scan(s) matches Some(scanned) ==> {
            &&& 0 < scanned.length <= s.len()
            &&& scanned.token.kind != Kind::NewLine ==> scanned.token.text == s.take(
                scanned.length as int,
            )
        },
{
    lemma_word_run(s.drop_first());
    lemma_number_run(s.drop_first());
    lemma_symbols_longest_first();
    lemma_munch_found(symbols(), s);
}

/// Maximal munch: where the text starts with a symbol of the table, a token
/// is cut, and where that token is a symbol, no symbol of the table that the
/// text starts with is longer. So `+=` is never cut as `+`.
pub proof fn lemma_symbol_is_longest(s: Seq<char>, other: Seq<char>)
    requires
        s.len() > 0,
        symbols().contains(other),
        other.is_prefix_of(s),
    ensures
        scan(s) matches Some(scanned) && (scanned.token.kind == Kind::Symbol
            ==> scanned.token.text.len() >= other.len()),
{
    lemma_symbols_longest_first();
    lemma_munch_is_maximal(symbols(), s, other);
}

/// Looking at the front of a stream any number of times gives the same item
/// each time and leaves the stream as it is; taking then gives that item too
/// and moves the stream on by one token. Here `states` are the streams before
/// and after each look, `looked` what each look gave, `taken` and `last` what
/// taking gave and left.
pub proof fn lemma_peek_is_idempotent(
    states: Seq<Stream>,
    looked: Seq<Option<Result<TokenView, Seq<char>>>>,
    taken: Option<Result<TokenView, Seq<char>>>,
    last: Stream,
)
    requires
        states.len() == looked.len() + 1,
        forall|k: int|
            0 <= k < looked.len() ==> looked[k] == (#[trigger] states[k]).front() && states[k + 1]
                == states[k],
        taken == states.last().front(),
        last == states.last().advance(),
    ensures
        forall|k: int| 0 <= k < states.len() ==> #[trigger] states[k] == states[0],
        forall|k: int| 0 <= k < looked.len() ==> #[trigger] looked[k] == states[0].front(),
        taken == states[0].front(),
        last == states[0].advance(),
        states[0].tokens.len() > 0 ==> last.tokens == states[0].tokens.drop_first(),
{
    assert forall|k: int| 0 <= k < states.len() implies #[trigger] states[k] == states[0] by {
        lemma_unchanged_so_far(states, looked, k);
    }
    assert forall|k: int| 0 <= k < looked.len() implies #[trigger] looked[k]
        == states[0].front() by {
        assert(states[k] == states[0]);
    }
}

/// After any number of looks the stream is the one that was there at first.
proof fn lemma_unchanged_so_far(
    states: Seq<Stream>,
    looked: Seq<Option<Result<TokenView, Seq<char>>>>,
    k: int,
)
    requires
        states.len() == looked.len() + 1,
        forall|k: int|
            0 <= k < looked.len() ==> looked[k] == (#[trigger] states[k]).front() && states[k + 1]
                == states[k],
        0 <= k < states.len(),
    ensures
        states[k] == states[0],
    decreases k,
{
    if k > 0 {
        lemma_unchanged_so_far(states, looked, k - 1);
    }
}

/// A new line is cut where a line terminator stands, and nowhere else: from
/// a line feed, and from a carriage return together with the line feed behind
/// it. A carriage return that no line feed follows gives no new line.
pub proof fn lemma_new_line_only_at_line_end(s: Seq<char>)
    requires
        s.len() > 0,
    ensures
        at_line_end(s) <==> (scan(s) matches Some(scanned) && scanned.token.kind == Kind::NewLine),
        at_line_end(s) ==> scan(s) == Some(
            Scanned { token: TokenView::new_line(), length: if s[0] == '\n' {
                1
            } else {
                2
            } },
        ),
{
}

/// Whether `token` is cut from `chars` at the place `from`, which no
/// whitespace within a line opens.
pub open spec fn cut_at(chars: Seq<char>, token: TokenView, from: int) -> bool {
    &&& 0 <= from < chars.len()
    &&& !at_blank(chars.skip(from))
    &&& scan(chars.skip(from)) matches Some(scanned) && scanned.token == token
}

/// A text that can be tokenized ends with exactly one new line that stands
/// for its end: the last token of its stream is a new line, whether or not the
/// text itself ends with one, and every token before it is cut from at least
/// one character of the text.
pub proof fn lemma_stream_ends_with_new_line(chars: Seq<char>)
    ensures
        !lex(chars).failed ==> lex(chars).tokens.len() >= 1 && lex(chars).tokens.last()
            == TokenView::new_line(),
        !lex(chars).failed ==> lex(chars).tokens.len() <= chars.len() + 1,
        lex(chars).failed ==> lex(chars).tokens.len() <= chars.len(),
    decreases chars.len(),
{
    let rest = skip_blank(chars);
    lemma_skip_blank_is_suffix(chars);
    if rest.len() > 0 {
        lemma_scan_length(rest);
        if scan(rest) is Some {
            let scanned = scan(rest)->0;
            lemma_stream_ends_with_new_line(rest.skip(scanned.length as int));
        }
    }
}

/// Once the tokens of a stream are used up, what stands at its front stays
/// there: the end, or the lexical error. In particular the new line that
/// closes a text is handed out once.
pub proof fn lemma_stream_end_is_final(s: Stream)
    requires
        s.tokens.len() == 0,
    ensures
        s.advance() == s,
        s.front() == if s.failed {
            Some(Err::<TokenView, Seq<char>>(unknown_token()))
        } else {
            None
        },
{
}

/// Taking a token moves a stream on by exactly one token: what stood `n + 1`
/// places after the front stands `n` places after it.
pub proof fn lemma_advance_moves_by_one(s: Stream, n: int)
    requires
        s.tokens.len() > 0,
        0 <= n,
    ensures
        s.advance().tokens.len() == s.tokens.len() - 1,
        s.advance().failed == s.failed,
        s.advance().at(n) == s.at(n + 1),
{
}

/// Every token of a stream is cut from some place of the text, but for the
/// new line that closes a text that can be tokenized.
pub proof fn lemma_token_origin(chars: Seq<char>, i: int)
    requires
        0 <= i < lex(chars).tokens.len(),
    ensures
        (i == lex(chars).tokens.len() - 1 && !lex(chars).failed && lex(chars).tokens[i]
            == TokenView::new_line()) || exists|from: int|
            #[trigger] cut_at(chars, lex(chars).tokens[i], from),
    decreases chars.len(),
{
    let rest = skip_blank(chars);
    lemma_skip_blank_is_suffix(chars);
    let start = chars.len() - rest.len();
    if rest.len() > 0 {
        lemma_scan_length(rest);
        if scan(rest) is Some {
            let scanned = scan(rest)->0;
            let tail = rest.skip(scanned.length as int);
            if i == 0 {
                assert(cut_at(chars, lex(chars).tokens[i], start));
            } else {
                lemma_token_origin(tail, i - 1);
                assert(lex(chars).tokens[i] == lex(tail).tokens[i - 1]);
                if exists|from: int| #[trigger] cut_at(tail, lex(tail).tokens[i - 1], from) {
                    let from = choose|from: int| #[trigger] cut_at(tail, lex(tail).tokens[i - 1], from);
                    assert(tail.skip(from) =~= chars.skip(start + scanned.length + from));
                    assert(cut_at(chars, lex(chars).tokens[i], start + scanned.length + from));
                }
            }
        }
    }
}

/// The text of a word, of an integer literal and of a symbol is a piece of the
/// source, character for character.
pub proof fn lemma_token_text_is_source_text(chars: Seq<char>, i: int)
    requires
        0 <= i < lex(chars).tokens.len(),
        lex(chars).tokens[i].kind != Kind::NewLine,
    ensures
        exists|from: int, to: int|
            0 <= from <= to <= chars.len() && lex(chars).tokens[i].text == #[trigger] chars.subrange(
                from,
                to,
            ),
{
    lemma_token_origin(chars, i);
    let token = lex(chars).tokens[i];
    let from = choose|from: int| #[trigger] cut_at(chars, token, from);
    let piece = chars.skip(from);
    lemma_scan_length(piece);
    let length = scan(piece)->0.length;
    assert(piece.take(length as int) =~= chars.subrange(from, from + length));
}

/// Every word of a stream is a well-formed identifier.
pub proof fn lemma_words_are_names(chars: Seq<char>, i: int)
    requires
        0 <= i < lex(chars).tokens.len(),
        lex(chars).tokens[i].kind == Kind::Word,
    ensures
        valid_name(lex(chars).tokens[i].text),
{
    lemma_token_origin(chars, i);
    let token = lex(chars).tokens[i];
    let from = choose|from: int| #[trigger] cut_at(chars, token, from);
    let piece = chars.skip(from);
    lemma_scan_length(piece);
    lemma_word_run(piece.drop_first());
    lemma_symbols_longest_first();
    lemma_munch_found(symbols(), piece);
    assert forall|j: int| 1 <= j < token.text.len() implies valid_char(#[trigger] token.text[j]) by {
        assert(token.text[j] == piece.drop_first()[j - 1]);
    }
}

} // verus!
