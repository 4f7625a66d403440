//! The tokenizer: cuts a text into tokens, one at a time, with lookahead.

use vstd::prelude::*;
use vstd::string::StrSliceExecFns;
use crate::identifier::{is_valid_char, is_valid_first_char, valid_first_char};
use crate::token::stream::{
    decimal_digit, item_view, lemma_skip_blank_is_suffix, lex, number_char, number_run, scan,
    unknown_token, word_run, Stream,
};
use crate::token::symbols::{munch, symbols, SymbolTable};
use crate::token::{Kind, Token, TokenView};
use crate::util::iteratorpeeker::skip_blank;
use crate::util::IteratorPeeker;

verus! {

/// Checks whether a character is a decimal digit.
fn is_decimal_digit(c: char) -> (b: bool)
    ensures
        b == decimal_digit(c),
{
    '0' <= c && c <= '9'
}

/// Checks whether a character may continue an integer literal.
fn is_number_char(c: char) -> (b: bool)
    ensures
        b == number_char(c),
{
    is_decimal_digit(c) || ('a' <= c && c <= 'f') || ('A' <= c && c <= 'F') || c == 'x'
}

/// A tokenizer.
///
/// Tokens that were read ahead are kept on a stack, the next one on top, and
/// are handed out again before any more of the text is cut.
pub struct Tokenizer {
    it: IteratorPeeker<char>,
    stack: Vec<Token>,
    finished: bool,
    // the possible symbols.
    symbol_tokens: SymbolTable,
}

impl View for Tokenizer {
    type V = Stream;

    /// What the tokenizer still has to hand out: the tokens that it has read
    /// ahead, and behind them the tokens of the text that it has not cut yet.
    open spec fn view(&self) -> Stream {
        if self.finished() {
            Stream { tokens: self.buffered(), failed: false }
        } else {
            let ahead = lex(self.unread());
            Stream { tokens: self.buffered() + ahead.tokens, failed: ahead.failed }
        }
    }
}

impl Tokenizer {
    /// The tokens that were read ahead and are kept to be handed out again,
    /// the next one first.
    pub closed spec fn buffered(&self) -> Seq<TokenView> {
        Seq::new(self.stack.len() as nat, |i: int| self.stack[self.stack.len() - 1 - i]@)
    }

    /// The part of the text that no token was cut from yet.
    pub closed spec fn unread(&self) -> Seq<char> {
        self.it@
    }

    /// Whether the new line that closes the text was cut.
    pub closed spec fn finished(&self) -> bool {
        self.finished
    }

    /// Creates a new tokenizer over the text `chars`.
    pub fn new(chars: Vec<char>) -> (tokenizer: Tokenizer)
        ensures
            tokenizer@ == lex(chars@),
            tokenizer.buffered().len() == 0,
            tokenizer.unread() == chars@,
            !tokenizer.finished(),
    {
        let tokenizer = Tokenizer {
            it: IteratorPeeker::new(chars),
            stack: Vec::new(),
            finished: false,
            symbol_tokens: SymbolTable::new(),
        };
        assert(tokenizer.buffered() + lex(chars@).tokens =~= lex(chars@).tokens);
        tokenizer
    }

    /// Gets the next token.
    ///
    /// The last token handed out is always a new line, which stands for the
    /// end of the text; after it there is nothing more. A lexical error is
    /// handed out where no token can be cut, and stays there.
    ///
    /// A token that was read ahead is handed out as it was kept, and nothing
    /// is cut from the text then.
    pub fn next(&mut self) -> (item: Option<Result<Token, String>>)
        ensures
            item_view(item) == old(self)@.front(),
            final(self)@ == old(self)@.advance(),
            final(self).buffered() == if old(self).buffered().len() > 0 {
                old(self).buffered().drop_first()
            } else {
                old(self).buffered()
            },
            old(self).buffered().len() > 0 ==> final(self).unread() == old(self).unread()
                && final(self).finished() == old(self).finished(),
    {
        // if we have peeked data on the stack, retrieve it.
        match self.stack.pop() {
            Some(tok) => {
                assert(self.buffered() =~= old(self).buffered().drop_first());
                assert(self@.tokens =~= old(self)@.tokens.drop_first());
                return Some(Ok(tok));
            },
            None => (),
        };
        assert(self.buffered() =~= Seq::<TokenView>::empty());
        assert(self.buffered() =~= old(self).buffered());
        if self.finished {
            return None;
        }
        let ghost text = self.it@;
        self.it.eat_whitespace_but_line();
        let ghost rest = self.it@;
        proof {
            lemma_skip_blank_is_suffix(text);
            assert(lex(rest) == lex(text));
            assert(self.buffered() + lex(text).tokens =~= lex(text).tokens);
        }
        let first_char = match self.it.peek() {
            Some(first_char) => first_char,
            // we reached the end of the text.
            None => {
                self.finished = true;
                assert(self@.tokens =~= old(self)@.tokens.drop_first());
                return Some(Ok(Token::new_line()));
            },
        };
        if first_char == '\n' {
            self.it.eat();
            proof {
                self.lemma_taken(rest, 1);
            }
            return Some(Ok(Token::new_line()));
        } else if first_char == '\r' {
            match self.it.peek_n(1) {
                Some('\n') => {
                    self.it.next();  // skip '\r'.
                    self.it.next();  // skip '\n'.
                    proof {
                        assert(self.it@ =~= rest.skip(2));
                        self.lemma_taken(rest, 2);
                    }
                    return Some(Ok(Token::new_line()));
                },
                Some(_) | None => (),
            }
        }
        let token = if is_valid_first_char(first_char) {
            self.parse_identifier()
        } else if is_decimal_digit(first_char) {
            self.parse_numeric_literal()
        } else {
            self.parse_possible_symbol()
        };
        proof {
            if scan(rest) is Some {
                self.lemma_taken(rest, scan(rest)->0.length);
            }
        }
        Some(token)
    }

    /// Once the token that opens `rest` is taken, what is left to hand out is
    /// what was there without that token.
    proof fn lemma_taken(&self, rest: Seq<char>, length: nat)
        requires
            rest.len() > 0,
            skip_blank(rest) == rest,
            scan(rest) matches Some(scanned) && scanned.length == length,
            self.it@ == rest.skip(length as int),
            self.stack@.len() == 0,
            !self.finished,
        ensures
            self@ == lex(rest).advance(),
            lex(rest).front() == Some(Ok::<TokenView, Seq<char>>(scan(rest)->0.token)),
    {
        let tail = lex(rest.skip(length as int));
        assert(self.buffered() + tail.tokens =~= tail.tokens);
        assert(lex(rest) == tail.after(scan(rest)->0.token));
        assert(lex(rest).tokens.drop_first() =~= tail.tokens);
    }

    /// Looks at the next token without taking it.
    ///
    /// Where no token was read ahead, the next token is cut from the text and
    /// kept, so that each token is cut once, however often it is looked at.
    pub fn peek(&mut self) -> (item: Option<Result<Token, String>>)
        ensures
            item_view(item) == old(self)@.front(),
            final(self)@ == old(self)@,
            old(self).buffered().len() > 0 ==> final(self).buffered() == old(self).buffered()
                && final(self).unread() == old(self).unread() && final(self).finished() == old(
                self,
            ).finished(),
            old(self).buffered().len() == 0 ==> final(self).buffered() == match old(self)@.front() {
                Some(Ok(token)) => seq![token],
                _ => Seq::empty(),
            },
    {
        let val: Token = match self.next() {
            Some(Ok(val)) => val,
            Some(Err(err)) => {
                assert(self@ == old(self)@);
                return Some(Err(err));
            },
            None => {
                return None;
            },
        };
        self.push_back(val.clone());
        assert(self@.tokens =~= old(self)@.tokens);
        proof {
            if old(self).buffered().len() > 0 {
                assert(self.buffered() =~= old(self).buffered());
            } else {
                assert(self.buffered() =~= seq![val@]);
            }
        }
        Some(Ok(val))
    }

    /// Puts `token` back in front of what is still to come.
    fn push_back(&mut self, token: Token)
        ensures
            final(self)@ == old(self)@.after(token@),
            final(self).buffered() == seq![token@] + old(self).buffered(),
            final(self).unread() == old(self).unread(),
            final(self).finished() == old(self).finished(),
    {
        self.stack.push(token);
        assert(self.buffered() =~= seq![token@] + old(self).buffered());
        assert(self@.tokens =~= old(self)@.after(token@).tokens);
    }

    /// Eats the next token, disregarding it.
    pub fn eat(&mut self)
        ensures
            final(self)@ == old(self)@.advance(),
            final(self).buffered() == if old(self).buffered().len() > 0 {
                old(self).buffered().drop_first()
            } else {
                old(self).buffered()
            },
            old(self).buffered().len() > 0 ==> final(self).unread() == old(self).unread()
                && final(self).finished() == old(self).finished(),
    {
        self.next();
    }

    /// Looks at the token `n` places ahead of the next one without taking
    /// anything. Where the text fails before that place, the error is handed
    /// out; where it ends before that place, nothing is.
    ///
    /// The tokens up to that place are cut from the text, as far as they were
    /// not read ahead before, and kept.
    pub fn peek_n(&mut self, n: usize) -> (item: Option<Result<Token, String>>)
        ensures
            item_view(item) == old(self)@.at(n as int),
            final(self)@ == old(self)@,
            final(self).buffered() == if n < old(self).buffered().len() {
                old(self).buffered()
            } else if n < old(self)@.tokens.len() {
                old(self)@.tokens.take(n + 1)
            } else {
                old(self)@.tokens
            },
            n < old(self).buffered().len() ==> final(self).unread() == old(self).unread()
                && final(self).finished() == old(self).finished(),
    {
        let mut read_elems: Vec<Token> = Vec::new();
        let mut result: Option<Result<Token, String>> = None;
        assert(old(self).buffered().skip(0) =~= old(self).buffered());
        while read_elems.len() <= n
            invariant_except_break
                result is None,
                read_elems@.len() <= old(self).buffered().len() ==> {
                    &&& self.buffered() == old(self).buffered().skip(read_elems@.len() as int)
                    &&& self.unread() == old(self).unread()
                    &&& self.finished() == old(self).finished()
                },
                read_elems@.len() > old(self).buffered().len() ==> self.buffered().len() == 0,
            invariant
                read_elems@.len() <= old(self)@.tokens.len(),
                read_elems@.len() <= n + 1,
                forall|i: int|
                    0 <= i < read_elems@.len() ==> (#[trigger] read_elems@[i])@ == old(
                        self,
                    )@.tokens[i],
                self@.tokens == old(self)@.tokens.skip(read_elems@.len() as int),
                self@.failed == old(self)@.failed,
            ensures
                n < read_elems@.len() ==> {
                    &&& result is None
                    &&& read_elems@.len() <= old(self).buffered().len() ==> {
                        &&& self.buffered() == old(self).buffered().skip(read_elems@.len() as int)
                        &&& self.unread() == old(self).unread()
                        &&& self.finished() == old(self).finished()
                    }
                    &&& read_elems@.len() > old(self).buffered().len() ==> self.buffered().len()
                        == 0
                },
                n >= read_elems@.len() ==> {
                    &&& read_elems@.len() == old(self)@.tokens.len()
                    &&& item_view(result) == old(self)@.at(n as int)
                    &&& self.buffered().len() == 0
                    &&& old(self).buffered().len() <= read_elems@.len()
                },
            decreases self@.tokens.len(),
        {
            match self.next() {
                Some(Ok(tok)) => {
                    read_elems.push(tok);
                    assert(self@.tokens =~= old(self)@.tokens.skip(read_elems@.len() as int));
                    proof {
                        if read_elems@.len() <= old(self).buffered().len() {
                            assert(self.buffered() =~= old(self).buffered().skip(
                                read_elems@.len() as int,
                            ));
                        }
                    }
                },
                Some(Err(err)) => {
                    result = Some(Err(err));
                    break ;
                },
                None => {
                    break ;
                },
            }
        }
        if n < read_elems.len() {
            result = Some(Ok(read_elems[n].clone()));
        }
        let ghost left = self.buffered();
        let ghost unread = self.unread();
        let ghost finished = self.finished();
        let mut i: usize = read_elems.len();
        assert(self.buffered() =~= old(self)@.tokens.subrange(i as int, i as int) + left);
        while i > 0
            invariant
                i <= read_elems@.len() <= old(self)@.tokens.len(),
                forall|i: int|
                    0 <= i < read_elems@.len() ==> (#[trigger] read_elems@[i])@ == old(
                        self,
                    )@.tokens[i],
                self@.tokens == old(self)@.tokens.skip(i as int),
                self@.failed == old(self)@.failed,
                self.buffered() == old(self)@.tokens.subrange(i as int, read_elems@.len() as int)
                    + left,
                self.unread() == unread,
                self.finished() == finished,
            decreases i,
        {
            i = i - 1;
            self.push_back(read_elems[i].clone());
            assert(self@.tokens =~= old(self)@.tokens.skip(i as int));
            assert(self.buffered() =~= old(self)@.tokens.subrange(
                i as int,
                read_elems@.len() as int,
            ) + left);
        }
        proof {
            assert(self@.tokens =~= old(self)@.tokens);
            let taken = read_elems@.len() as int;
            if n < taken && taken <= old(self).buffered().len() {
                assert(old(self)@.tokens.subrange(0, taken) + left =~= old(self).buffered());
            } else {
                assert(old(self)@.tokens.subrange(0, taken) + left =~= old(self)@.tokens.take(
                    taken,
                ));
                assert(old(self)@.tokens.take(old(self)@.tokens.len() as int) =~= old(
                    self,
                )@.tokens);
            }
        }
        result
    }

    /// Cuts a word: the character that opens it and the identifier characters
    /// that follow.
    fn parse_identifier(&mut self) -> (token: Result<Token, String>)
        requires
            old(self).it@.len() > 0,
            valid_first_char(old(self).it@[0]),
        ensures
            token matches Ok(t) && t@ == TokenView::word(
                old(self).it@.take(1 + word_run(old(self).it@.drop_first()) as int),
            ),
            final(self).it@ == old(self).it@.skip(1 + word_run(old(self).it@.drop_first()) as int),
            final(self).stack == old(self).stack,
            final(self).finished == old(self).finished,
    {
        let ghost text = self.it@;
        let mut chars = String::new();
        let first = self.it.next().unwrap();
        chars.push(first);
        assert(chars@ =~= text.take(1));
        loop
            invariant
                1 <= chars@.len() <= text.len(),
                chars@ == text.take(chars@.len() as int),
                self.it@ == text.skip(chars@.len() as int),
                1 + word_run(text.drop_first()) == chars@.len() + word_run(self.it@),
                self.stack == old(self).stack,
                self.finished == old(self).finished,
                text == old(self).it@,
            ensures
                word_run(self.it@) == 0,
            decreases self.it@.len(),
        {
            let c = match self.it.peek() {
                Some(c) => c,
                None => {
                    break ;
                },
            };
            if is_valid_char(c) {
                chars.push(c);
                // eat the character.
                self.it.next();
                assert(chars@ =~= text.take(chars@.len() as int));
                assert(self.it@ =~= text.skip(chars@.len() as int));
            } else {
                break ;
            }
        }
        Ok(Token(Kind::Word, chars))
    }

    /// Cuts an integer literal: the decimal digit that opens it and the
    /// hexadecimal digits and `x` that follow. The text is kept as it stands.
    fn parse_numeric_literal(&mut self) -> (token: Result<Token, String>)
        requires
            old(self).it@.len() > 0,
            decimal_digit(old(self).it@[0]),
        ensures
            token matches Ok(t) && t@ == TokenView::integer(
                old(self).it@.take(1 + number_run(old(self).it@.drop_first()) as int),
            ),
            final(self).it@ == old(self).it@.skip(1 + number_run(old(self).it@.drop_first()) as int),
            final(self).stack == old(self).stack,
            final(self).finished == old(self).finished,
    {
        let ghost text = self.it@;
        let mut result = String::new();
        // we are at the first digit.
        let first = self.it.next().unwrap();
        result.push(first);
        assert(result@ =~= text.take(1));
        loop
            invariant
                1 <= result@.len() <= text.len(),
                result@ == text.take(result@.len() as int),
                self.it@ == text.skip(result@.len() as int),
                1 + number_run(text.drop_first()) == result@.len() + number_run(self.it@),
                self.stack == old(self).stack,
                self.finished == old(self).finished,
                text == old(self).it@,
            ensures
                number_run(self.it@) == 0,
            decreases self.it@.len(),
        {
            match self.it.peek() {
                Some(c) => {
                    // check if it is hexadecimal.
                    if is_number_char(c) {
                        self.it.eat();
                        result.push(c);
                        assert(result@ =~= text.take(result@.len() as int));
                        assert(self.it@ =~= text.skip(result@.len() as int));
                    } else {
                        break ;
                    }
                },
                None => {
                    break ;
                },
            }
        }
        Ok(Token(Kind::IntegerLiteral, result))
    }

    /// Checks whether the text that comes next starts with `symbol`, looking
    /// ahead character by character.
    fn symbol_ahead(&mut self, symbol: &str) -> (found: bool)
        ensures
            found == symbol@.is_prefix_of(old(self).it@),
            final(self).it@ == old(self).it@,
            final(self).stack == old(self).stack,
            final(self).finished == old(self).finished,
    {
        let len = symbol.unicode_len();
        let mut index: usize = 0;
        while index < len
            invariant
                index <= len,
                len == symbol@.len(),
                index <= self.it@.len(),
                symbol@.take(index as int) == self.it@.take(index as int),
                self.it@ == old(self).it@,
                self.stack == old(self).stack,
                self.finished == old(self).finished,
            decreases len - index,
        {
            let peeked_char = match self.it.peek_n(index) {
                Some(c) => c,
                None => {
                    return false;
                },
            };
            // check the character against the symbol.
            if peeked_char != symbol.get_char(index) {
                assert(!symbol@.is_prefix_of(self.it@)) by {
                    if symbol@.len() <= self.it@.len() {
                        assert(self.it@.subrange(0, symbol@.len() as int)[index as int]
                            != symbol@[index as int]);
                    }
                }
                return false;
            }
            index += 1;
            assert(symbol@.take(index as int) =~= symbol@.take(index - 1).push(
                symbol@[index - 1],
            ));
            assert(self.it@.take(index as int) =~= self.it@.take(index - 1).push(
                self.it@[index - 1],
            ));
        }
        assert(symbol@ =~= symbol@.take(len as int));
        true
    }

    /// Cuts a symbol: the first of the table, and so the longest, that the
    /// text starts with.
    fn parse_possible_symbol(&mut self) -> (token: Result<Token, String>)
        ensures
            final(self).stack == old(self).stack,
            final(self).finished == old(self).finished,
            match munch(symbols(), old(self).it@) {
                Some(symbol) => {
                    &&& token matches Ok(t) && t@ == TokenView::symbol(symbol)
                    &&& final(self).it@ == old(self).it@.skip(symbol.len() as int)
                },
                None => {
                    &&& token matches Err(message) && message@ == unknown_token()
                    &&& final(self).it@ == old(self).it@
                },
            },
    {
        let ghost text = self.it@;
        let count = self.symbol_tokens.len();
        let mut i: usize = 0;
        assert(symbols().skip(0) =~= symbols());
        while i < count
            invariant
                i <= count,
                count == symbols().len(),
                munch(symbols(), text) == munch(symbols().skip(i as int), text),
                self.it@ == text,
                text == old(self).it@,
                self.stack == old(self).stack,
                self.finished == old(self).finished,
            decreases count - i,
        {
            let sym = self.symbol_tokens.get(i);
            if self.symbol_ahead(sym) {
                // eat the symbol characters.
                self.it.eat_several(sym.unicode_len());
                // we have found a symbol match.
                return Ok(Token(Kind::Symbol, sym.to_owned()));
            }
            assert(symbols().skip(i as int).drop_first() =~= symbols().skip(i + 1));
            i += 1;
        }
        // no matches.
        Err("unknown token".to_owned())
    }
}

} // verus!
