//! Tokens: the units that the tokenizer cuts the source text into.

use vstd::prelude::*;
use vstd::std_specs::cmp::PartialEqSpecImpl;

pub mod expect;
pub mod stream;
pub mod symbols;
pub mod tokenizer;

pub use tokenizer::Tokenizer;

verus! {

/// The type of a token.
#[derive(Clone, Copy, Debug, PartialEq, Eq, Structural)]
pub enum Kind {
    Symbol,
    Word,
    IntegerLiteral,
    StringLiteral,
    NewLine,
}

/// How a kind of token is called in a message.
pub open spec fn kind_name(kind: Kind) -> Seq<char> {
    match kind {
        Kind::Symbol => "symbol"@,
        Kind::Word => "word"@,
        Kind::IntegerLiteral => "integer"@,
        Kind::StringLiteral => "string"@,
        Kind::NewLine => "new line"@,
    }
}

impl Kind {
    /// The kind's name, as messages show it.
    pub fn to_string(&self) -> (name: String)
        ensures
            name@ == kind_name(*self),
    {
        match self {
            Kind::Symbol => "symbol",
            Kind::Word => "word",
            Kind::IntegerLiteral => "integer",
            Kind::StringLiteral => "string",
            Kind::NewLine => "new line",
        }.to_owned()
    }
}

/// A token.
#[derive(Debug)]
pub struct Token(pub Kind, pub String);

/// What a token is in contracts: its kind and its text.
pub struct TokenView {
    pub kind: Kind,
    pub text: Seq<char>,
}

impl TokenView {
    /// The token that ends a line.
    pub open spec fn new_line() -> TokenView {
        TokenView { kind: Kind::NewLine, text: "new-line"@ }
    }

    /// The symbol written `text`.
    pub open spec fn symbol(text: Seq<char>) -> TokenView {
        TokenView { kind: Kind::Symbol, text }
    }

    /// The word written `text`.
    pub open spec fn word(text: Seq<char>) -> TokenView {
        TokenView { kind: Kind::Word, text }
    }

    /// The integer literal written `text`.
    pub open spec fn integer(text: Seq<char>) -> TokenView {
        TokenView { kind: Kind::IntegerLiteral, text }
    }
}

impl View for Token {
    type V = TokenView;

    open spec fn view(&self) -> TokenView {
        TokenView { kind: self.0, text: self.1@ }
    }
}

impl Clone for Token {
    fn clone(&self) -> (token: Token)
        ensures
            token == *self,
    {
        Token(self.0, self.1.clone())
    }
}

impl PartialEq for Token {
    /// Two tokens are equal when their kinds and their texts are.
    fn eq(&self, other: &Token) -> (equal: bool) {
        self.0 == other.0 && self.1 == other.1
    }
}

impl PartialEqSpecImpl for Token {
    open spec fn obeys_eq_spec() -> bool {
        true
    }

    open spec fn eq_spec(&self, other: &Token) -> bool {
        self@ == other@
    }
}

impl Eq for Token {}

impl Token {
    /// The token that ends a line, and that closes the text.
    pub fn new_line() -> (token: Token)
        ensures
            token@ == TokenView::new_line(),
    {
        Token(Kind::NewLine, "new-line".to_owned())
    }

    /// The symbol `(`.
    pub fn left_parenthesis() -> (token: Token)
        ensures
            token@ == TokenView::symbol("("@),
    {
        Token(Kind::Symbol, "(".to_owned())
    }

    /// The symbol `)`.
    pub fn right_parenthesis() -> (token: Token)
        ensures
            token@ == TokenView::symbol(")"@),
    {
        Token(Kind::Symbol, ")".to_owned())
    }

    /// The symbol `#`.
    pub fn hash() -> (token: Token)
        ensures
            token@ == TokenView::symbol("#"@),
    {
        Token(Kind::Symbol, "#".to_owned())
    }

    /// The symbol `,`.
    pub fn comma() -> (token: Token)
        ensures
            token@ == TokenView::symbol(","@),
    {
        Token(Kind::Symbol, ",".to_owned())
    }

    /// The symbol `;`.
    pub fn semicolon() -> (token: Token)
        ensures
            token@ == TokenView::symbol(";"@),
    {
        Token(Kind::Symbol, ";".to_owned())
    }

    /// The symbol `/`.
    pub fn forward_slash() -> (token: Token)
        ensures
            token@ == TokenView::symbol("/"@),
    {
        Token(Kind::Symbol, "/".to_owned())
    }

    /// The symbol `/*`.
    pub fn forward_slash_asterix() -> (token: Token)
        ensures
            token@ == TokenView::symbol("/*"@),
    {
        Token(Kind::Symbol, "/*".to_owned())
    }

    /// The symbol `*/`.
    pub fn asterix_forward_slash() -> (token: Token)
        ensures
            token@ == TokenView::symbol("*/"@),
    {
        Token(Kind::Symbol, "*/".to_owned())
    }

    /// The symbol `//`.
    pub fn forward_slash_slash() -> (token: Token)
        ensures
            token@ == TokenView::symbol("//"@),
    {
        Token(Kind::Symbol, "//".to_owned())
    }

    /// The symbol `*`.
    pub fn asterix() -> (token: Token)
        ensures
            token@ == TokenView::symbol("*"@),
    {
        Token(Kind::Symbol, "*".to_owned())
    }

    /// The word `define`.
    pub fn define() -> (token: Token)
        ensures
            token@ == TokenView::word("define"@),
    {
        Token(Kind::Word, "define".to_owned())
    }

    /// Gives up the token for its text.
    pub fn move_value(self) -> (text: String)
        ensures
            text == self.1,
    {
        self.1
    }

    /// The token's text.
    pub fn value<'a>(&'a self) -> (text: &'a str)
        ensures
            text@ == self@.text,
    {
        self.1.as_str()
    }

    /// Checks if the token is of a given kind.
    pub fn is(&self, kind: Kind) -> (b: bool)
        ensures
            b == (self@.kind == kind),
    {
        self.0 == kind
    }

    /// The token as messages show it: its text.
    pub fn to_string(&self) -> (text: String)
        ensures
            text@ == self@.text,
    {
        self.1.clone()
    }
}

} // verus!
