//! What parsing means: the statements that a stream of tokens stands for, as
//! a function of the stream.
//!
//! Each production takes the stream in front of what it describes and gives
//! what it describes together with the stream behind it, or the message of
//! the first thing that is wrong.

use vstd::prelude::*;
use crate::ast::preprocessor::{ConstantView, FunctionView};
use crate::ast::statements::comment::{CommentView, Kind as CommentKind};
use crate::ast::statements::define::DefineView;
use crate::ast::{ExprView, StmtView};
use crate::identifier::valid_name;
use crate::token::expect::{checked_kind, checked_one_of, checked_something, checked_token, end_of_input};
use crate::token::stream::Stream;
use crate::token::{Kind, TokenView};

verus! {

/// The message for a word that is no identifier.
pub open spec fn invalid_identifier() -> Seq<char> {
    "invalid identifier"@
}

/// The message for a token that opens no expression.
pub open spec fn unexpected_token() -> Seq<char> {
    "unexpected token"@
}

/// The message for a parameter that is no identifier.
pub open spec fn expected_identifier() -> Seq<char> {
    "expected identifier"@
}

/// The message for a directive that is not known.
pub open spec fn unknown_directive(word: Seq<char>) -> Seq<char> {
    "unknown directive: "@ + word
}

/// The message for a token that opens no statement.
pub open spec fn unknown_statement(token: Seq<char>) -> Seq<char> {
    "unknown token: "@ + token
}

/// What a production found, and the stream behind it.
pub struct Parsed<T> {
    pub value: T,
    pub rest: Stream,
}

/// An expression: a word that is an identifier, or an integer literal.
pub open spec fn expression(s: Stream) -> Result<Parsed<ExprView>, Seq<char>> {
    match checked_something(s.front()) {
        Ok(token) => match token.kind {
            Kind::Word => if valid_name(token.text) {
                Ok(Parsed { value: ExprView::Identifier(token.text), rest: s.advance() })
            } else {
                Err(invalid_identifier())
            },
            Kind::IntegerLiteral => Ok(
                Parsed { value: ExprView::IntegerLiteral(token.text), rest: s.advance() },
            ),
            _ => Err(unexpected_token()),
        },
        Err(message) => Err(message),
    }
}

/// The two tokens that may follow an argument.
pub open spec fn argument_followers() -> Seq<TokenView> {
    seq![TokenView::symbol(","@), TokenView::symbol(")"@)]
}

/// The arguments of a list, from somewhere behind its `(` up to its `)`,
/// added to the arguments `found` before. Commas are passed over wherever
/// they stand; behind an argument a comma or the `)` has to follow.
pub open spec fn arguments(s: Stream, found: Seq<ExprView>) -> Result<
    Parsed<Seq<ExprView>>,
    Seq<char>,
>
    decreases s.tokens.len(),
{
    if s.front() == Some(Ok::<TokenView, Seq<char>>(TokenView::symbol(")"@))) {
        Ok(Parsed { value: found, rest: s })
    } else if s.front() == Some(Ok::<TokenView, Seq<char>>(TokenView::symbol(","@))) {
        arguments(s.advance(), found)
    } else {
        match expression(s) {
            Ok(argument) => match checked_one_of(argument.rest.front(), argument_followers()) {
                Ok(_) => arguments(argument.rest, found.push(argument.value)),
                Err(message) => Err(message),
            },
            Err(message) => Err(message),
        }
    }
}

/// An argument list: expressions in parentheses, separated by commas. The
/// stream starts with the `(`.
pub open spec fn argument_list(s: Stream) -> Result<Parsed<Seq<ExprView>>, Seq<char>> {
    match arguments(s.advance(), Seq::empty()) {
        Ok(list) => Ok(Parsed { value: list.value, rest: list.rest.advance() }),
        Err(message) => Err(message),
    }
}

/// The expression that a definition may end with: none where the line or the
/// text ends, one expression otherwise.
pub open spec fn optional_expression(s: Stream) -> Result<Parsed<Option<ExprView>>, Seq<char>> {
    if s.front() is None || (s.front() matches Some(Ok(token)) && token.kind == Kind::NewLine) {
        Ok(Parsed { value: None, rest: s })
    } else {
        match expression(s) {
            Ok(body) => Ok(Parsed { value: Some(body.value), rest: body.rest }),
            Err(message) => Err(message),
        }
    }
}

/// Whether every expression of `expressions` is an identifier.
pub open spec fn all_identifiers(expressions: Seq<ExprView>) -> bool {
    forall|i: int| 0 <= i < expressions.len() ==> #[trigger] expressions[i] is Identifier
}

/// The names of expressions that are identifiers.
pub open spec fn identifier_names(expressions: Seq<ExprView>) -> Seq<Seq<char>> {
    Seq::new(expressions.len(), |i: int| expressions[i]->Identifier_0)
}

/// What follows the name of a function-like macro: the parameters, which
/// have to be identifiers, and the body, if there is one. The stream starts
/// with the `(`.
pub open spec fn define_function(name: Seq<char>, s: Stream) -> Result<
    Parsed<DefineView>,
    Seq<char>,
> {
    match argument_list(s) {
        Ok(list) => if all_identifiers(list.value) {
            match optional_expression(list.rest) {
                Ok(body) => Ok(
                    Parsed {
                        value: DefineView::Function(
                            FunctionView {
                                name,
                                params: identifier_names(list.value),
                                expr: body.value,
                            },
                        ),
                        rest: body.rest,
                    },
                ),
                Err(message) => Err(message),
            }
        } else {
            Err(expected_identifier())
        },
        Err(message) => Err(message),
    }
}

/// What follows the name of a constant: its value, if there is one.
pub open spec fn define_constant(name: Seq<char>, s: Stream) -> Result<
    Parsed<DefineView>,
    Seq<char>,
> {
    match optional_expression(s) {
        Ok(body) => Ok(
            Parsed {
                value: DefineView::Constant(ConstantView { name, expr: body.value }),
                rest: body.rest,
            },
        ),
        Err(message) => Err(message),
    }
}

/// A definition: the word `define`, which the stream starts with, the name,
/// what the name stands for, and the end of the line. The name opens a
/// function-like macro where a `(` is the next token behind it, and a
/// constant otherwise.
pub open spec fn define(s: Stream) -> Result<Parsed<DefineView>, Seq<char>> {
    let named = s.advance();
    match checked_kind(named.front(), Kind::Word) {
        Ok(name) => if valid_name(name.text) {
            let body = named.advance();
            let defined = if body.front() == Some(
                Ok::<TokenView, Seq<char>>(TokenView::symbol("("@)),
            ) {
                define_function(name.text, body)
            } else {
                define_constant(name.text, body)
            };
            match defined {
                Ok(definition) => match checked_token(
                    definition.rest.front(),
                    TokenView::new_line(),
                ) {
                    Ok(_) => Ok(
                        Parsed { value: definition.value, rest: definition.rest.advance() },
                    ),
                    Err(message) => Err(message),
                },
                Err(message) => Err(message),
            }
        } else {
            Err(invalid_identifier())
        },
        Err(message) => Err(message),
    }
}

/// A directive: the `#`, which the stream starts with, and the word that
/// says which directive it is. Only `define` is known.
pub open spec fn directive(s: Stream) -> Result<Parsed<DefineView>, Seq<char>> {
    let worded = s.advance();
    match checked_kind(worded.front(), Kind::Word) {
        Ok(word) => if word.text == "define"@ {
            define(worded)
        } else {
            Err(unknown_directive(word.text))
        },
        Err(message) => Err(message),
    }
}

/// How a comment opens.
pub struct Opening {
    /// The kind of comment that opens.
    pub kind: CommentKind,
    /// The number of tokens that open it.
    pub length: nat,
}

/// The comment that opens at the front of the stream, if one does. A comment
/// opens with the symbol `//` or `/*`, or with the symbol `/` where the next
/// token is the symbol `/` or `*`.
pub open spec fn comment_opening(s: Stream) -> Option<Opening> {
    if s.front() == Some(Ok::<TokenView, Seq<char>>(TokenView::symbol("//"@))) {
        Some(Opening { kind: CommentKind::Line, length: 1 })
    } else if s.front() == Some(Ok::<TokenView, Seq<char>>(TokenView::symbol("/*"@))) {
        Some(Opening { kind: CommentKind::Block, length: 1 })
    } else if s.front() == Some(Ok::<TokenView, Seq<char>>(TokenView::symbol("/"@))) {
        if s.at(1) == Some(Ok::<TokenView, Seq<char>>(TokenView::symbol("/"@))) {
            Some(Opening { kind: CommentKind::Line, length: 2 })
        } else if s.at(1) == Some(Ok::<TokenView, Seq<char>>(TokenView::symbol("*"@))) {
            Some(Opening { kind: CommentKind::Block, length: 2 })
        } else {
            None
        }
    } else {
        None
    }
}

/// Whether `token` closes a comment of the kind `kind`: a new line closes a
/// line comment, the symbol `*/` a block comment.
pub open spec fn closes_comment(kind: CommentKind, token: TokenView) -> bool {
    match kind {
        CommentKind::Line => token.kind == Kind::NewLine,
        CommentKind::Block => token == TokenView::symbol("*/"@),
    }
}

/// The stream behind the next token that closes a comment of the kind `kind`.
pub open spec fn comment_end(s: Stream, kind: CommentKind) -> Result<Stream, Seq<char>>
    decreases s.tokens.len(),
{
    match s.front() {
        Some(Ok(token)) => if closes_comment(kind, token) {
            Ok(s.advance())
        } else {
            comment_end(s.advance(), kind)
        },
        Some(Err(message)) => Err(message),
        None => Err(end_of_input()),
    }
}

/// The stream without its first `n` tokens.
pub open spec fn advanced(s: Stream, n: nat) -> Stream
    decreases n,
{
    if n == 0 {
        s
    } else {
        advanced(s.advance(), (n - 1) as nat)
    }
}

/// A comment, which opens at the front of the stream and runs through the
/// token that closes it. Of the comment only its kind is kept.
pub open spec fn comment(s: Stream) -> Result<Parsed<CommentView>, Seq<char>> {
    let opening = comment_opening(s)->0;
    match comment_end(advanced(s, opening.length), opening.kind) {
        Ok(rest) => Ok(
            Parsed { value: CommentView { kind: opening.kind, body: Seq::empty() }, rest },
        ),
        Err(message) => Err(message),
    }
}

/// What parsing a stream comes to: the statements that were parsed, and the
/// message of the error that stopped the parse, if one did.
pub struct Outcome {
    pub statements: Seq<StmtView>,
    pub error: Option<Seq<char>>,
}

impl Outcome {
    /// The outcome that stops at once with `message`.
    pub open spec fn failure(message: Seq<char>) -> Outcome {
        Outcome { statements: Seq::empty(), error: Some(message) }
    }

    /// The outcome with `statement` in front of its statements.
    pub open spec fn after(self, statement: StmtView) -> Outcome {
        Outcome { statements: seq![statement] + self.statements, error: self.error }
    }
}

/// The statements of a stream, up to its end or to the first error. New
/// lines between statements are passed over, a `#` opens a directive, and a
/// comment may stand where a statement may.
pub open spec fn program(s: Stream) -> Outcome
    decreases s.tokens.len(),
    via program_terminates
{
    match s.front() {
        Some(Ok(token)) => if token.kind == Kind::NewLine {
            program(s.advance())
        } else if token == TokenView::symbol("#"@) {
            match directive(s) {
                Ok(definition) => program(definition.rest).after(
                    StmtView::Define(definition.value),
                ),
                Err(message) => Outcome::failure(message),
            }
        } else if comment_opening(s) is Some {
            match comment(s) {
                Ok(remark) => program(remark.rest).after(StmtView::Comment(remark.value)),
                Err(message) => Outcome::failure(message),
            }
        } else {
            Outcome::failure(unknown_statement(token.text))
        },
        Some(Err(message)) => Outcome::failure(message),
        None => Outcome { statements: Seq::empty(), error: None },
    }
}

/// Each statement takes at least one token, so that less of the stream is
/// left with every statement.
#[via_fn]
proof fn program_terminates(s: Stream) {
    lemma_directive_advances(s);
    if comment_opening(s) is Some {
        lemma_comment_advances(s);
    }
}

/// The argument loop hands on a stream that is no longer than the one it took.
pub proof fn lemma_arguments_advance(s: Stream, found: Seq<ExprView>)
    ensures
        arguments(s, found) matches Ok(list) ==> list.rest.tokens.len() <= s.tokens.len(),
    decreases s.tokens.len(),
{
    if s.front() == Some(Ok::<TokenView, Seq<char>>(TokenView::symbol(")"@))) {
    } else if s.front() == Some(Ok::<TokenView, Seq<char>>(TokenView::symbol(","@))) {
        lemma_arguments_advance(s.advance(), found);
    } else {
        match expression(s) {
            Ok(argument) => {
                lemma_arguments_advance(argument.rest, found.push(argument.value));
            },
            Err(_) => {},
        }
    }
}

/// A directive that parses takes at least one token.
pub proof fn lemma_directive_advances(s: Stream)
    ensures
        directive(s) matches Ok(definition) ==> definition.rest.tokens.len() < s.tokens.len(),
{
    let named = s.advance().advance();
    let body = named.advance();
    lemma_arguments_advance(body.advance(), Seq::empty());
}

/// The end of a comment lies behind at least one token.
pub proof fn lemma_comment_end_advances(s: Stream, kind: CommentKind)
    ensures
        comment_end(s, kind) matches Ok(rest) ==> rest.tokens.len() < s.tokens.len(),
    decreases s.tokens.len(),
{
    match s.front() {
        Some(Ok(token)) => {
            if !closes_comment(kind, token) {
                lemma_comment_end_advances(s.advance(), kind);
            }
        },
        _ => {},
    }
}

/// A comment that parses takes at least one token.
pub proof fn lemma_comment_advances(s: Stream)
    requires
        comment_opening(s) is Some,
    ensures
        comment(s) matches Ok(remark) ==> remark.rest.tokens.len() < s.tokens.len(),
{
    let opening = comment_opening(s)->0;
    reveal_with_fuel(advanced, 3);
    lemma_comment_end_advances(advanced(s, opening.length), opening.kind);
}

} // verus!
