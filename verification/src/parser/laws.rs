//! Where the texts of the tree come from: every name and every literal that a
//! parsed statement stores is the text of a token of the stream, and so a piece
//! of the source, character for character.

use vstd::prelude::*;
use crate::ast::statements::comment::Kind as CommentKind;
use crate::ast::statements::define::DefineView;
use crate::ast::{ExprView, StmtView};
use crate::parser::grammar::{
    advanced, arguments, closes_comment, comment, comment_end, comment_opening, define_constant,
    define_function, directive, expression, lemma_comment_advances, lemma_directive_advances,
    optional_expression, program,
};
use crate::token::stream::{lemma_token_text_is_source_text, lex, Stream};
use crate::token::{Kind, TokenView};

verus! {

/// The token that an expression is parsed from.
pub open spec fn expression_token(expression: ExprView) -> TokenView {
    match expression {
        ExprView::Identifier(text) => TokenView::word(text),
        ExprView::IntegerLiteral(text) => TokenView::integer(text),
    }
}

/// Whether the expression, if there is one, is parsed from a token of
/// `tokens`.
pub open spec fn optional_drawn_from(expression: Option<ExprView>, tokens: Set<TokenView>) -> bool {
    match expression {
        Some(expression) => tokens.contains(expression_token(expression)),
        None => true,
    }
}

/// Whether each name and each literal that the definition stores is the text
/// of a token of `tokens`: of a word for a name, of an integer literal for a
/// literal.
pub open spec fn definition_drawn_from(definition: DefineView, tokens: Set<TokenView>) -> bool {
    match definition {
        DefineView::Constant(constant) => {
            &&& tokens.contains(TokenView::word(constant.name))
            &&& optional_drawn_from(constant.expr, tokens)
        },
        DefineView::Function(function) => {
            &&& tokens.contains(TokenView::word(function.name))
            &&& forall|i: int|
                0 <= i < function.params.len() ==> tokens.contains(
                    TokenView::word(#[trigger] function.params[i]),
                )
            &&& optional_drawn_from(function.expr, tokens)
        },
    }
}

/// Whether each name and each literal that the statement stores is the text
/// of a token of `tokens`. A comment stores no text.
pub open spec fn drawn_from(statement: StmtView, tokens: Set<TokenView>) -> bool
    decreases statement,
{
    match statement {
        StmtView::Define(definition) => definition_drawn_from(definition, tokens),
        StmtView::Comment(comment) => comment.body.len() == 0,
        StmtView::Block(statements) => forall|i: int|
            0 <= i < statements.len() ==> drawn_from(#[trigger] statements[i], tokens),
    }
}

/// The tokens of a stream, as a set.
pub open spec fn tokens_of(s: Stream) -> Set<TokenView> {
    Set::new(|token: TokenView| s.tokens.contains(token))
}

/// The words and integer literals whose text is a piece of `chars`.
pub open spec fn pieces_of(chars: Seq<char>) -> Set<TokenView> {
    Set::new(
        |token: TokenView|
            (token.kind == Kind::Word || token.kind == Kind::IntegerLiteral) && exists|
                from: int,
                to: int,
            |
                0 <= from <= to <= chars.len() && token.text == #[trigger] chars.subrange(from, to),
    )
}

/// Whether `rest` is what is left of `s` after some of its tokens.
pub open spec fn follows(rest: Stream, s: Stream) -> bool {
    exists|taken: int|
        0 <= taken <= s.tokens.len() && rest.tokens == #[trigger] s.tokens.skip(taken)
}

/// A stream is what is left of itself, and so is the stream behind its front.
proof fn lemma_follows_self(s: Stream)
    ensures
        follows(s, s),
        follows(s.advance(), s),
{
    assert(s.tokens =~= s.tokens.skip(0));
    if s.tokens.len() > 0 {
        assert(s.advance().tokens =~= s.tokens.skip(1));
    }
}

/// Taking one more token leaves what is left of the same stream.
proof fn lemma_follows_advance(rest: Stream, s: Stream)
    requires
        follows(rest, s),
    ensures
        follows(rest.advance(), s),
{
    let taken = choose|taken: int|
        0 <= taken <= s.tokens.len() && rest.tokens == #[trigger] s.tokens.skip(taken);
    if rest.tokens.len() > 0 {
        assert(rest.advance().tokens =~= s.tokens.skip(taken + 1));
    }
}

/// What is left of a stream holds tokens of that stream only.
proof fn lemma_follows_tokens(rest: Stream, s: Stream)
    requires
        follows(rest, s),
    ensures
        tokens_of(rest).subset_of(tokens_of(s)),
{
    let taken = choose|taken: int|
        0 <= taken <= s.tokens.len() && rest.tokens == #[trigger] s.tokens.skip(taken);
    assert forall|token: TokenView| tokens_of(rest).contains(token) implies tokens_of(s).contains(
        token,
    ) by {
        let i = choose|i: int| 0 <= i < rest.tokens.len() && rest.tokens[i] == token;
        assert(s.tokens[taken + i] == token);
    }
}

/// What is left of what is left of a stream is left of that stream.
proof fn lemma_follows_transitive(last: Stream, rest: Stream, s: Stream)
    requires
        follows(last, rest),
        follows(rest, s),
    ensures
        follows(last, s),
{
    let a = choose|taken: int|
        0 <= taken <= s.tokens.len() && rest.tokens == #[trigger] s.tokens.skip(taken);
    let b = choose|taken: int|
        0 <= taken <= rest.tokens.len() && last.tokens == #[trigger] rest.tokens.skip(taken);
    assert(last.tokens =~= s.tokens.skip(a + b));
}

/// An expression stores the text of the token that it is parsed from, as it
/// stands.
pub proof fn lemma_expression_keeps_text(s: Stream)
    ensures
        expression(s) matches Ok(parsed) ==> {
            &&& s.front() == Some(Ok::<TokenView, Seq<char>>(expression_token(parsed.value)))
            &&& parsed.rest == s.advance()
        },
{
}

/// The argument loop keeps the arguments found before, adds expressions that
/// are parsed from tokens of the stream, and leaves what is left of the stream.
proof fn lemma_arguments_drawn(s: Stream, found: Seq<ExprView>)
    ensures
        arguments(s, found) matches Ok(list) ==> {
            &&& follows(list.rest, s)
            &&& found.len() <= list.value.len()
            &&& forall|i: int| 0 <= i < found.len() ==> list.value[i] == found[i]
            &&& forall|i: int|
                found.len() <= i < list.value.len() ==> tokens_of(s).contains(
                    expression_token(#[trigger] list.value[i]),
                )
        },
    decreases s.tokens.len(),
{
    if arguments(s, found) is Ok {
        let list = arguments(s, found)->Ok_0;
        if s.front() == Some(Ok::<TokenView, Seq<char>>(TokenView::symbol(")"@))) {
            lemma_follows_self(s);
        } else if s.front() == Some(Ok::<TokenView, Seq<char>>(TokenView::symbol(","@))) {
            lemma_arguments_drawn(s.advance(), found);
            lemma_follows_self(s);
            lemma_follows_transitive(list.rest, s.advance(), s);
            lemma_follows_tokens(s.advance(), s);
        } else {
            let argument = expression(s)->Ok_0;
            let more = found.push(argument.value);
            lemma_arguments_drawn(argument.rest, more);
            lemma_follows_self(s);
            lemma_follows_transitive(list.rest, s.advance(), s);
            lemma_follows_tokens(s.advance(), s);
            assert(s.tokens[0] == expression_token(argument.value));
            assert forall|i: int| found.len() <= i < list.value.len() implies tokens_of(
                s,
            ).contains(expression_token(#[trigger] list.value[i])) by {
                if i == found.len() {
                    assert(list.value[i] == more[i]);
                }
            }
            assert forall|i: int| 0 <= i < found.len() implies list.value[i] == found[i] by {
                assert(list.value[i] == more[i]);
            }
        }
    }
}

/// The expression that may end a definition is parsed from a token of the
/// stream, and what is left of the stream lies behind it.
proof fn lemma_optional_expression_drawn(s: Stream)
    ensures
        optional_expression(s) matches Ok(parsed) ==> follows(parsed.rest, s)
            && optional_drawn_from(parsed.value, tokens_of(s)),
{
    lemma_follows_self(s);
    if optional_expression(s) matches Ok(parsed) && parsed.value is Some {
        assert(s.tokens[0] == expression_token(expression(s)->Ok_0.value));
    }
}

/// An expression that is parsed from a token of some tokens is parsed from a
/// token of any larger set.
proof fn lemma_optional_drawn_monotonic(
    expression: Option<ExprView>,
    fewer: Set<TokenView>,
    more: Set<TokenView>,
)
    requires
        optional_drawn_from(expression, fewer),
        fewer.subset_of(more),
    ensures
        optional_drawn_from(expression, more),
{
}

/// A function-like macro keeps the name that it was given, and has its
/// parameters and its body from tokens of the stream.
proof fn lemma_define_function_drawn(name: Seq<char>, s: Stream)
    ensures
        define_function(name, s) matches Ok(parsed) ==> {
            &&& follows(parsed.rest, s)
            &&& parsed.value matches DefineView::Function(function)
            &&& function.name == name
            &&& forall|i: int|
                0 <= i < function.params.len() ==> tokens_of(s).contains(
                    TokenView::word(#[trigger] function.params[i]),
                )
            &&& optional_drawn_from(function.expr, tokens_of(s))
        },
{
    if define_function(name, s) is Ok {
        let parsed = define_function(name, s)->Ok_0;
        let list = arguments(s.advance(), Seq::empty())->Ok_0;
        lemma_arguments_drawn(s.advance(), Seq::empty());
        lemma_follows_self(s);
        lemma_follows_tokens(s.advance(), s);
        lemma_follows_advance(list.rest, s.advance());
        let body = list.rest.advance();
        lemma_follows_transitive(body, s.advance(), s);
        lemma_optional_expression_drawn(body);
        let rest = optional_expression(body)->Ok_0.rest;
        lemma_follows_transitive(rest, body, s);
        lemma_follows_tokens(body, s);
        let function = parsed.value->Function_0;
        assert forall|i: int| 0 <= i < function.params.len() implies tokens_of(s).contains(
            TokenView::word(#[trigger] function.params[i]),
        ) by {
            assert(list.value[i] is Identifier);
            assert(tokens_of(s.advance()).contains(expression_token(list.value[i])));
        }
    }
}

/// A directive that parses stores texts of tokens of the stream only, and
/// leaves what is left of the stream after some of its tokens.
pub proof fn lemma_directive_drawn(s: Stream)
    ensures
        directive(s) matches Ok(parsed) ==> follows(parsed.rest, s) && definition_drawn_from(
            parsed.value,
            tokens_of(s),
        ),
{
    if directive(s) is Ok {
        let parsed = directive(s)->Ok_0;
        let worded = s.advance();
        let named = worded.advance();
        let body = named.advance();
        let name = named.tokens[0];
        lemma_follows_self(s);
        lemma_follows_advance(worded, s);
        lemma_follows_advance(named, s);
        lemma_follows_tokens(named, s);
        lemma_follows_tokens(body, s);
        assert(tokens_of(named).contains(name));
        assert(name == TokenView::word(name.text));
        if body.front() == Some(Ok::<TokenView, Seq<char>>(TokenView::symbol("("@))) {
            lemma_define_function_drawn(name.text, body);
            let defined = define_function(name.text, body)->Ok_0;
            lemma_follows_transitive(defined.rest, body, s);
            lemma_follows_advance(defined.rest, s);
            let function = defined.value->Function_0;
            lemma_optional_drawn_monotonic(function.expr, tokens_of(body), tokens_of(s));
        } else {
            lemma_optional_expression_drawn(body);
            let defined = define_constant(name.text, body)->Ok_0;
            lemma_follows_transitive(defined.rest, body, s);
            lemma_follows_advance(defined.rest, s);
            let constant = defined.value->Constant_0;
            lemma_optional_drawn_monotonic(constant.expr, tokens_of(body), tokens_of(s));
        }
    }
}

/// Behind the end of a comment lies what is left of the stream.
proof fn lemma_comment_end_follows(s: Stream, kind: CommentKind)
    ensures
        comment_end(s, kind) matches Ok(rest) ==> follows(rest, s),
    decreases s.tokens.len(),
{
    lemma_follows_self(s);
    if comment_end(s, kind) is Ok {
        let rest = comment_end(s, kind)->Ok_0;
        let token = s.tokens[0];
        if !closes_comment(kind, token) {
            lemma_comment_end_follows(s.advance(), kind);
            lemma_follows_transitive(rest, s.advance(), s);
        }
    }
}

/// A comment stores no text, and behind it lies what is left of the stream.
proof fn lemma_comment_follows(s: Stream)
    requires
        comment_opening(s) is Some,
    ensures
        comment(s) matches Ok(parsed) ==> follows(parsed.rest, s) && parsed.value.body.len() == 0,
{
    reveal_with_fuel(advanced, 3);
    let opening = comment_opening(s)->0;
    let body = advanced(s, opening.length);
    lemma_follows_self(s);
    lemma_follows_advance(s.advance(), s);
    lemma_comment_end_follows(body, opening.kind);
    if comment(s) is Ok {
        lemma_follows_transitive(comment(s)->Ok_0.rest, body, s);
    }
}

/// Every statement that is parsed from a stream stores texts of tokens of
/// that stream only: each name is the text of one of its words, each literal
/// the text of one of its integer literals, as it stands.
pub proof fn lemma_tree_drawn_from_tokens(s: Stream, i: int)
    requires
        0 <= i < program(s).statements.len(),
    ensures
        drawn_from(program(s).statements[i], tokens_of(s)),
    decreases s.tokens.len(),
{
    lemma_follows_self(s);
    match s.front() {
        Some(Ok(token)) => {
            if token.kind == Kind::NewLine {
                lemma_tree_drawn_from_tokens(s.advance(), i);
                lemma_follows_tokens(s.advance(), s);
                lemma_drawn_monotonic(
                    program(s).statements[i],
                    tokens_of(s.advance()),
                    tokens_of(s),
                );
            } else if token == TokenView::symbol("#"@) {
                lemma_directive_advances(s);
                lemma_directive_drawn(s);
                let definition = directive(s)->Ok_0;
                if i > 0 {
                    lemma_tree_drawn_from_tokens(definition.rest, i - 1);
                    lemma_follows_tokens(definition.rest, s);
                    lemma_drawn_monotonic(
                        program(s).statements[i],
                        tokens_of(definition.rest),
                        tokens_of(s),
                    );
                }
            } else if comment_opening(s) is Some {
                lemma_comment_advances(s);
                lemma_comment_follows(s);
                let remark = comment(s)->Ok_0;
                if i > 0 {
                    lemma_tree_drawn_from_tokens(remark.rest, i - 1);
                    lemma_follows_tokens(remark.rest, s);
                    lemma_drawn_monotonic(
                        program(s).statements[i],
                        tokens_of(remark.rest),
                        tokens_of(s),
                    );
                }
            }
        },
        _ => {},
    }
}

/// A statement whose texts are texts of some tokens has them from any larger
/// set of tokens as well.
pub proof fn lemma_drawn_monotonic(
    statement: StmtView,
    fewer: Set<TokenView>,
    more: Set<TokenView>,
)
    requires
        drawn_from(statement, fewer),
        forall|token: TokenView|
            (token.kind == Kind::Word || token.kind == Kind::IntegerLiteral) && fewer.contains(
                token,
            ) ==> more.contains(token),
    ensures
        drawn_from(statement, more),
    decreases statement,
{
    match statement {
        StmtView::Block(statements) => {
            assert forall|i: int| 0 <= i < statements.len() implies drawn_from(
                #[trigger] statements[i],
                more,
            ) by {
                lemma_drawn_monotonic(statements[i], fewer, more);
            }
        },
        _ => {},
    }
}

/// Every name and every literal in the tree that a text parses to is a piece
/// of that text, character for character: nothing is folded, trimmed or
/// made up.
pub proof fn lemma_tree_text_is_source_text(chars: Seq<char>, i: int)
    requires
        0 <= i < program(lex(chars)).statements.len(),
    ensures
        drawn_from(program(lex(chars)).statements[i], pieces_of(chars)),
{
    let s = lex(chars);
    lemma_tree_drawn_from_tokens(s, i);
    assert forall|token: TokenView|
        (token.kind == Kind::Word || token.kind == Kind::IntegerLiteral) && tokens_of(s).contains(
            token,
        ) implies pieces_of(chars).contains(token) by {
        let at = choose|at: int| 0 <= at < s.tokens.len() && s.tokens[at] == token;
        lemma_token_text_is_source_text(chars, at);
    }
    lemma_drawn_monotonic(program(s).statements[i], tokens_of(s), pieces_of(chars));
}

} // verus!
