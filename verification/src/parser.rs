//! The parser: reads tokens and builds the tree of statements.

use vstd::prelude::*;
use vstd::string::StringExecFns;
use crate::ast::expressions::IntegerLiteral;
use crate::ast::preprocessor::names;
use crate::ast::statements::comment::Kind as CommentKind;
use crate::ast::statements::{Comment, Define};
use crate::ast::{optional_view, Ast, Expr, ExprView, Expression, Statement, StmtView};
use crate::identifier::Identifier;
use crate::parser::grammar::{
    advanced, argument_followers, argument_list, arguments, comment, comment_end,
    comment_opening, define, define_constant, define_function, directive, expression,
    identifier_names, lemma_comment_advances, lemma_directive_advances, optional_expression,
    program, Opening,
};
use crate::token::expect;
use crate::token::{Kind, Token, TokenView, Tokenizer};

pub mod grammar;
pub mod laws;

verus! {

/// The views of the expressions of `expressions`.
pub open spec fn expression_views(expressions: Seq<Expr>) -> Seq<ExprView> {
    Seq::new(expressions.len(), |i: int| expressions[i]@)
}

/// A parser can read C code and encode it into an AST.
pub struct Parser {
    pub ast: Ast,
}

impl Parser {
    /// Creates a new parser.
    pub fn new() -> (parser: Parser)
        ensures
            parser.ast@ == Seq::<StmtView>::empty(),
    {
        Parser { ast: Ast::new() }
    }

    /// Parses a tokenizer.
    ///
    /// The statements of the text are added to the tree in the order of the
    /// source. The first error stops the parse: the statements before it stay
    /// in the tree, and its message is returned.
    pub fn parse(&mut self, it: Tokenizer) -> (result: Result<(), String>)
        ensures
            final(self).ast@ == old(self).ast@ + program(it@).statements,
            match program(it@).error {
                Some(message) => result matches Err(text) && text@ == message,
                None => result is Ok,
            },
    {
        let mut tokens = it;
        let ghost mut parsed: Seq<StmtView> = Seq::empty();
        assert(self.ast@ =~= old(self).ast@ + parsed);
        assert(parsed + program(it@).statements =~= program(it@).statements);
        loop
            invariant
                self.ast@ == old(self).ast@ + parsed,
                program(it@).statements == parsed + program(tokens@).statements,
                program(it@).error == program(tokens@).error,
            decreases tokens@.tokens.len(),
        {
            let ghost here = tokens@;
            match tokens.peek() {
                Some(Ok(tok)) => {
                    if tok.is(Kind::NewLine) {
                        tokens.eat();
                        continue ;
                    }
                    if tok == Token::hash() {
                        proof {
                            lemma_directive_advances(here);
                        }
                        match self.parse_directive(&mut tokens) {
                            Ok(definition) => {
                                let ghost before = self.ast@;
                                self.ast.nodes.push(definition.to_stmt());
                                proof {
                                    assert(self.ast@ =~= before.push(StmtView::Define(definition@)));
                                    let earlier = parsed;
                                    parsed = parsed.push(StmtView::Define(definition@));
                                    assert(self.ast@ =~= old(self).ast@ + parsed);
                                    assert(parsed + program(tokens@).statements =~= earlier + program(
                                        here,
                                    ).statements);
                                }
                            },
                            Err(err) => {
                                assert(parsed + Seq::<StmtView>::empty() =~= parsed);
                                return Err(err);
                            },
                        }
                        continue ;
                    }
                    match self.peek_comment(&tok, &mut tokens) {
                        Some((kind, length)) => {
                            proof {
                                lemma_comment_advances(here);
                            }
                            match self.parse_comment(&mut tokens, kind, length) {
                                Ok(remark) => {
                                    let ghost before = self.ast@;
                                    self.ast.nodes.push(remark.to_stmt());
                                    proof {
                                        assert(self.ast@ =~= before.push(StmtView::Comment(remark@)));
                                        let earlier = parsed;
                                        parsed = parsed.push(StmtView::Comment(remark@));
                                        assert(self.ast@ =~= old(self).ast@ + parsed);
                                        assert(parsed + program(tokens@).statements =~= earlier
                                            + program(here).statements);
                                    }
                                },
                                Err(err) => {
                                    assert(parsed + Seq::<StmtView>::empty() =~= parsed);
                                    return Err(err);
                                },
                            }
                        },
                        None => {
                            // we don't know how to handle this token.
                            let mut msg = "unknown token: ".to_owned();
                            msg.append(tok.value());
                            assert(parsed + Seq::<StmtView>::empty() =~= parsed);
                            return Err(msg);
                        },
                    }
                },
                Some(Err(err)) => {
                    assert(parsed + Seq::<StmtView>::empty() =~= parsed);
                    return Err(err);
                },
                None => {
                    // we reached the end.
                    assert(parsed + Seq::<StmtView>::empty() =~= parsed);
                    return Ok(());
                },
            }
        }
    }

    /// Parses a directive, from its `#` through the end of its line.
    fn parse_directive(&mut self, it: &mut Tokenizer) -> (result: Result<Define, String>)
        requires
            old(it)@.front() == Some(Ok::<TokenView, Seq<char>>(TokenView::symbol("#"@))),
        ensures
            final(self).ast == old(self).ast,
            match directive(old(it)@) {
                Ok(parsed) => result matches Ok(definition) && definition@ == parsed.value
                    && final(it)@ == parsed.rest,
                Err(message) => result matches Err(text) && text@ == message,
            },
    {
        expect::assert_token(it.next(), &Token::hash());
        match expect::kind(it.peek(), Kind::Word) {
            Ok(word) => {
                if word == Token::define() {
                    self.parse_define(it)
                } else {
                    let mut msg = "unknown directive: ".to_owned();
                    msg.append(word.value());
                    Err(msg)
                }
            },
            Err(err) => Err(err),
        }
    }

    /// Parses a definition, from the word `define` through the end of its
    /// line.
    fn parse_define(&mut self, it: &mut Tokenizer) -> (result: Result<Define, String>)
        requires
            old(it)@.front() == Some(Ok::<TokenView, Seq<char>>(TokenView::word("define"@))),
        ensures
            final(self).ast == old(self).ast,
            match define(old(it)@) {
                Ok(parsed) => result matches Ok(definition) && definition@ == parsed.value
                    && final(it)@ == parsed.rest,
                Err(message) => result matches Err(text) && text@ == message,
            },
    {
        expect::assert_token(it.next(), &Token::define());
        let name_str = match expect::kind(it.next(), Kind::Word) {
            Ok(word) => word.move_value(),
            Err(err) => {
                return Err(err);
            },
        };
        let name = match Identifier::from_name(name_str) {
            Some(name) => name,
            None => {
                return Err("invalid identifier".to_owned());
            },
        };
        let function_like = match it.peek() {
            Some(Ok(tok)) => tok == Token::left_parenthesis(),
            _ => false,
        };
        let defined = if function_like {
            self.parse_define_function(name, it)
        } else {
            self.parse_define_constant(name, it)
        };
        match defined {
            Ok(definition) => match expect::token(it.next(), &Token::new_line()) {
                Ok(_) => Ok(definition),
                Err(err) => Err(err),
            },
            Err(err) => Err(err),
        }
    }

    /// Parses what follows the name of a function-like macro: the parameter
    /// list and the body, if there is one.
    fn parse_define_function(&mut self, name: Identifier, it: &mut Tokenizer) -> (result: Result<
        Define,
        String,
    >)
        requires
            old(it)@.front() == Some(Ok::<TokenView, Seq<char>>(TokenView::symbol("("@))),
        ensures
            final(self).ast == old(self).ast,
            match define_function(name@, old(it)@) {
                Ok(parsed) => result matches Ok(definition) && definition@ == parsed.value
                    && final(it)@ == parsed.rest,
                Err(message) => result matches Err(text) && text@ == message,
            },
    {
        let arguments = match self.parse_argument_list(it) {
            Ok(arguments) => arguments,
            Err(err) => {
                return Err(err);
            },
        };
        let mut params: Vec<Identifier> = Vec::new();
        let mut i: usize = 0;
        while i < arguments.len()
            invariant
                self.ast == old(self).ast,
                i <= arguments.len(),
                params@.len() == i,
                argument_list(old(it)@) matches Ok(parsed) && expression_views(arguments@)
                    == parsed.value && it@ == parsed.rest,
                forall|j: int| 0 <= j < i ==> #[trigger] expression_views(arguments@)[j] is Identifier,
                forall|j: int|
                    0 <= j < i ==> (#[trigger] params@[j])@ == identifier_names(
                        expression_views(arguments@),
                    )[j],
            decreases arguments.len() - i,
        {
            match &arguments[i] {
                Expr::Identifier(identifier) => {
                    params.push(identifier.clone());
                },
                _ => {
                    assert(!(expression_views(arguments@)[i as int] is Identifier));
                    return Err("expected identifier".to_owned());
                },
            }
            i += 1;
        }
        assert(names(params@) =~= identifier_names(expression_views(arguments@)));
        match self.parse_optional_expression(it) {
            Ok(expr) => Ok(Define::function(name, params, expr)),
            Err(err) => Err(err),
        }
    }

    /// Parses what follows the name of a constant: its value, if there is
    /// one.
    fn parse_define_constant(&mut self, name: Identifier, it: &mut Tokenizer) -> (result: Result<
        Define,
        String,
    >)
        ensures
            final(self).ast == old(self).ast,
            match define_constant(name@, old(it)@) {
                Ok(parsed) => result matches Ok(definition) && definition@ == parsed.value
                    && final(it)@ == parsed.rest,
                Err(message) => result matches Err(text) && text@ == message,
            },
    {
        match self.parse_optional_expression(it) {
            Ok(expr) => Ok(Define::constant(name, expr)),
            Err(err) => Err(err),
        }
    }

    /// Parses the expression that a definition may end with: none where the
    /// line or the text ends, one expression otherwise.
    fn parse_optional_expression(&mut self, it: &mut Tokenizer) -> (result: Result<
        Option<Expr>,
        String,
    >)
        ensures
            final(self).ast == old(self).ast,
            match optional_expression(old(it)@) {
                Ok(parsed) => result matches Ok(expr) && optional_view(expr) == parsed.value
                    && final(it)@ == parsed.rest,
                Err(message) => result matches Err(text) && text@ == message,
            },
    {
        match it.peek() {
            Some(Ok(tok)) => {
                if tok.is(Kind::NewLine) {
                    return Ok(None);
                }
            },
            Some(Err(_)) => (),
            None => {
                return Ok(None);
            },
        }
        match self.parse_expression(it) {
            Ok(expr) => Ok(Some(expr)),
            Err(err) => Err(err),
        }
    }

    /// Parses an expression.
    fn parse_expression(&mut self, it: &mut Tokenizer) -> (result: Result<Expr, String>)
        ensures
            final(self).ast == old(self).ast,
            match expression(old(it)@) {
                Ok(parsed) => result matches Ok(expr) && expr@ == parsed.value && final(it)@
                    == parsed.rest,
                Err(message) => result matches Err(text) && text@ == message,
            },
    {
        match expect::something(it.peek()) {
            Ok(tok) => match tok.0 {
                Kind::Word => self.parse_identifier(it),
                Kind::IntegerLiteral => self.parse_integer_literal(it),
                _ => Err("unexpected token".to_owned()),
            },
            Err(err) => Err(err),
        }
    }

    /// Parses an identifier: the word that comes next, taken as it stands.
    fn parse_identifier(&mut self, it: &mut Tokenizer) -> (result: Result<Expr, String>)
        requires
            old(it)@.front() matches Some(Ok(token)) && token.kind == Kind::Word,
        ensures
            final(self).ast == old(self).ast,
            final(it)@ == old(it)@.advance(),
            match expression(old(it)@) {
                Ok(parsed) => result matches Ok(expr) && expr@ == parsed.value,
                Err(message) => result matches Err(text) && text@ == message,
            },
    {
        let word = expect::assert_kind(it.next(), Kind::Word);
        // create a new identifier.
        match Identifier::from_name(word.move_value()) {
            // the word is a valid identifier.
            Some(ident) => Ok(ident.to_expr()),
            // the word is an ill formed identifier.
            None => Err("invalid identifier".to_owned()),
        }
    }

    /// Parses an integer literal: the literal that comes next, taken as it
    /// stands.
    fn parse_integer_literal(&mut self, it: &mut Tokenizer) -> (result: Result<Expr, String>)
        requires
            old(it)@.front() matches Some(Ok(token)) && token.kind == Kind::IntegerLiteral,
        ensures
            final(self).ast == old(self).ast,
            final(it)@ == old(it)@.advance(),
            result matches Ok(expr) && expr@ == ExprView::IntegerLiteral(
                old(it)@.front()->0->Ok_0.text,
            ),
    {
        let literal = expect::assert_kind(it.next(), Kind::IntegerLiteral);
        // create a new integer literal.
        Ok(IntegerLiteral(literal.move_value()).to_expr())
    }

    /// Parses an argument list (a set of expressions, in parentheses,
    /// separated by commas).
    /// For example: "(abc, 123, bvs)".
    fn parse_argument_list(&mut self, it: &mut Tokenizer) -> (result: Result<Vec<Expr>, String>)
        requires
            old(it)@.front() == Some(Ok::<TokenView, Seq<char>>(TokenView::symbol("("@))),
        ensures
            final(self).ast == old(self).ast,
            match argument_list(old(it)@) {
                Ok(parsed) => result matches Ok(list) && expression_views(list@) == parsed.value
                    && final(it)@ == parsed.rest,
                Err(message) => result matches Err(text) && text@ == message,
            },
    {
        expect::assert_token(it.next(), &Token::left_parenthesis());
        let ghost start = it@;
        let mut expressions: Vec<Expr> = Vec::new();
        let followers = vec![Token::comma(), Token::right_parenthesis()];
        assert(expect::token_views(followers@) =~= argument_followers());
        assert(expression_views(expressions@) =~= Seq::<ExprView>::empty());
        loop
            invariant
                self.ast == old(self).ast,
                start == old(it)@.advance(),
                expect::token_views(followers@) == argument_followers(),
                arguments(start, Seq::empty()) == arguments(it@, expression_views(expressions@)),
            ensures
                self.ast == old(self).ast,
                start == old(it)@.advance(),
                arguments(start, Seq::empty()) == arguments(it@, expression_views(expressions@)),
                it@.front() == Some(Ok::<TokenView, Seq<char>>(TokenView::symbol(")"@))),
            decreases it@.tokens.len(),
        {
            match it.peek() {
                Some(Ok(token)) => {
                    if token == Token::right_parenthesis() {
                        break ;
                    }
                    if token == Token::comma() {
                        it.eat();
                        continue ;
                    }
                },
                Some(Err(err)) => {
                    return Err(err);
                },
                None => (),
            }
            let expr = match self.parse_expression(it) {
                Ok(expr) => expr,
                Err(err) => {
                    return Err(err);
                },
            };
            let ghost before = expression_views(expressions@);
            expressions.push(expr);
            assert(expression_views(expressions@) =~= before.push(expr@));
            match expect::one_of(it.peek(), &followers) {
                Ok(_) => (),
                Err(err) => {
                    return Err(err);
                },
            }
        }
        expect::assert_token(it.next(), &Token::right_parenthesis());
        Ok(expressions)
    }

    /// Looks whether a comment opens with `tok`, the token that comes next:
    /// gives the kind of the comment and the number of tokens that open it.
    fn peek_comment(&mut self, tok: &Token, it: &mut Tokenizer) -> (opening: Option<
        (CommentKind, usize),
    >)
        requires
            old(it)@.front() == Some(Ok::<TokenView, Seq<char>>(tok@)),
        ensures
            final(self).ast == old(self).ast,
            final(it)@ == old(it)@,
            match comment_opening(old(it)@) {
                Some(found) => opening == Some((found.kind, found.length as usize)),
                None => opening is None,
            },
    {
        if *tok == Token::forward_slash_slash() {
            Some((CommentKind::Line, 1))
        } else if *tok == Token::forward_slash_asterix() {
            Some((CommentKind::Block, 1))
        } else if *tok == Token::forward_slash() {
            match it.peek_n(1) {
                Some(Ok(second)) => {
                    if second == Token::forward_slash() {
                        Some((CommentKind::Line, 2))
                    } else if second == Token::asterix() {
                        Some((CommentKind::Block, 2))
                    } else {
                        None
                    }
                },
                _ => None,
            }
        } else {
            None
        }
    }

    /// Parses a comment of the kind `kind` that opens with `length` tokens:
    /// takes everything through the token that closes it.
    fn parse_comment(&mut self, it: &mut Tokenizer, kind: CommentKind, length: usize) -> (result:
        Result<Comment, String>)
        requires
            comment_opening(old(it)@) == Some(Opening { kind, length: length as nat }),
        ensures
            final(self).ast == old(self).ast,
            match comment(old(it)@) {
                Ok(parsed) => result matches Ok(remark) && remark@ == parsed.value && final(it)@
                    == parsed.rest,
                Err(message) => result matches Err(text) && text@ == message,
            },
    {
        reveal_with_fuel(advanced, 3);
        it.eat();
        if length == 2 {
            it.eat();
        }
        let ghost body = it@;
        loop
            invariant
                self.ast == old(self).ast,
                comment_opening(old(it)@) == Some(Opening { kind, length: length as nat }),
                body == advanced(old(it)@, length as nat),
                comment_end(body, kind) == comment_end(it@, kind),
            decreases it@.tokens.len(),
        {
            match it.next() {
                Some(Ok(tok)) => {
                    let closes = match kind {
                        CommentKind::Line => tok.is(Kind::NewLine),
                        CommentKind::Block => tok == Token::asterix_forward_slash(),
                    };
                    if closes {
                        return Ok(Comment(kind, String::new()));
                    }
                },
                Some(Err(err)) => {
                    return Err(err);
                },
                None => {
                    return Err("unexpected end of input".to_owned());
                },
            }
        }
    }
}

} // verus!
