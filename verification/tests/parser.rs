use c_preprocessor::ast::expressions::IntegerLiteral;
use c_preprocessor::ast::preprocessor::{Constant, Function};
use c_preprocessor::ast::statements::comment::Kind as CommentKind;
use c_preprocessor::ast::statements::{Comment, Define};
use c_preprocessor::ast::{Expr, Stmt};
use c_preprocessor::parser::Parser;
use c_preprocessor::token::Tokenizer;

fn parse(text: &str) -> (Result<(), String>, Vec<Stmt>) {
    let mut parser = Parser::new();
    let result = parser.parse(Tokenizer::new(text.chars().collect()));
    (result, parser.ast.nodes)
}

fn parse_ok(text: &str) -> Vec<Stmt> {
    let (result, nodes) = parse(text);
    assert_eq!(result, Ok(()));
    nodes
}

fn parse_err(text: &str) -> String {
    let (result, _) = parse(text);
    result.unwrap_err()
}

fn constant(stmt: &Stmt) -> &Constant {
    match stmt {
        Stmt::Define(Define::Constant(constant)) => constant,
        other => panic!("not a constant: {:?}", other),
    }
}

fn function(stmt: &Stmt) -> &Function {
    match stmt {
        Stmt::Define(Define::Function(function)) => function,
        other => panic!("not a function: {:?}", other),
    }
}

fn identifier(expr: &Option<Expr>) -> &str {
    match expr {
        Some(Expr::Identifier(identifier)) => identifier.name(),
        other => panic!("not an identifier: {:?}", other),
    }
}

fn literal(expr: &Option<Expr>) -> &str {
    match expr {
        Some(Expr::IntegerLiteral(IntegerLiteral(text))) => text.as_str(),
        other => panic!("not an integer literal: {:?}", other),
    }
}

fn comment_kind(stmt: &Stmt) -> CommentKind {
    match stmt {
        Stmt::Comment(Comment(kind, body)) => {
            assert_eq!(body, "");
            *kind
        }
        other => panic!("not a comment: {:?}", other),
    }
}

#[test]
fn new_parser_has_an_empty_tree() {
    assert!(Parser::new().ast.nodes.is_empty());
}

#[test]
fn empty_text_parses_to_nothing() {
    assert!(parse_ok("").is_empty());
    assert!(parse_ok("\n\n  \r\n").is_empty());
}

#[test]
fn constant_without_value() {
    let nodes = parse_ok("#define ABC\n");
    assert_eq!(nodes.len(), 1);
    let constant = constant(&nodes[0]);
    assert_eq!(constant.name.name(), "ABC");
    assert!(constant.expr.is_none());
}

#[test]
fn constant_with_integer_value() {
    let nodes = parse_ok("#define ABC 123\n");
    assert_eq!(nodes.len(), 1);
    let constant = constant(&nodes[0]);
    assert_eq!(constant.name.name(), "ABC");
    assert_eq!(literal(&constant.expr), "123");
}

#[test]
fn constant_with_identifier_value() {
    let nodes = parse_ok("#define ABC other_1");
    assert_eq!(nodes.len(), 1);
    let constant = constant(&nodes[0]);
    assert_eq!(constant.name.name(), "ABC");
    assert_eq!(identifier(&constant.expr), "other_1");
}

#[test]
fn function_with_two_parameters() {
    let nodes = parse_ok("#define F(a,b) a\n");
    assert_eq!(nodes.len(), 1);
    let function = function(&nodes[0]);
    assert_eq!(function.name.name(), "F");
    let params: Vec<&str> = function.params.iter().map(|p| p.name()).collect();
    assert_eq!(params, vec!["a", "b"]);
    assert_eq!(identifier(&function.expr), "a");
}

#[test]
fn function_without_parameters_and_body() {
    let nodes = parse_ok("#define do_nothing()\n");
    let function = function(&nodes[0]);
    assert_eq!(function.name.name(), "do_nothing");
    assert!(function.params.is_empty());
    assert!(function.expr.is_none());
}

#[test]
fn commas_in_a_parameter_list_are_passed_over() {
    let nodes = parse_ok("#define F(,a,,b,) 0x10\n");
    let function = function(&nodes[0]);
    let params: Vec<&str> = function.params.iter().map(|p| p.name()).collect();
    assert_eq!(params, vec!["a", "b"]);
    assert_eq!(literal(&function.expr), "0x10");
}

#[test]
fn parameter_that_is_no_identifier_is_refused() {
    assert_eq!(parse_err("#define F(a,1) a\n"), "expected identifier");
}

#[test]
fn parameters_have_to_be_separated() {
    assert_eq!(parse_err("#define F(a b) a\n"), "expected one of: ,, )");
}

#[test]
fn parameter_list_has_to_be_closed() {
    assert_eq!(parse_err("#define F(a\n"), "expected one of: ,, )");
    assert_eq!(parse_err("#define F(\n"), "unexpected token");
    assert_eq!(parse_err("#define F(+)\n"), "unexpected token");
}

#[test]
fn unknown_directive_is_refused() {
    assert_eq!(parse_err("#foo\n"), "unknown directive: foo");
}

#[test]
fn directive_needs_a_word() {
    assert_eq!(parse_err("#\n"), "expected word");
    assert_eq!(parse_err("# 12\n"), "expected word");
    assert_eq!(parse_err("#define\n"), "expected word");
    assert_eq!(parse_err("#define 12\n"), "expected word");
}

#[test]
fn one_directive_per_line() {
    assert_eq!(parse_err("#define A 1 2\n"), "expected new-line");
    assert_eq!(parse_err("#define A B #define C\n"), "expected new-line");
}

#[test]
fn value_has_to_be_an_expression() {
    assert_eq!(parse_err("#define A +\n"), "unexpected token");
    assert_eq!(parse_err("#define F(a) ;\n"), "unexpected token");
}

#[test]
fn token_that_opens_no_statement_is_refused() {
    assert_eq!(parse_err("foo\n"), "unknown token: foo");
    assert_eq!(parse_err("12"), "unknown token: 12");
    assert_eq!(parse_err("+= 1"), "unknown token: +=");
    assert_eq!(parse_err("/ 2"), "unknown token: /");
    assert_eq!(parse_err("/"), "unknown token: /");
}

#[test]
fn lexical_error_stops_the_parse() {
    assert_eq!(parse_err("@"), "unknown token");
    assert_eq!(parse_err("#define A $\n"), "unknown token");
    assert_eq!(parse_err("#define F(a, ?) a\n"), "unknown token");
    assert_eq!(parse_err("#define F(a) = a\n"), "unknown token");
    assert_eq!(parse_err("// what?\n"), "unknown token");
}

#[test]
fn statements_come_in_source_order() {
    let nodes = parse_ok("#define A 1\n\n// note\n#define F(x) x\r\n/* long\nnote */ #define B\n");
    assert_eq!(nodes.len(), 5);
    assert_eq!(constant(&nodes[0]).name.name(), "A");
    assert_eq!(comment_kind(&nodes[1]), CommentKind::Line);
    assert_eq!(function(&nodes[2]).name.name(), "F");
    assert_eq!(comment_kind(&nodes[3]), CommentKind::Block);
    assert_eq!(constant(&nodes[4]).name.name(), "B");
}

#[test]
fn statements_before_an_error_stay_in_the_tree() {
    let (result, nodes) = parse("#define A 1\n#define B 2\n#bar\n#define C 3\n");
    assert_eq!(result, Err("unknown directive: bar".to_string()));
    assert_eq!(nodes.len(), 2);
    assert_eq!(constant(&nodes[0]).name.name(), "A");
    assert_eq!(literal(&constant(&nodes[1]).expr), "2");
}

#[test]
fn parse_adds_to_what_the_tree_holds() {
    let mut parser = Parser::new();
    assert_eq!(parser.parse(Tokenizer::new("#define A\n".chars().collect())), Ok(()));
    assert_eq!(parser.parse(Tokenizer::new("#define B\n".chars().collect())), Ok(()));
    assert_eq!(parser.ast.nodes.len(), 2);
    assert_eq!(constant(&parser.ast.nodes[0]).name.name(), "A");
    assert_eq!(constant(&parser.ast.nodes[1]).name.name(), "B");
}

#[test]
fn line_comment_runs_to_the_end_of_the_line() {
    let nodes = parse_ok("// a b c 1 2 3 #define X\n#define Y\n");
    assert_eq!(nodes.len(), 2);
    assert_eq!(comment_kind(&nodes[0]), CommentKind::Line);
    assert_eq!(constant(&nodes[1]).name.name(), "Y");
}

#[test]
fn line_comment_may_end_with_the_text() {
    let nodes = parse_ok("// last words");
    assert_eq!(nodes.len(), 1);
    assert_eq!(comment_kind(&nodes[0]), CommentKind::Line);
}

#[test]
fn block_comment_runs_through_its_closing_symbol() {
    let nodes = parse_ok("/* a\n b /* c\n */ #define Y\n");
    assert_eq!(nodes.len(), 2);
    assert_eq!(comment_kind(&nodes[0]), CommentKind::Block);
    assert_eq!(constant(&nodes[1]).name.name(), "Y");
}

#[test]
fn block_comment_has_to_be_closed() {
    assert_eq!(parse_err("/* a b c\n"), "unexpected end of input");
    assert_eq!(parse_err("/* a * / \n"), "unexpected end of input");
}

#[test]
fn comment_may_open_with_two_tokens() {
    let nodes = parse_ok("/ / a\n/ * b\n*/");
    assert_eq!(nodes.len(), 2);
    assert_eq!(comment_kind(&nodes[0]), CommentKind::Line);
    assert_eq!(comment_kind(&nodes[1]), CommentKind::Block);
}

#[test]
fn parse_goes_on_from_where_the_tokenizer_stands() {
    let mut tokenizer = Tokenizer::new("#define A 1\n#define B 2\n".chars().collect());
    for _ in 0..5 {
        tokenizer.eat();
    }
    tokenizer.peek_n(3);
    let mut parser = Parser::new();
    assert_eq!(parser.parse(tokenizer), Ok(()));
    assert_eq!(parser.ast.nodes.len(), 1);
    assert_eq!(constant(&parser.ast.nodes[0]).name.name(), "B");
}

#[test]
fn used_up_tokenizer_parses_to_nothing() {
    let mut tokenizer = Tokenizer::new("a".chars().collect());
    tokenizer.eat();
    tokenizer.eat();
    let mut parser = Parser::new();
    assert_eq!(parser.parse(tokenizer), Ok(()));
    assert!(parser.ast.nodes.is_empty());
}

#[test]
fn stored_text_is_the_source_text() {
    let nodes = parse_ok("#define  MiXeD_Case9   0x00ffAbx\n#define __f(A_,_b)   \u{e9}t\u{e9}\n");
    let constant = constant(&nodes[0]);
    assert_eq!(constant.name.name(), "MiXeD_Case9");
    assert_eq!(literal(&constant.expr), "0x00ffAbx");
    let function = function(&nodes[1]);
    assert_eq!(function.name.name(), "__f");
    let params: Vec<&str> = function.params.iter().map(|p| p.name()).collect();
    assert_eq!(params, vec!["A_", "_b"]);
    assert_eq!(identifier(&function.expr), "\u{e9}t\u{e9}");
}
