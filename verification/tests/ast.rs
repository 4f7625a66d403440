use c_preprocessor::ast::expressions::IntegerLiteral;
use c_preprocessor::ast::preprocessor::{Constant, Function};
use c_preprocessor::ast::statements::comment::Kind;
use c_preprocessor::ast::statements::{Block, Comment, Define};
use c_preprocessor::ast::{Ast, Expr, Expression, Statement, Stmt};
use c_preprocessor::Identifier;

fn ident(name: &str) -> Identifier {
    Identifier::from_name(name.to_string()).unwrap()
}

#[test]
fn new_tree_is_empty() {
    assert!(Ast::new().nodes.is_empty());
}

#[test]
fn identifier_converts_to_an_expression() {
    match ident("abc").to_expr() {
        Expr::Identifier(identifier) => assert_eq!(identifier.name(), "abc"),
        other => panic!("not an identifier: {:?}", other),
    }
}

#[test]
fn integer_literal_converts_to_an_expression() {
    match IntegerLiteral("0x10".to_string()).to_expr() {
        Expr::IntegerLiteral(IntegerLiteral(text)) => assert_eq!(text, "0x10"),
        other => panic!("not an integer literal: {:?}", other),
    }
}

#[test]
fn clones_keep_the_text() {
    assert_eq!(ident("abc").clone().name(), "abc");
    assert_eq!(IntegerLiteral("12".to_string()).clone().0, "12");
}

#[test]
fn define_constant_builds_a_constant() {
    match Define::constant(ident("A"), Some(IntegerLiteral("1".to_string()).to_expr())) {
        Define::Constant(Constant { name, expr: Some(Expr::IntegerLiteral(literal)) }) => {
            assert_eq!(name.name(), "A");
            assert_eq!(literal.0, "1");
        }
        other => panic!("not a constant: {:?}", other),
    }
}

#[test]
fn define_function_builds_a_function() {
    match Define::function(ident("F"), vec![ident("a"), ident("b")], None) {
        Define::Function(Function { name, params, expr: None }) => {
            assert_eq!(name.name(), "F");
            assert_eq!(params.len(), 2);
            assert_eq!(params[0].name(), "a");
            assert_eq!(params[1].name(), "b");
        }
        other => panic!("not a function: {:?}", other),
    }
}

#[test]
fn statements_convert_to_stmt() {
    assert!(matches!(Define::constant(ident("A"), None).to_stmt(), Stmt::Define(_)));
    assert!(matches!(
        Comment(Kind::Line, String::new()).to_stmt(),
        Stmt::Comment(Comment(Kind::Line, _))
    ));
    let block = Block { statements: vec![Comment(Kind::Block, String::new()).to_stmt()] };
    match block.to_stmt() {
        Stmt::Block(block) => assert_eq!(block.statements.len(), 1),
        other => panic!("not a block: {:?}", other),
    }
}
