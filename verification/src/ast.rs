//! The abstract syntax tree that the parser builds.

use vstd::prelude::*;
use crate::identifier::Identifier;

pub mod expressions;
pub mod preprocessor;
pub mod statements;

verus! {

/// What an expression is in contracts.
pub enum ExprView {
    Identifier(Seq<char>),
    IntegerLiteral(Seq<char>),
}

/// What a statement is in contracts.
pub enum StmtView {
    Define(statements::define::DefineView),
    Comment(statements::comment::CommentView),
    Block(Seq<StmtView>),
}

/// A statement.
pub trait Statement: Sized {
    /// The statement that `self` stands for.
    spec fn as_stmt(self) -> StmtView;

    /// Converts the statement into a more abstract Stmt.
    fn to_stmt(self) -> (stmt: Stmt)
        ensures
            stmt@ == self.as_stmt(),
    ;
}

/// Abstracts over a Statement.
#[derive(Debug)]
pub enum Stmt {
    Define(statements::Define),
    Comment(statements::Comment),
    Block(statements::Block),
}

impl View for Stmt {
    type V = StmtView;

    open spec fn view(&self) -> StmtView
        decreases self,
    {
        match self {
            Stmt::Define(define) => StmtView::Define(define@),
            Stmt::Comment(comment) => StmtView::Comment(comment@),
            Stmt::Block(block) => StmtView::Block(
                Seq::new(
                    block.statements.len() as nat,
                    |i: int|
                        if 0 <= i < block.statements.len() {
                            block.statements[i]@
                        } else {
                            arbitrary()
                        },
                ),
            ),
        }
    }
}

/// An expression.
pub trait Expression: Sized {
    /// The expression that `self` stands for.
    spec fn as_expr(self) -> ExprView;

    /// Converts the expression into a more abstract Expr.
    fn to_expr(self) -> (expr: Expr)
        ensures
            expr@ == self.as_expr(),
    ;
}

/// Abstracts over an Expression.
#[derive(Debug)]
pub enum Expr {
    Identifier(Identifier),
    IntegerLiteral(expressions::IntegerLiteral),
}

impl View for Expr {
    type V = ExprView;

    open spec fn view(&self) -> ExprView {
        match self {
            Expr::Identifier(identifier) => ExprView::Identifier(identifier@),
            Expr::IntegerLiteral(literal) => ExprView::IntegerLiteral(literal@),
        }
    }
}

/// What an expression that may be missing is in contracts.
pub open spec fn optional_view(expr: Option<Expr>) -> Option<ExprView> {
    match expr {
        Some(expr) => Some(expr@),
        None => None,
    }
}

impl Expression for Identifier {
    open spec fn as_expr(self) -> ExprView {
        ExprView::Identifier(self@)
    }

    fn to_expr(self) -> (expr: Expr) {
        Expr::Identifier(self)
    }
}

/// An [abstract syntax tree](http://en.wikipedia.org/wiki/Abstract_syntax_tree).
#[derive(Debug)]
pub struct Ast {
    pub nodes: Vec<Stmt>,
}

impl View for Ast {
    type V = Seq<StmtView>;

    /// The statements of the tree, in the order of the source.
    open spec fn view(&self) -> Seq<StmtView> {
        Seq::new(self.nodes.len() as nat, |i: int| self.nodes[i]@)
    }
}

impl Ast {
    /// Creates a tree without statements.
    pub fn new() -> (ast: Ast)
        ensures
            ast@ == Seq::<StmtView>::empty(),
    {
        let ast = Ast { nodes: Vec::new() };
        assert(ast@ =~= Seq::<StmtView>::empty());
        ast
    }
}

} // verus!
