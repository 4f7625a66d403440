//! The `#define` directive.

use vstd::prelude::*;
use crate::ast::preprocessor::{Constant, ConstantView, Function, FunctionView};
use crate::ast::{Expr, Statement, Stmt, StmtView};
use crate::identifier::Identifier;

verus! {

/// A preprocessor #define
#[derive(Debug)]
pub enum Define {
    /// A statement defining a preprocessor function.
    Function(Function),
    /// A statement defining a preprocessor constant.
    Constant(Constant),
}

/// What a `#define` is in contracts.
pub enum DefineView {
    Function(FunctionView),
    Constant(ConstantView),
}

impl View for Define {
    type V = DefineView;

    open spec fn view(&self) -> DefineView {
        match self {
            Define::Function(function) => DefineView::Function(function@),
            Define::Constant(constant) => DefineView::Constant(constant@),
        }
    }
}

impl Define {
    /// The definition of the function `name` with the parameters `params`
    /// and the body `expr`.
    pub fn function(name: Identifier, params: Vec<Identifier>, expr: Option<Expr>) -> (define:
        Define)
        ensures
            define == Define::Function(Function { name, params, expr }),
    {
        Define::Function(Function { name: name, params: params, expr: expr })
    }

    /// The definition of the constant `name` with the value `expr`.
    pub fn constant(name: Identifier, expr: Option<Expr>) -> (define: Define)
        ensures
            define == Define::Constant(Constant { name, expr }),
    {
        Define::Constant(Constant { name: name, expr: expr })
    }
}

impl Statement for Define {
    open spec fn as_stmt(self) -> StmtView {
        StmtView::Define(self@)
    }

    fn to_stmt(self) -> (stmt: Stmt) {
        Stmt::Define(self)
    }
}

} // verus!
