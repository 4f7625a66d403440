//! What a `#define` introduces: a function-like macro or a constant.

use vstd::prelude::*;
use crate::ast::{optional_view, Expr, ExprView};
use crate::identifier::Identifier;

verus! {

/// The names that the identifiers of `identifiers` hold.
pub open spec fn names(identifiers: Seq<Identifier>) -> Seq<Seq<char>> {
    Seq::new(identifiers.len(), |i: int| identifiers[i]@)
}

/// A preprocessor function. For example:
/// `#define _SFR_IO8(addr) (addr+12)`
/// `#define do_nothing(a)`
#[derive(Debug)]
pub struct Function {
    pub name: Identifier,
    pub params: Vec<Identifier>,
    pub expr: Option<Expr>,
}

/// What a preprocessor function is in contracts.
pub struct FunctionView {
    pub name: Seq<char>,
    pub params: Seq<Seq<char>>,
    pub expr: Option<ExprView>,
}

impl View for Function {
    type V = FunctionView;

    open spec fn view(&self) -> FunctionView {
        FunctionView {
            name: self.name@,
            params: names(self.params@),
            expr: optional_view(self.expr),
        }
    }
}

/// A `#define ABCD` or `#define ABCD 1`
#[derive(Debug)]
pub struct Constant {
    pub name: Identifier,
    pub expr: Option<Expr>,
}

/// What a preprocessor constant is in contracts.
pub struct ConstantView {
    pub name: Seq<char>,
    pub expr: Option<ExprView>,
}

impl View for Constant {
    type V = ConstantView;

    open spec fn view(&self) -> ConstantView {
        ConstantView { name: self.name@, expr: optional_view(self.expr) }
    }
}

} // verus!
