//! The expressions of the tree.

use vstd::prelude::*;
use crate::ast::{Expr, ExprView, Expression};

pub use crate::identifier::Identifier;

verus! {

/// An integer literal, kept as it was written.
#[derive(Debug)]
pub struct IntegerLiteral(pub String);

impl Clone for IntegerLiteral {
    fn clone(&self) -> (literal: IntegerLiteral)
        ensures
            literal == *self,
    {
        IntegerLiteral(self.0.clone())
    }
}

impl View for IntegerLiteral {
    type V = Seq<char>;

    open spec fn view(&self) -> Seq<char> {
        self.0@
    }
}

impl Expression for IntegerLiteral {
    open spec fn as_expr(self) -> ExprView {
        ExprView::IntegerLiteral(self@)
    }

    fn to_expr(self) -> (expr: Expr) {
        Expr::IntegerLiteral(self)
    }
}

} // verus!
