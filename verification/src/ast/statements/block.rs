//! Blocks of statements.

use vstd::prelude::*;
use crate::ast::{Statement, Stmt, StmtView};

verus! {

/// A sequence of statements that belong together.
#[derive(Debug)]
pub struct Block {
    pub statements: Vec<Stmt>,
}

impl Statement for Block {
    open spec fn as_stmt(self) -> StmtView {
        Stmt::Block(self)@
    }

    fn to_stmt(self) -> (stmt: Stmt) {
        Stmt::Block(self)
    }
}

} // verus!
