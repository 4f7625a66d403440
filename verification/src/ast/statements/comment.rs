//! Comments.

use vstd::prelude::*;
use crate::ast::{Statement, Stmt, StmtView};

verus! {

/// Specifies the kind of a comment.
#[derive(Clone, Copy, Debug, PartialEq, Eq, Structural)]
pub enum Kind {
    /// A comment between `/*` and `*/`.
    Block,
    /// A comment from `//` to the end of the line.
    Line,
}

/// A comment: its kind and its body.
#[derive(Debug)]
pub struct Comment(pub Kind, pub String);

/// What a comment is in contracts.
pub struct CommentView {
    pub kind: Kind,
    pub body: Seq<char>,
}

impl View for Comment {
    type V = CommentView;

    open spec fn view(&self) -> CommentView {
        CommentView { kind: self.0, body: self.1@ }
    }
}

impl Statement for Comment {
    open spec fn as_stmt(self) -> StmtView {
        StmtView::Comment(self@)
    }

    fn to_stmt(self) -> (stmt: Stmt) {
        Stmt::Comment(self)
    }
}

} // verus!
