//! The statements of the tree.

pub mod block;
pub mod comment;
pub mod define;

pub use block::Block;
pub use comment::Comment;
pub use define::Define;
