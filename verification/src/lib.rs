//! Removes comments from a stream of characters.
//!
//! A language's comments are described by a table of [`Comment`] rules, tried
//! in the table's order. [`IntoWithoutComments::without_comments`] wraps any
//! iterator over `char` in a [`WithoutComments`] engine, which hands out the
//! text without its comments one character at a time. The engine does not
//! know string literals: a comment marker inside one still opens a comment.
//!
//! The module [`model`] says in mathematical terms what the engine computes,
//! and [`laws`] holds what is proved of that model.

pub mod buffer;
pub mod comment;
pub mod languages;
pub mod laws;
pub mod model;
pub mod without_comments;

pub use buffer::Buf;
pub use comment::Comment;
pub use without_comments::ConfigurationError;
pub use without_comments::IntoWithoutComments;
pub use without_comments::Tription;
pub use without_comments::UnmatchedCloseError;
pub use without_comments::WithoutComments;
