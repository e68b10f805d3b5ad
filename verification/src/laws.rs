//! What the parts of the library promise together.
//!
//! Each law says of a result what a reader of the protocol expects, in terms of the files, the
//! texts and the tokens that it comes from.

pub mod documents;
pub mod highlights;
pub mod hovers;
pub mod layouts;
pub mod messages;
pub mod shared;
pub mod texts;
pub mod uses;
pub mod workspaces;
