//! The line-oriented query protocol: splitting a request into words,
//! deciding what it asks for, and composing the reply from what the
//! message store answered.

pub mod parsing;
pub mod protocol;
pub mod handlers;
