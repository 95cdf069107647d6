//! A DNS wire-format codec and the decision logic of a small forwarding resolver.

pub mod answer;
pub mod cli;
pub mod code;
pub mod error;
pub mod flags;
pub mod header;
pub mod message;
pub mod name;
pub mod question;
pub mod resolver;
pub mod section;
pub mod wire;
