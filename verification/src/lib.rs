//! An interactive-fiction engine.
//!
//! A plain-text script is parsed into a sequence of raw blocks, resolved by a
//! two-pass builder into an immutable story graph, and traversed by any number
//! of independent per-user sessions that advance by matching command words
//! against the edges of the current node.

pub mod engine;
pub mod errors;
pub mod graph;
pub mod parser;
pub mod registry;
pub mod session;
