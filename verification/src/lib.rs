//! A small cluster coordinator: a line-based key-value protocol, a replicated
//! store, membership tracking and a bully-style leader election.

pub mod bus;
pub mod cluster;
pub mod node;
pub mod protocol;
pub mod store;
pub mod text;
