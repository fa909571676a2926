//! Lifecycle bridge between a synchronous host node and the Chronik indexer.
//!
//! The bridge resolves the configured host addresses, decides step by step
//! how the indexer is set up and torn down, and says what each of the node's
//! events is logged as. The runtime and the sockets are the caller's: the
//! bridge names the work to do and takes in how it went.

pub mod addr;
pub mod addr_proofs;
pub mod bridge;
pub mod text;
