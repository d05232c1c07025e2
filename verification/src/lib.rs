//! Conversation transcript, streamed-reply aggregation and the per-request
//! session protocol of a chat relay, with machine-checked contracts.

pub mod message;
pub mod store;
pub mod aggregator;
pub mod stream;
pub mod backend;
pub mod session;
pub mod laws;
