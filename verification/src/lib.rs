//! A minimal node substrate for line-delimited, JSON-encoded message
//! protocols: message envelopes with tagged payloads, a monotonic id
//! allocator for reply correlation, a dispatcher that routes requests to
//! handlers, and a deduplicated broadcast store.

pub mod codec;
pub mod node;
pub mod protocol;
pub mod store;
