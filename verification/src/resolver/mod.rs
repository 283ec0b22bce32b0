//! Answering a question: by asking name servers from the root down, or by forwarding it.
pub mod iterative;
pub mod laws;
pub mod lookup;
pub mod recursive;
pub mod response;
pub mod transport;
pub mod types;
