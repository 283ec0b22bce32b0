//! A DNS server that blocks listed domains and resolves other questions, by asking name servers
//! from the root down or by forwarding them.

pub mod blocklist;
pub mod cache;
pub mod cache_util;
pub mod message;
pub mod name;
pub mod packet;
pub mod record;
pub mod resolver;
pub mod selection;
pub mod text;

pub use cache::CachedValue;
pub use packet::{servfail_response_for_packet, ResolverRuntimeConfig};
