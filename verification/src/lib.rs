//! OAuth 1.0a signing client with a credential cache.
//!
//! The crate builds normalized, percent-encoded signature base strings,
//! computes HMAC-SHA1 request signatures, drives the three-legged
//! request-token / authorization / access-token exchange, and keeps a
//! time-bounded cache of access-token pairs keyed by user id.  Network
//! transport is left to the caller: the client produces fully signed
//! requests and consumes raw response bodies.

pub mod bytes;
pub mod cache;
pub mod client;
pub mod errors;
pub mod params;
pub mod percent;
pub mod scan;
pub mod signer;
pub mod token;
pub mod transport;
