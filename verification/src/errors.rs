//! The error taxonomy of the client.

use vstd::prelude::*;

verus! {

/// Failures surfaced by the client and the cache.  None of the library's
/// verified functions panic: every failure is returned as one of these.
#[derive(Clone, Copy, Debug, PartialEq, Eq, Structural)]
pub enum OauthError {
    /// A consumer key or secret was absent at construction.
    Configuration,
    /// A token-exchange response lacked an expected key, or transport failed
    /// during the request-token or access-token step.
    TokenExchange,
    /// The verifier was rejected or the access-token exchange was denied.
    Unauthorized,
    /// A signed action was attempted without an access-token pair.
    MissingCredential,
    /// A response body could not be decompressed or split into key/value pairs.
    MalformedResponse,
}

} // verus!
