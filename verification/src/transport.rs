//! Decoding of transport response bodies.  Responses arrive
//! gzip-compressed; the caller hands the raw bytes in and receives the
//! decompressed body, or a `MalformedResponse` failure.

use vstd::prelude::*;
use crate::errors::OauthError;

verus! {

pub uninterp spec fn gunzip_of(data: Seq<u8>) -> Option<Seq<u8>>;

/// Relies on flate2's `GzDecoder` (through `Read::read_to_end`):
/// decompression of a gzip stream, a function of the input bytes alone;
/// input that is not a valid stream fails.
#[verifier::external_body]
fn gunzip(data: &[u8]) -> (r: Option<Vec<u8>>)
    ensures
        match r {
            Some(v) => gunzip_of(data@) == Some(v@),
            None => gunzip_of(data@) is None,
        },
{
    let mut out: Vec<u8> = Vec::new();
    match std::io::Read::read_to_end(&mut flate2::read::GzDecoder::new(data), &mut out) {
        Ok(_) => Some(out),
        Err(_) => None,
    }
}

/// Decompress a response body; a body that does not decompress is a
/// `MalformedResponse`.
pub fn decode_response_body(data: &[u8]) -> (r: Result<Vec<u8>, OauthError>)
    ensures
        match r {
            Ok(v) => gunzip_of(data@) == Some(v@),
            Err(e) => e == OauthError::MalformedResponse && gunzip_of(data@) is None,
        },
{
    match gunzip(data) {
        Some(v) => Ok(v),
        None => Err(OauthError::MalformedResponse),
    }
}

} // verus!
