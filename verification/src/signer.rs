//! OAuth 1.0a signing: protocol parameters, the signature base string, the
//! HMAC-SHA1 signature, and the `Authorization` header.

use vstd::prelude::*;
use vstd::string::{StrSliceExecFns, StringSliceAdditionalSpecFns};
use crate::bytes::{dec_of, join_tail, join_with, lemma_join_with_tail, u64_to_dec};
use crate::params::{map_of, normalized_of, spec_insert, ParamList};
use crate::percent::{percent_encode, percent_encoded};

verus! {

broadcast use vstd::string::group_string_axioms;

// ---------------------------------------------------------------------------
// Protocol parameter names and fixed values
// ---------------------------------------------------------------------------

pub open spec fn k_oauth_consumer_key() -> Seq<u8> {
    ("oauth_consumer_key").spec_bytes()
}

pub open spec fn k_oauth_nonce() -> Seq<u8> {
    ("oauth_nonce").spec_bytes()
}

pub open spec fn k_oauth_timestamp() -> Seq<u8> {
    ("oauth_timestamp").spec_bytes()
}

pub open spec fn k_oauth_signature_method() -> Seq<u8> {
    ("oauth_signature_method").spec_bytes()
}

pub open spec fn k_oauth_version() -> Seq<u8> {
    ("oauth_version").spec_bytes()
}

pub open spec fn k_oauth_signature() -> Seq<u8> {
    ("oauth_signature").spec_bytes()
}

pub open spec fn k_oauth_token() -> Seq<u8> {
    ("oauth_token").spec_bytes()
}

pub open spec fn k_oauth_token_secret() -> Seq<u8> {
    ("oauth_token_secret").spec_bytes()
}

pub open spec fn v_signature_method() -> Seq<u8> {
    ("HMAC-SHA1").spec_bytes()
}

pub open spec fn v_version() -> Seq<u8> {
    ("1.0").spec_bytes()
}

// ---------------------------------------------------------------------------
// Trusted cryptographic primitives
// ---------------------------------------------------------------------------

pub uninterp spec fn hmac_sha1_of(key: Seq<u8>, message: Seq<u8>) -> Seq<u8>;

pub uninterp spec fn base64_of(data: Seq<u8>) -> Seq<u8>;

/// Relies on the hmac crate's `Hmac<Sha1>`: the keyed HMAC-SHA1 digest of
/// the message, a function of key and message alone; SHA-1 digests are 20
/// bytes, and `new_from_slice` accepts keys of any length.
#[verifier::external_body]
fn hmac_sha1(key: &[u8], message: &[u8]) -> (r: Vec<u8>)
    ensures
        r@ == hmac_sha1_of(key@, message@),
        r@.len() == 20,
{
    let mut mac = <hmac::Hmac<sha1::Sha1> as hmac::Mac>::new_from_slice(key).unwrap();
    hmac::Mac::update(&mut mac, message);
    hmac::Mac::finalize(mac).into_bytes().to_vec()
}

/// Relies on base64's `STANDARD` engine: padded base64 of the input, four
/// output bytes for every three input bytes; the length bound keeps the
/// engine's buffer-size computation from overflowing.
#[verifier::external_body]
fn base64_encode(data: &[u8]) -> (r: Vec<u8>)
    requires
        data@.len() <= 0x1000_0000,
    ensures
        r@ == base64_of(data@),
        r@.len() == ((data@.len() + 2) / 3) * 4,
{
    base64::Engine::encode(&base64::engine::general_purpose::STANDARD, data).into_bytes()
}

// ---------------------------------------------------------------------------
// Nonce and timestamp sampling
// ---------------------------------------------------------------------------

pub assume_specification<T>[ rand::random::<T> ]() -> (r: T)
    where
        rand::distributions::Standard: rand::distributions::Distribution<T>,
;

/// Relies on std's `SystemTime::now`: seconds since the Unix epoch as the
/// system clock gives them; nothing is promised of the value.
#[verifier::external_body]
pub(crate) fn unix_time_seconds() -> u64 {
    match std::time::SystemTime::now().duration_since(std::time::UNIX_EPOCH) {
        Ok(d) => d.as_secs(),
        Err(_) => 0,
    }
}

/// The per-request material that must be fresh: a random 64-bit nonce and
/// the current time.  Sampling is confined here; everything downstream is a
/// function of the sampled values.
pub struct RequestStamp {
    pub nonce: u64,
    pub unix_time: u64,
}

impl RequestStamp {
    /// Draw a fresh nonce and read the clock.
    pub fn fresh() -> RequestStamp {
        RequestStamp { nonce: rand::random::<u64>(), unix_time: unix_time_seconds() }
    }
}

// ---------------------------------------------------------------------------
// Signing key and signature base string
// ---------------------------------------------------------------------------

/// The signing key: percent-encoded consumer secret and resource-owner
/// secret joined with `&`; an absent resource secret is the empty string,
/// not omitted.
pub open spec fn signing_key_of(consumer_secret: Seq<u8>, resource_secret: Seq<u8>) -> Seq<u8> {
    percent_encoded(consumer_secret) + seq![0x26u8] + percent_encoded(resource_secret)
}

pub fn derive_signing_key(consumer_secret: &[u8], resource_secret: &[u8]) -> (r: Vec<u8>)
    ensures
        r@ == signing_key_of(consumer_secret@, resource_secret@),
{
    let mut r = percent_encode(consumer_secret);
    r.push(0x26);
    let mut rs = percent_encode(resource_secret);
    r.append(&mut rs);
    proof {
        assert(r@ =~= signing_key_of(consumer_secret@, resource_secret@));
    }
    r
}

/// The signature base string: method, URL and normalized parameters, each
/// percent-encoded, joined with `&`.  The method is fixed to POST.
pub open spec fn signature_base_of(url: Seq<u8>, normalized: Seq<u8>) -> Seq<u8> {
    percent_encoded(("POST").spec_bytes()) + seq![0x26u8] + percent_encoded(url) + seq![0x26u8]
        + percent_encoded(normalized)
}

pub fn signature_base(url: &[u8], normalized: &[u8]) -> (r: Vec<u8>)
    ensures
        r@ == signature_base_of(url@, normalized@),
{
    let method = "POST".as_bytes_vec();
    let mut r = percent_encode(method.as_slice());
    r.push(0x26);
    let mut eu = percent_encode(url);
    r.append(&mut eu);
    r.push(0x26);
    let mut ep = percent_encode(normalized);
    r.append(&mut ep);
    proof {
        assert(r@ =~= signature_base_of(url@, normalized@));
    }
    r
}

/// The request signature: base64 of the HMAC-SHA1 of the base string under
/// the signing key.
pub open spec fn signature_of(signing_key: Seq<u8>, base: Seq<u8>) -> Seq<u8> {
    base64_of(hmac_sha1_of(signing_key, base))
}

/// Compute the signature for a base string.  A fresh keyed-hash state is
/// used for every call, so no digest state leaks between requests.
pub fn compute_signature(signing_key: &[u8], base: &[u8]) -> (r: Vec<u8>)
    ensures
        r@ == signature_of(signing_key@, base@),
{
    let digest = hmac_sha1(signing_key, base);
    base64_encode(digest.as_slice())
}

// ---------------------------------------------------------------------------
// Protocol parameters and signing of a parameter set
// ---------------------------------------------------------------------------

/// The protocol parameters merged into a caller's parameter set: consumer
/// key, nonce, timestamp, signature method and version.
pub open spec fn with_protocol_params(
    ps: Seq<(Seq<u8>, Seq<u8>)>,
    consumer_key: Seq<u8>,
    nonce: u64,
    unix_time: u64,
) -> Seq<(Seq<u8>, Seq<u8>)> {
    spec_insert(
        spec_insert(
            spec_insert(
                spec_insert(
                    spec_insert(ps, k_oauth_consumer_key(), consumer_key),
                    k_oauth_nonce(),
                    dec_of(nonce as nat),
                ),
                k_oauth_timestamp(),
                dec_of(unix_time as nat),
            ),
            k_oauth_signature_method(),
            v_signature_method(),
        ),
        k_oauth_version(),
        v_version(),
    )
}

/// Merge the protocol parameters into `params`.
pub fn apply_oauth_params(params: &mut ParamList, consumer_key: &[u8], stamp: &RequestStamp)
    requires
        old(params).wf(),
    ensures
        final(params).wf(),
        final(params)@ == with_protocol_params(
            old(params)@,
            consumer_key@,
            stamp.nonce,
            stamp.unix_time,
        ),
{
    let ck = vstd::slice::slice_to_vec(consumer_key);
    params.insert("oauth_consumer_key".as_bytes_vec(), ck);
    params.insert("oauth_nonce".as_bytes_vec(), u64_to_dec(stamp.nonce));
    params.insert("oauth_timestamp".as_bytes_vec(), u64_to_dec(stamp.unix_time));
    params.insert("oauth_signature_method".as_bytes_vec(), "HMAC-SHA1".as_bytes_vec());
    params.insert("oauth_version".as_bytes_vec(), "1.0".as_bytes_vec());
}

/// The parameter set with its signature inserted: the signature is taken
/// over the base string of the set as it stands.
pub open spec fn with_signature(
    ps: Seq<(Seq<u8>, Seq<u8>)>,
    url: Seq<u8>,
    signing_key: Seq<u8>,
) -> Seq<(Seq<u8>, Seq<u8>)> {
    spec_insert(
        ps,
        k_oauth_signature(),
        signature_of(signing_key, signature_base_of(url, normalized_of(ps))),
    )
}

/// Sign the parameter set for a request to `url` (already stripped of its
/// query string) and insert the signature under `oauth_signature`.
pub fn apply_signature(params: &mut ParamList, url: &[u8], signing_key: &[u8])
    requires
        old(params).wf(),
    ensures
        final(params).wf(),
        final(params)@ == with_signature(old(params)@, url@, signing_key@),
{
    let normalized = params.normalized();
    let base = signature_base(url, normalized.as_slice());
    let sig = compute_signature(signing_key, base.as_slice());
    params.insert("oauth_signature".as_bytes_vec(), sig);
}

/// The fully signed parameter set for one request: protocol parameters
/// merged, then signed against the query-stripped URL.
pub open spec fn signed_params_of(
    ps: Seq<(Seq<u8>, Seq<u8>)>,
    consumer_key: Seq<u8>,
    signing_key: Seq<u8>,
    base_url: Seq<u8>,
    nonce: u64,
    unix_time: u64,
) -> Seq<(Seq<u8>, Seq<u8>)> {
    with_signature(with_protocol_params(ps, consumer_key, nonce, unix_time), base_url, signing_key)
}

/// Prefix of `url` up to (not including) its first `?`, or all of it.
pub open spec fn base_url_of(url: Seq<u8>) -> Seq<u8> {
    url.take(crate::bytes::first_sep_at(url, 0x3f) as int)
}

/// Strip the query string off a URL before signing.
pub fn strip_query(url: &[u8]) -> (r: Vec<u8>)
    ensures
        r@ == base_url_of(url@),
{
    let n = url.len();
    let mut i: usize = 0;
    while i < n
        invariant
            n == url@.len(),
            i <= n,
            forall|j: int| 0 <= j < i ==> url@[j] != 0x3f,
        decreases n - i,
    {
        if url[i] == 0x3f {
            proof {
                crate::bytes::lemma_first_sep_at_is(url@, 0x3f, i as int);
            }
            let prefix = vstd::slice::slice_subrange(url, 0, i);
            return vstd::slice::slice_to_vec(prefix);
        }
        i += 1;
    }
    proof {
        crate::bytes::lemma_first_sep_at(url@, 0x3f);
        if crate::bytes::first_sep_at(url@, 0x3f) < url@.len() {
            assert(url@[crate::bytes::first_sep_at(url@, 0x3f) as int] == 0x3f);
        }
        assert(url@.take(url@.len() as int) =~= url@);
    }
    vstd::slice::slice_to_vec(url)
}

// ---------------------------------------------------------------------------
// The Authorization header and the request
// ---------------------------------------------------------------------------

/// One `key="value"` member of the header, both sides percent-encoded.
pub open spec fn header_part(p: (Seq<u8>, Seq<u8>)) -> Seq<u8> {
    percent_encoded(p.0) + seq![0x3du8, 0x22u8] + percent_encoded(p.1) + seq![0x22u8]
}

pub open spec fn header_parts(ps: Seq<(Seq<u8>, Seq<u8>)>) -> Seq<Seq<u8>> {
    Seq::new(ps.len(), |i: int| header_part(ps[i]))
}

/// The `Authorization` header value: `OAuth ` and the comma-separated
/// quoted pairs, in the order the set holds them.
pub open spec fn auth_header_of(ps: Seq<(Seq<u8>, Seq<u8>)>) -> Seq<u8> {
    ("OAuth ").spec_bytes() + join_with(header_parts(ps), (", ").spec_bytes())
}

/// Render the `Authorization` header value for a parameter set.
pub fn authorization_header(params: &ParamList) -> (r: Vec<u8>)
    ensures
        r@ == auth_header_of(params@),
{
    let ghost parts = header_parts(params@);
    let ghost sep = (", ").spec_bytes();
    let mut r = "OAuth ".as_bytes_vec();
    let ghost prefix = r@;
    let n = params.len();
    let mut i: usize = 0;
    while i < n
        invariant
            n == params@.len(),
            parts == header_parts(params@),
            sep == (", ").spec_bytes(),
            n == parts.len(),
            i <= n,
            i == 0 ==> r@ == prefix,
            i >= 1 ==> prefix + join_with(parts, sep) == r@ + join_tail(parts.skip(i as int), sep),
            prefix == ("OAuth ").spec_bytes(),
        decreases n - i,
    {
        if i > 0 {
            let mut sv = ", ".as_bytes_vec();
            r.append(&mut sv);
        }
        let mut ek = percent_encode(params.key_at(i).as_slice());
        r.append(&mut ek);
        r.push(0x3d);
        r.push(0x22);
        let mut ev = percent_encode(params.value_at(i).as_slice());
        r.append(&mut ev);
        r.push(0x22);
        proof {
            assert(parts[i as int] == header_part(params@[i as int]));
            assert(parts.skip(i as int)[0] == parts[i as int]);
            assert(parts.skip(i as int).drop_first() =~= parts.skip(i as int + 1));
            if i == 0 {
                lemma_join_with_tail(parts, sep);
                assert(parts.drop_first() =~= parts.skip(1));
                assert(r@ =~= prefix + parts[0]);
                assert(prefix + join_with(parts, sep) =~= r@ + join_tail(parts.skip(1), sep));
            } else {
                assert(prefix + join_with(parts, sep) =~= r@ + join_tail(
                    parts.skip(i as int + 1),
                    sep,
                ));
            }
        }
        i += 1;
    }
    proof {
        if n == 0 {
            assert(r@ =~= auth_header_of(params@));
        } else {
            assert(parts.skip(n as int) =~= Seq::<Seq<u8>>::empty());
            assert(r@ =~= auth_header_of(params@));
        }
    }
    r
}

/// A fully assembled signed request: the target URL (with its query
/// string) and every header to send.  The method is POST and the body is
/// empty; all parameters travel in the URL and the header.
pub struct SignedRequest {
    pub url: Vec<u8>,
    pub headers: Vec<(Vec<u8>, Vec<u8>)>,
}

/// The fixed headers of every request.
pub open spec fn fixed_headers() -> Seq<(Seq<u8>, Seq<u8>)> {
    seq![
        (("User-Agent").spec_bytes(), ("Rust@2021/hyper@0.14.26/hyper-rustls@0.24.0").spec_bytes()),
        (("Accept-Encoding").spec_bytes(), ("gzip").spec_bytes()),
        (("Accept").spec_bytes(), ("*/*").spec_bytes()),
        (("Connection").spec_bytes(), ("keep-alive").spec_bytes()),
        (("Content-Type").spec_bytes(), ("application/json").spec_bytes()),
        (("Content-Length").spec_bytes(), ("0").spec_bytes()),
    ]
}

/// The header list of a signed request: the fixed headers and the
/// `Authorization` header for the parameter set.
pub open spec fn headers_of(ps: Seq<(Seq<u8>, Seq<u8>)>) -> Seq<(Seq<u8>, Seq<u8>)> {
    fixed_headers().push((("Authorization").spec_bytes(), auth_header_of(ps)))
}

/// Assemble the request: the URL as given, the fixed headers, and the
/// `Authorization` header rendered from the signed parameter set.
pub fn build_request(url: Vec<u8>, params: &ParamList) -> (r: SignedRequest)
    ensures
        r.url@ == url@,
        crate::token::pair_views(r.headers@) == headers_of(params@),
{
    let mut headers: Vec<(Vec<u8>, Vec<u8>)> = Vec::new();
    headers.push(("User-Agent".as_bytes_vec(), "Rust@2021/hyper@0.14.26/hyper-rustls@0.24.0".as_bytes_vec()));
    headers.push(("Accept-Encoding".as_bytes_vec(), "gzip".as_bytes_vec()));
    headers.push(("Accept".as_bytes_vec(), "*/*".as_bytes_vec()));
    headers.push(("Connection".as_bytes_vec(), "keep-alive".as_bytes_vec()));
    headers.push(("Content-Type".as_bytes_vec(), "application/json".as_bytes_vec()));
    headers.push(("Content-Length".as_bytes_vec(), "0".as_bytes_vec()));
    headers.push(("Authorization".as_bytes_vec(), authorization_header(params)));
    proof {
        assert(crate::token::pair_views(headers@) =~= headers_of(params@));
    }
    SignedRequest { url, headers }
}

/// One signature for one request: the signed parameter set, hence the
/// signature and the header, is a function of the key material, URL,
/// parameters, nonce and timestamp alone, so equal inputs give
/// byte-identical output on every run.
pub proof fn lemma_signing_deterministic(
    r1: Seq<(Seq<u8>, Seq<u8>)>,
    r2: Seq<(Seq<u8>, Seq<u8>)>,
    ps: Seq<(Seq<u8>, Seq<u8>)>,
    consumer_key: Seq<u8>,
    signing_key: Seq<u8>,
    base_url: Seq<u8>,
    nonce: u64,
    unix_time: u64,
)
    requires
        r1 == signed_params_of(ps, consumer_key, signing_key, base_url, nonce, unix_time),
        r2 == signed_params_of(ps, consumer_key, signing_key, base_url, nonce, unix_time),
    ensures
        r1 == r2,
        auth_header_of(r1) == auth_header_of(r2),
{
}

} // verus!
