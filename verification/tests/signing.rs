use oauth1_client::bytes::u64_to_dec;
use oauth1_client::params::ParamList;
use oauth1_client::percent::percent_encode;
use oauth1_client::signer::{compute_signature, derive_signing_key, signature_base, RequestStamp};

fn v(s: &str) -> Vec<u8> {
    s.as_bytes().to_vec()
}

#[test]
fn percent_encoding_unreserved_kept() {
    assert_eq!(percent_encode(b"AZaz09-._~"), v("AZaz09-._~"));
}

#[test]
fn percent_encoding_reserved_escaped() {
    assert_eq!(percent_encode(b"a&b=c d+e%f"), v("a%26b%3Dc%20d%2Be%25f"));
    assert_eq!(percent_encode(b"/:?#[]@"), v("%2F%3A%3F%23%5B%5D%40"));
    assert_eq!(percent_encode(b""), v(""));
}

#[test]
fn decimal_rendering() {
    assert_eq!(u64_to_dec(0), v("0"));
    assert_eq!(u64_to_dec(7), v("7"));
    assert_eq!(u64_to_dec(1700000000), v("1700000000"));
    assert_eq!(u64_to_dec(u64::MAX), v("18446744073709551615"));
}

#[test]
fn normalization_sorts_pairs() {
    let mut p = ParamList::new();
    p.insert(v("b"), v("2"));
    p.insert(v("a"), v("1"));
    assert_eq!(p.normalized(), v("a=1&b=2"));

    let mut q = ParamList::new();
    q.insert(v("a"), v("1"));
    q.insert(v("b"), v("2"));
    assert_eq!(q.normalized(), v("a=1&b=2"));
}

#[test]
fn normalization_replaces_equal_key() {
    let mut p = ParamList::new();
    p.insert(v("a"), v("1"));
    p.insert(v("a"), v("2"));
    assert_eq!(p.normalized(), v("a=2"));
    assert_eq!(p.len(), 1);
}

#[test]
fn normalization_escapes_reserved() {
    let mut p = ParamList::new();
    p.insert(v("k&1"), v("v=1"));
    p.insert(v("k 2"), v("v+2%"));
    assert_eq!(p.normalized(), v("k%202=v%2B2%25&k%261=v%3D1"));
}

#[test]
fn signing_key_includes_empty_secret() {
    assert_eq!(derive_signing_key(b"csecret", b""), v("csecret&"));
    assert_eq!(derive_signing_key(b"c secret", b"t&s"), v("c%20secret&t%26s"));
}

#[test]
fn signature_base_shape() {
    let base = signature_base(b"https://example.com/a", b"a=1&b=2");
    assert_eq!(
        base,
        v("POST&https%3A%2F%2Fexample.com%2Fa&a%3D1%26b%3D2")
    );
}

#[test]
fn hmac_sha1_base64_known_vector() {
    let sig = compute_signature(b"key", b"The quick brown fox jumps over the lazy dog");
    assert_eq!(sig, v("3nybhbi3iqa8ino29wqQcBydtNk="));
}

#[test]
fn fresh_stamps_vary() {
    let a = RequestStamp::fresh();
    let b = RequestStamp::fresh();
    assert_ne!(a.nonce, b.nonce);
    assert!(a.unix_time >= 1_600_000_000);
}
