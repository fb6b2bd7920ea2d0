use oauth1_client::client::{resolve_credentials, CredentialOutcome, TwitterClient};
use oauth1_client::errors::OauthError;
use oauth1_client::signer::RequestStamp;
use oauth1_client::token::{decode_token, find_value};

fn v(s: &str) -> Vec<u8> {
    s.as_bytes().to_vec()
}

fn client_with_access() -> TwitterClient {
    TwitterClient::new(v("ckey"), v("csecret"), Some(v("ACC")), Some(v("ACCS"))).unwrap()
}

fn contains(haystack: &[u8], needle: &[u8]) -> bool {
    oauth1_client::scan::find_first(haystack, needle).is_some()
}

fn stamp() -> RequestStamp {
    RequestStamp { nonce: 12345, unix_time: 1700000000 }
}

#[test]
fn missing_consumer_key_is_configuration_error() {
    let r = TwitterClient::new(v(""), v("csecret"), None, None);
    assert_eq!(r.err(), Some(OauthError::Configuration));
    let r = TwitterClient::new(v("ckey"), v(""), None, None);
    assert_eq!(r.err(), Some(OauthError::Configuration));
}

#[test]
fn decode_token_splits_pairs() {
    let pairs = decode_token(b"oauth_token=REQ&oauth_token_secret=REQS").unwrap();
    assert_eq!(find_value(&pairs, b"oauth_token"), Some(v("REQ")));
    assert_eq!(find_value(&pairs, b"oauth_token_secret"), Some(v("REQS")));
    assert_eq!(find_value(&pairs, b"absent"), None);
}

#[test]
fn decode_token_last_pair_wins() {
    let pairs = decode_token(b"k=1&k=2").unwrap();
    assert_eq!(find_value(&pairs, b"k"), Some(v("2")));
}

#[test]
fn decode_token_rejects_malformed() {
    assert_eq!(decode_token(b"no_separator").err(), Some(OauthError::MalformedResponse));
    assert_eq!(decode_token(b"a=1&b").err(), Some(OauthError::MalformedResponse));
    assert_eq!(decode_token(b"a=1=2").err(), Some(OauthError::MalformedResponse));
    assert_eq!(decode_token(b"").err(), Some(OauthError::MalformedResponse));
}

#[test]
fn request_token_response_feeds_authorization_url() {
    let mut c = TwitterClient::new(v("ckey"), v("csecret"), None, None).unwrap();
    assert_eq!(c.get_authorization_url().err(), Some(OauthError::TokenExchange));
    c.apply_request_token_response(b"oauth_token=REQ&oauth_token_secret=REQS").unwrap();
    let url = c.get_authorization_url().unwrap();
    assert_eq!(url, v("https://api.twitter.com/oauth/authorize?oauth_token=REQ"));
    assert!(contains(&url, b"oauth_token=REQ"));
}

#[test]
fn request_token_response_missing_key_fails() {
    let mut c = TwitterClient::new(v("ckey"), v("csecret"), None, None).unwrap();
    let r = c.apply_request_token_response(b"oauth_token=REQ&other=1");
    assert_eq!(r.err(), Some(OauthError::TokenExchange));
    let r = c.apply_request_token_response(b"not pairs");
    assert_eq!(r.err(), Some(OauthError::MalformedResponse));
}

#[test]
fn access_token_response_feeds_signed_actions() {
    let mut c = TwitterClient::new(v("ckey"), v("csecret"), None, None).unwrap();
    c.apply_request_token_response(b"oauth_token=REQ&oauth_token_secret=REQS").unwrap();
    let req = c.access_token_request(b"1234567", &stamp()).unwrap();
    assert_eq!(
        req.url,
        v("https://api.twitter.com/oauth/access_token?oauth_verifier=1234567&oauth_token=REQ")
    );
    let (tok, sec) = c.get_access_token(b"oauth_token=ACC&oauth_token_secret=ACCS").unwrap();
    assert_eq!(tok, v("ACC"));
    assert_eq!(sec, v("ACCS"));
    let like = c.like(b"42", &stamp()).unwrap();
    let auth = &like.headers.last().unwrap().1;
    assert!(contains(auth, b"oauth_token=\"ACC\""));
}

#[test]
fn denied_access_token_is_unauthorized() {
    let mut c = TwitterClient::new(v("ckey"), v("csecret"), None, None).unwrap();
    c.apply_request_token_response(b"oauth_token=REQ&oauth_token_secret=REQS").unwrap();
    assert_eq!(c.get_access_token(b"garbage").err(), Some(OauthError::Unauthorized));
    assert_eq!(
        c.get_access_token(b"error=denied").err(),
        Some(OauthError::Unauthorized)
    );
    // The client is unchanged: the exchange can restart.
    assert!(c.get_authorization_url().is_ok());
}

#[test]
fn signature_is_deterministic() {
    let c = client_with_access();
    let a = c.like(b"42", &stamp()).unwrap();
    let b = c.like(b"42", &stamp()).unwrap();
    assert_eq!(a.url, b.url);
    assert_eq!(a.headers, b.headers);
}

#[test]
fn like_matches_reference_signature() {
    let c = client_with_access();
    let req = c.like(b"42", &stamp()).unwrap();
    assert_eq!(req.url, v("https://api.twitter.com/1.1/favorites/create.json?id=42"));
    let (name, value) = req.headers.last().unwrap();
    assert_eq!(name, &v("Authorization"));
    assert_eq!(
        value,
        &v(
            "OAuth id=\"42\", oauth_consumer_key=\"ckey\", oauth_nonce=\"12345\", \
             oauth_signature=\"oO9p9dH3A7if03%2BYlMLaJQnkm%2Fk%3D\", \
             oauth_signature_method=\"HMAC-SHA1\", oauth_timestamp=\"1700000000\", \
             oauth_token=\"ACC\", oauth_version=\"1.0\""
        )
    );
}

#[test]
fn fixed_headers_are_sent() {
    let c = client_with_access();
    let req = c.retweet(b"42", &stamp()).unwrap();
    assert_eq!(req.url, v("https://api.twitter.com/1.1/statuses/retweet/42.json"));
    assert_eq!(req.headers[0], (v("User-Agent"), v("Rust@2021/hyper@0.14.26/hyper-rustls@0.24.0")));
    assert_eq!(req.headers[1], (v("Accept-Encoding"), v("gzip")));
    assert_eq!(req.headers[2], (v("Accept"), v("*/*")));
    assert_eq!(req.headers[3], (v("Connection"), v("keep-alive")));
    assert_eq!(req.headers[4], (v("Content-Type"), v("application/json")));
    assert_eq!(req.headers[5], (v("Content-Length"), v("0")));
    assert_eq!(req.headers.len(), 7);
}

#[test]
fn action_urls_embed_ids() {
    let c = client_with_access();
    let s = stamp();
    assert_eq!(
        c.unlike(b"9", &s).unwrap().url,
        v("https://api.twitter.com/1.1/favorites/destroy.json?id=9")
    );
    assert_eq!(
        c.unretweet(b"9", &s).unwrap().url,
        v("https://api.twitter.com/1.1/statuses/unretweet/9.json")
    );
    assert_eq!(
        c.get_author_id(b"9", &s).unwrap().url,
        v("https://api.twitter.com/1.1/statuses/lookup.json?id=9&trim_user=true")
    );
    assert_eq!(
        c.follow(b"77", &s).unwrap().url,
        v("https://api.twitter.com/1.1/friendships/create.json?user_id=77")
    );
    assert_eq!(
        c.unfollow(b"77", &s).unwrap().url,
        v("https://api.twitter.com/1.1/friendships/destroy.json?user_id=77")
    );
}

#[test]
fn actions_without_credential_fail() {
    let c = TwitterClient::new(v("ckey"), v("csecret"), None, None).unwrap();
    let s = stamp();
    assert_eq!(c.like(b"42", &s).err(), Some(OauthError::MissingCredential));
    assert_eq!(c.unlike(b"42", &s).err(), Some(OauthError::MissingCredential));
    assert_eq!(c.retweet(b"42", &s).err(), Some(OauthError::MissingCredential));
    assert_eq!(c.unretweet(b"42", &s).err(), Some(OauthError::MissingCredential));
    assert_eq!(c.get_author_id(b"42", &s).err(), Some(OauthError::MissingCredential));
    assert_eq!(c.follow(b"42", &s).err(), Some(OauthError::MissingCredential));
    assert_eq!(c.unfollow(b"42", &s).err(), Some(OauthError::MissingCredential));
}

#[test]
fn missing_credential_notifies_once() {
    // No cache hit and no persisted pair: one notification, then the
    // action aborts with MissingCredential.
    match resolve_credentials(None, None) {
        CredentialOutcome::NotifyMissing => {}
        CredentialOutcome::Use { .. } => panic!("expected a notification"),
    }
    let c = TwitterClient::new(v("ckey"), v("csecret"), None, None).unwrap();
    assert_eq!(
        c.like(b"42", &stamp()).err(),
        Some(OauthError::MissingCredential)
    );
}

#[test]
fn cache_hit_wins_over_persisted() {
    match resolve_credentials(Some((v("ct"), v("cs"))), Some((v("pt"), v("ps")))) {
        CredentialOutcome::Use { access_token, access_token_secret, store } => {
            assert_eq!(access_token, v("ct"));
            assert_eq!(access_token_secret, v("cs"));
            assert!(!store);
        }
        CredentialOutcome::NotifyMissing => panic!("expected a credential"),
    }
    match resolve_credentials(None, Some((v("pt"), v("ps")))) {
        CredentialOutcome::Use { access_token, access_token_secret, store } => {
            assert_eq!(access_token, v("pt"));
            assert_eq!(access_token_secret, v("ps"));
            assert!(store);
        }
        CredentialOutcome::NotifyMissing => panic!("expected a credential"),
    }
}
