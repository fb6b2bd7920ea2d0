//! The three-legged exchange client: request token, authorization URL,
//! verifier, access token, and the signed action requests.
//!
//! The client is pure protocol state: it builds fully signed requests and
//! consumes raw response bodies; the caller performs the transport.  One
//! client serves one logical task at a time.

use vstd::prelude::*;
use vstd::string::{is_ascii, StrSliceExecFns, StringSliceAdditionalSpecFns};
use crate::errors::OauthError;
use crate::params::{map_of, ParamList, spec_insert};
use crate::signer::{apply_oauth_params, apply_signature, base_url_of, build_request, derive_signing_key, headers_of, k_oauth_consumer_key, k_oauth_nonce, k_oauth_signature, k_oauth_signature_method, k_oauth_timestamp, k_oauth_token, k_oauth_token_secret, k_oauth_version, signed_params_of, signing_key_of, strip_query, RequestStamp, SignedRequest};
use crate::token::{decode_token, find_value, lookup_pair, pair_views, parse_pairs};

verus! {

broadcast use vstd::string::group_string_axioms;

/// View of an optional byte string.
pub open spec fn opt_view(o: Option<Vec<u8>>) -> Option<Seq<u8>> {
    match o {
        Some(v) => Some(v@),
        None => None,
    }
}

/// The token a response body yields under `key`, when the body parses.
pub open spec fn token_from_body(body: Seq<u8>, key: Seq<u8>) -> Option<Seq<u8>> {
    match parse_pairs(body) {
        Some(ps) => lookup_pair(ps, key),
        None => None,
    }
}

// ---------------------------------------------------------------------------
// Endpoints
// ---------------------------------------------------------------------------

pub open spec fn request_token_url() -> Seq<u8> {
    ("https://api.twitter.com/oauth/request_token").spec_bytes()
}

pub open spec fn authorization_url_of(token: Seq<u8>) -> Seq<u8> {
    ("https://api.twitter.com/oauth/authorize?oauth_token=").spec_bytes() + token
}

pub open spec fn access_token_url_of(verifier: Seq<u8>, token: Seq<u8>) -> Seq<u8> {
    ("https://api.twitter.com/oauth/access_token?oauth_verifier=").spec_bytes() + verifier + (
    "&oauth_token=").spec_bytes() + token
}

pub open spec fn like_url_of(tweet_id: Seq<u8>) -> Seq<u8> {
    ("https://api.twitter.com/1.1/favorites/create.json?id=").spec_bytes() + tweet_id
}

pub open spec fn unlike_url_of(tweet_id: Seq<u8>) -> Seq<u8> {
    ("https://api.twitter.com/1.1/favorites/destroy.json?id=").spec_bytes() + tweet_id
}

pub open spec fn retweet_url_of(tweet_id: Seq<u8>) -> Seq<u8> {
    ("https://api.twitter.com/1.1/statuses/retweet/").spec_bytes() + tweet_id + (
    ".json").spec_bytes()
}

pub open spec fn unretweet_url_of(tweet_id: Seq<u8>) -> Seq<u8> {
    ("https://api.twitter.com/1.1/statuses/unretweet/").spec_bytes() + tweet_id + (
    ".json").spec_bytes()
}

pub open spec fn lookup_url_of(tweet_id: Seq<u8>) -> Seq<u8> {
    ("https://api.twitter.com/1.1/statuses/lookup.json?id=").spec_bytes() + tweet_id + (
    "&trim_user=true").spec_bytes()
}

pub open spec fn follow_url_of(user_id: Seq<u8>) -> Seq<u8> {
    ("https://api.twitter.com/1.1/friendships/create.json?user_id=").spec_bytes() + user_id
}

pub open spec fn unfollow_url_of(user_id: Seq<u8>) -> Seq<u8> {
    ("https://api.twitter.com/1.1/friendships/destroy.json?user_id=").spec_bytes() + user_id
}

// ---------------------------------------------------------------------------
// Caller parameter sets of the signed actions
// ---------------------------------------------------------------------------

/// `oauth_token` and the action's `id` parameter.
pub open spec fn id_params_of(token: Seq<u8>, tweet_id: Seq<u8>) -> Seq<(Seq<u8>, Seq<u8>)> {
    spec_insert(
        spec_insert(Seq::empty(), k_oauth_token(), token),
        ("id").spec_bytes(),
        tweet_id,
    )
}

/// `oauth_token` alone.
pub open spec fn token_only_params_of(token: Seq<u8>) -> Seq<(Seq<u8>, Seq<u8>)> {
    spec_insert(Seq::empty(), k_oauth_token(), token)
}

/// `oauth_token` and the action's `user_id` parameter.
pub open spec fn user_params_of(token: Seq<u8>, user_id: Seq<u8>) -> Seq<(Seq<u8>, Seq<u8>)> {
    spec_insert(
        spec_insert(Seq::empty(), k_oauth_token(), token),
        ("user_id").spec_bytes(),
        user_id,
    )
}

/// `oauth_token`, `id` and `trim_user=true`.
pub open spec fn lookup_params_of(token: Seq<u8>, tweet_id: Seq<u8>) -> Seq<(Seq<u8>, Seq<u8>)> {
    spec_insert(id_params_of(token, tweet_id), ("trim_user").spec_bytes(), ("true").spec_bytes())
}

// ---------------------------------------------------------------------------
// The client
// ---------------------------------------------------------------------------

pub struct TwitterClient {
    consumer_key: Vec<u8>,
    consumer_secret: Vec<u8>,
    request_token: Option<Vec<u8>>,
    request_token_secret: Option<Vec<u8>>,
    access_token: Option<Vec<u8>>,
    access_token_secret: Option<Vec<u8>>,
    signing_key: Vec<u8>,
}

impl TwitterClient {
    pub closed spec fn consumer_key_v(self) -> Seq<u8> {
        self.consumer_key@
    }

    pub closed spec fn consumer_secret_v(self) -> Seq<u8> {
        self.consumer_secret@
    }

    pub closed spec fn request_token_v(self) -> Option<Seq<u8>> {
        opt_view(self.request_token)
    }

    pub closed spec fn request_token_secret_v(self) -> Option<Seq<u8>> {
        opt_view(self.request_token_secret)
    }

    pub closed spec fn access_token_v(self) -> Option<Seq<u8>> {
        opt_view(self.access_token)
    }

    pub closed spec fn access_token_secret_v(self) -> Option<Seq<u8>> {
        opt_view(self.access_token_secret)
    }

    pub closed spec fn signing_key_v(self) -> Seq<u8> {
        self.signing_key@
    }

    /// The resource-owner secret currently in force: the access secret
    /// once obtained, the request secret during the exchange, empty
    /// before either.
    pub open spec fn current_resource_secret(self) -> Seq<u8> {
        match self.access_token_secret_v() {
            Some(s) => s,
            None => match self.request_token_secret_v() {
                Some(s) => s,
                None => Seq::empty(),
            },
        }
    }

    /// The signing key in use always matches the most recently
    /// established secret, and each token pair is stored whole or not at
    /// all.
    pub open spec fn wf(self) -> bool {
        &&& self.signing_key_v() == signing_key_of(
            self.consumer_secret_v(),
            self.current_resource_secret(),
        )
        &&& (self.request_token_v() is Some <==> self.request_token_secret_v() is Some)
        &&& (self.access_token_v() is Some <==> self.access_token_secret_v() is Some)
    }

    /// Build a client.  Consumer key and secret are required: an empty
    /// one is a configuration error.  A caller holding a durable access
    /// pair supplies both halves; anything less starts unauthenticated.
    pub fn new(
        consumer_key: Vec<u8>,
        consumer_secret: Vec<u8>,
        access_token: Option<Vec<u8>>,
        access_token_secret: Option<Vec<u8>>,
    ) -> (r: Result<TwitterClient, OauthError>)
        ensures
            r is Ok <==> (consumer_key@.len() > 0 && consumer_secret@.len() > 0),
            match r {
                Ok(c) => {
                    &&& c.wf()
                    &&& c.consumer_key_v() == consumer_key@
                    &&& c.consumer_secret_v() == consumer_secret@
                    &&& c.request_token_v() is None
                    &&& c.access_token_v() == (match (access_token, access_token_secret) {
                        (Some(t), Some(s)) => Some(t@),
                        _ => None::<Seq<u8>>,
                    })
                    &&& c.access_token_secret_v() == (match (access_token, access_token_secret) {
                        (Some(t), Some(s)) => Some(s@),
                        _ => None::<Seq<u8>>,
                    })
                },
                Err(e) => e == OauthError::Configuration,
            },
    {
        if consumer_key.len() == 0 || consumer_secret.len() == 0 {
            return Err(OauthError::Configuration);
        }
        let (at, ats) = match (access_token, access_token_secret) {
            (Some(t), Some(s)) => (Some(t), Some(s)),
            _ => (None, None),
        };
        let signing_key = match &ats {
            Some(s) => derive_signing_key(consumer_secret.as_slice(), s.as_slice()),
            None => {
                let empty: Vec<u8> = Vec::new();
                derive_signing_key(consumer_secret.as_slice(), empty.as_slice())
            },
        };
        Ok(
            TwitterClient {
                consumer_key,
                consumer_secret,
                request_token: None,
                request_token_secret: None,
                access_token: at,
                access_token_secret: ats,
                signing_key,
            },
        )
    }

    /// Merge the protocol parameters, sign against the query-stripped
    /// URL, and assemble the request.
    fn build_signed(&self, url: Vec<u8>, params: ParamList, stamp: &RequestStamp) -> (r:
        SignedRequest)
        requires
            self.wf(),
            params.wf(),
        ensures
            r.url@ == url@,
            pair_views(r.headers@) == headers_of(
                signed_params_of(
                    params@,
                    self.consumer_key_v(),
                    self.signing_key_v(),
                    base_url_of(url@),
                    stamp.nonce,
                    stamp.unix_time,
                ),
            ),
    {
        let mut p = params;
        apply_oauth_params(&mut p, self.consumer_key.as_slice(), stamp);
        let base = strip_query(url.as_slice());
        apply_signature(&mut p, base.as_slice(), self.signing_key.as_slice());
        build_request(url, &p)
    }

    /// The signed request for the first leg: POST to the request-token
    /// endpoint with an empty caller parameter set, signed with the
    /// consumer secret and the empty resource secret the client holds.
    pub fn request_token_request(&self, stamp: &RequestStamp) -> (r: SignedRequest)
        requires
            self.wf(),
        ensures
            r.url@ == request_token_url(),
            pair_views(r.headers@) == headers_of(
                signed_params_of(
                    Seq::empty(),
                    self.consumer_key_v(),
                    self.signing_key_v(),
                    base_url_of(request_token_url()),
                    stamp.nonce,
                    stamp.unix_time,
                ),
            ),
    {
        let url = "https://api.twitter.com/oauth/request_token".as_bytes_vec();
        self.build_signed(url, ParamList::new(), stamp)
    }

    /// Consume a request-token response body: store the request pair,
    /// drop any access pair (the exchange restarts), and re-derive the
    /// signing key from the request secret.
    pub fn apply_request_token_response(&mut self, body: &[u8]) -> (r: Result<(), OauthError>)
        requires
            old(self).wf(),
        ensures
            final(self).wf(),
            final(self).consumer_key_v() == old(self).consumer_key_v(),
            final(self).consumer_secret_v() == old(self).consumer_secret_v(),
            r is Ok <==> (token_from_body(body@, k_oauth_token()) is Some && token_from_body(
                body@,
                k_oauth_token_secret(),
            ) is Some),
            match r {
                Ok(()) => {
                    &&& final(self).request_token_v() == token_from_body(body@, k_oauth_token())
                    &&& final(self).request_token_secret_v() == token_from_body(
                        body@,
                        k_oauth_token_secret(),
                    )
                    &&& final(self).access_token_v() is None
                    &&& final(self).access_token_secret_v() is None
                },
                Err(e) => {
                    &&& *final(self) == *old(self)
                    &&& (e == OauthError::MalformedResponse <==> parse_pairs(body@) is None)
                    &&& (e == OauthError::MalformedResponse || e == OauthError::TokenExchange)
                },
            },
    {
        let pairs = match decode_token(body) {
            Ok(p) => p,
            Err(e) => {
                return Err(e);
            },
        };
        let key_token = "oauth_token".as_bytes_vec();
        let key_secret = "oauth_token_secret".as_bytes_vec();
        let tok = find_value(&pairs, key_token.as_slice());
        let sec = find_value(&pairs, key_secret.as_slice());
        match (tok, sec) {
            (Some(t), Some(s)) => {
                let signing_key = derive_signing_key(
                    self.consumer_secret.as_slice(),
                    s.as_slice(),
                );
                self.request_token = Some(t);
                self.request_token_secret = Some(s);
                self.access_token = None;
                self.access_token_secret = None;
                self.signing_key = signing_key;
                Ok(())
            },
            _ => Err(OauthError::TokenExchange),
        }
    }

    /// The user-facing authorization URL for the stored request token;
    /// requires the first leg to have succeeded.
    pub fn get_authorization_url(&self) -> (r: Result<Vec<u8>, OauthError>)
        ensures
            match r {
                Ok(u) => match self.request_token_v() {
                    Some(t) => u@ == authorization_url_of(t),
                    None => false,
                },
                Err(e) => e == OauthError::TokenExchange && self.request_token_v() is None,
            },
    {
        match &self.request_token {
            Some(t) => {
                let mut u = "https://api.twitter.com/oauth/authorize?oauth_token=".as_bytes_vec();
                u.extend_from_slice(t.as_slice());
                proof {
                    assert(u@ =~= authorization_url_of(t@));
                }
                Ok(u)
            },
            None => Err(OauthError::TokenExchange),
        }
    }

    /// The signed request for the final leg: the verifier and the request
    /// token travel in the URL query, and the set is signed with the
    /// request secret the client holds.
    pub fn access_token_request(&self, verifier: &[u8], stamp: &RequestStamp) -> (r: Result<
        SignedRequest,
        OauthError,
    >)
        requires
            self.wf(),
        ensures
            match r {
                Ok(req) => match self.request_token_v() {
                    Some(t) => req.url@ == access_token_url_of(verifier@, t) && pair_views(
                        req.headers@,
                    ) == headers_of(
                        signed_params_of(
                            Seq::empty(),
                            self.consumer_key_v(),
                            self.signing_key_v(),
                            base_url_of(access_token_url_of(verifier@, t)),
                            stamp.nonce,
                            stamp.unix_time,
                        ),
                    ),
                    None => false,
                },
                Err(e) => e == OauthError::TokenExchange && self.request_token_v() is None,
            },
    {
        let token = match &self.request_token {
            Some(t) => t,
            None => {
                return Err(OauthError::TokenExchange);
            },
        };
        let mut url = "https://api.twitter.com/oauth/access_token?oauth_verifier=".as_bytes_vec();
        url.extend_from_slice(verifier);
        let mut mid = "&oauth_token=".as_bytes_vec();
        url.append(&mut mid);
        url.extend_from_slice(token.as_slice());
        proof {
            assert(url@ =~= access_token_url_of(verifier@, token@));
        }
        Ok(self.build_signed(url, ParamList::new(), stamp))
    }

    /// Consume an access-token response: store the durable pair, drop the
    /// request pair, re-derive the signing key from the new secret, and
    /// hand a copy of the pair back.  A denied or malformed response
    /// surfaces as `Unauthorized` and leaves the client unchanged; the
    /// caller restarts the exchange from the beginning.
    pub fn get_access_token(&mut self, body: &[u8]) -> (r: Result<(Vec<u8>, Vec<u8>), OauthError>)
        requires
            old(self).wf(),
        ensures
            final(self).wf(),
            final(self).consumer_key_v() == old(self).consumer_key_v(),
            final(self).consumer_secret_v() == old(self).consumer_secret_v(),
            r is Ok <==> (token_from_body(body@, k_oauth_token()) is Some && token_from_body(
                body@,
                k_oauth_token_secret(),
            ) is Some),
            match r {
                Ok(pair) => {
                    &&& token_from_body(body@, k_oauth_token()) == Some(pair.0@)
                    &&& token_from_body(body@, k_oauth_token_secret()) == Some(pair.1@)
                    &&& final(self).access_token_v() == Some(pair.0@)
                    &&& final(self).access_token_secret_v() == Some(pair.1@)
                    &&& final(self).request_token_v() is None
                    &&& final(self).request_token_secret_v() is None
                },
                Err(e) => e == OauthError::Unauthorized && *final(self) == *old(self),
            },
    {
        let pairs = match decode_token(body) {
            Ok(p) => p,
            Err(_) => {
                return Err(OauthError::Unauthorized);
            },
        };
        let key_token = "oauth_token".as_bytes_vec();
        let key_secret = "oauth_token_secret".as_bytes_vec();
        let tok = find_value(&pairs, key_token.as_slice());
        let sec = find_value(&pairs, key_secret.as_slice());
        match (tok, sec) {
            (Some(t), Some(s)) => {
                let signing_key = derive_signing_key(
                    self.consumer_secret.as_slice(),
                    s.as_slice(),
                );
                let t_copy = vstd::slice::slice_to_vec(t.as_slice());
                let s_copy = vstd::slice::slice_to_vec(s.as_slice());
                self.access_token = Some(t);
                self.access_token_secret = Some(s);
                self.request_token = None;
                self.request_token_secret = None;
                self.signing_key = signing_key;
                Ok((t_copy, s_copy))
            },
            _ => Err(OauthError::Unauthorized),
        }
    }

    /// A copy of the access pair, when one is held.
    pub fn access_token_pair(&self) -> (r: Option<(Vec<u8>, Vec<u8>)>)
        requires
            self.wf(),
        ensures
            match r {
                Some(p) => self.access_token_v() == Some(p.0@) && self.access_token_secret_v()
                    == Some(p.1@),
                None => self.access_token_v() is None,
            },
    {
        match (&self.access_token, &self.access_token_secret) {
            (Some(t), Some(s)) => Some(
                (vstd::slice::slice_to_vec(t.as_slice()), vstd::slice::slice_to_vec(s.as_slice())),
            ),
            _ => None,
        }
    }

    /// The stored access token, cloned, or `MissingCredential`.
    fn require_access_token(&self) -> (r: Result<Vec<u8>, OauthError>)
        ensures
            match r {
                Ok(t) => self.access_token_v() == Some(t@),
                Err(e) => e == OauthError::MissingCredential && self.access_token_v() is None,
            },
    {
        match &self.access_token {
            Some(t) => Ok(vstd::slice::slice_to_vec(t.as_slice())),
            None => Err(OauthError::MissingCredential),
        }
    }

    /// The signed like request for a tweet; fails with
    /// `MissingCredential` exactly when no access pair is held.
    pub fn like(&self, tweet_id: &[u8], stamp: &RequestStamp) -> (r: Result<
        SignedRequest,
        OauthError,
    >)
        requires
            self.wf(),
        ensures
            match r {
                Ok(req) => match self.access_token_v() {
                    Some(tok) => req.url@ == like_url_of(tweet_id@) && pair_views(req.headers@)
                        == headers_of(
                        signed_params_of(
                            id_params_of(tok, tweet_id@),
                            self.consumer_key_v(),
                            self.signing_key_v(),
                            base_url_of(like_url_of(tweet_id@)),
                            stamp.nonce,
                            stamp.unix_time,
                        ),
                    ),
                    None => false,
                },
                Err(e) => e == OauthError::MissingCredential && self.access_token_v() is None,
            },
    {
        let token = match self.require_access_token() {
            Ok(t) => t,
            Err(e) => {
                return Err(e);
            },
        };
        let mut url = "https://api.twitter.com/1.1/favorites/create.json?id=".as_bytes_vec();
        url.extend_from_slice(tweet_id);
        let mut params = ParamList::new();
        params.insert("oauth_token".as_bytes_vec(), token);
        params.insert("id".as_bytes_vec(), vstd::slice::slice_to_vec(tweet_id));
        proof {
            assert(url@ =~= like_url_of(tweet_id@));
        }
        Ok(self.build_signed(url, params, stamp))
    }

    /// The signed unlike request for a tweet.
    pub fn unlike(&self, tweet_id: &[u8], stamp: &RequestStamp) -> (r: Result<
        SignedRequest,
        OauthError,
    >)
        requires
            self.wf(),
        ensures
            match r {
                Ok(req) => match self.access_token_v() {
                    Some(tok) => req.url@ == unlike_url_of(tweet_id@) && pair_views(req.headers@)
                        == headers_of(
                        signed_params_of(
                            id_params_of(tok, tweet_id@),
                            self.consumer_key_v(),
                            self.signing_key_v(),
                            base_url_of(unlike_url_of(tweet_id@)),
                            stamp.nonce,
                            stamp.unix_time,
                        ),
                    ),
                    None => false,
                },
                Err(e) => e == OauthError::MissingCredential && self.access_token_v() is None,
            },
    {
        let token = match self.require_access_token() {
            Ok(t) => t,
            Err(e) => {
                return Err(e);
            },
        };
        let mut url = "https://api.twitter.com/1.1/favorites/destroy.json?id=".as_bytes_vec();
        url.extend_from_slice(tweet_id);
        let mut params = ParamList::new();
        params.insert("oauth_token".as_bytes_vec(), token);
        params.insert("id".as_bytes_vec(), vstd::slice::slice_to_vec(tweet_id));
        proof {
            assert(url@ =~= unlike_url_of(tweet_id@));
        }
        Ok(self.build_signed(url, params, stamp))
    }

    /// The signed retweet request for a tweet.
    pub fn retweet(&self, tweet_id: &[u8], stamp: &RequestStamp) -> (r: Result<
        SignedRequest,
        OauthError,
    >)
        requires
            self.wf(),
        ensures
            match r {
                Ok(req) => match self.access_token_v() {
                    Some(tok) => req.url@ == retweet_url_of(tweet_id@) && pair_views(req.headers@)
                        == headers_of(
                        signed_params_of(
                            token_only_params_of(tok),
                            self.consumer_key_v(),
                            self.signing_key_v(),
                            base_url_of(retweet_url_of(tweet_id@)),
                            stamp.nonce,
                            stamp.unix_time,
                        ),
                    ),
                    None => false,
                },
                Err(e) => e == OauthError::MissingCredential && self.access_token_v() is None,
            },
    {
        let token = match self.require_access_token() {
            Ok(t) => t,
            Err(e) => {
                return Err(e);
            },
        };
        let mut url = "https://api.twitter.com/1.1/statuses/retweet/".as_bytes_vec();
        url.extend_from_slice(tweet_id);
        let mut tail = ".json".as_bytes_vec();
        url.append(&mut tail);
        let mut params = ParamList::new();
        params.insert("oauth_token".as_bytes_vec(), token);
        proof {
            assert(url@ =~= retweet_url_of(tweet_id@));
        }
        Ok(self.build_signed(url, params, stamp))
    }

    /// The signed unretweet request for a tweet.
    pub fn unretweet(&self, tweet_id: &[u8], stamp: &RequestStamp) -> (r: Result<
        SignedRequest,
        OauthError,
    >)
        requires
            self.wf(),
        ensures
            match r {
                Ok(req) => match self.access_token_v() {
                    Some(tok) => req.url@ == unretweet_url_of(tweet_id@) && pair_views(
                        req.headers@,
                    ) == headers_of(
                        signed_params_of(
                            token_only_params_of(tok),
                            self.consumer_key_v(),
                            self.signing_key_v(),
                            base_url_of(unretweet_url_of(tweet_id@)),
                            stamp.nonce,
                            stamp.unix_time,
                        ),
                    ),
                    None => false,
                },
                Err(e) => e == OauthError::MissingCredential && self.access_token_v() is None,
            },
    {
        let token = match self.require_access_token() {
            Ok(t) => t,
            Err(e) => {
                return Err(e);
            },
        };
        let mut url = "https://api.twitter.com/1.1/statuses/unretweet/".as_bytes_vec();
        url.extend_from_slice(tweet_id);
        let mut tail = ".json".as_bytes_vec();
        url.append(&mut tail);
        let mut params = ParamList::new();
        params.insert("oauth_token".as_bytes_vec(), token);
        proof {
            assert(url@ =~= unretweet_url_of(tweet_id@));
        }
        Ok(self.build_signed(url, params, stamp))
    }

    /// The signed lookup request whose response carries a tweet's author;
    /// `trim_user` keeps that response small.
    pub fn get_author_id(&self, tweet_id: &[u8], stamp: &RequestStamp) -> (r: Result<
        SignedRequest,
        OauthError,
    >)
        requires
            self.wf(),
        ensures
            match r {
                Ok(req) => match self.access_token_v() {
                    Some(tok) => req.url@ == lookup_url_of(tweet_id@) && pair_views(req.headers@)
                        == headers_of(
                        signed_params_of(
                            lookup_params_of(tok, tweet_id@),
                            self.consumer_key_v(),
                            self.signing_key_v(),
                            base_url_of(lookup_url_of(tweet_id@)),
                            stamp.nonce,
                            stamp.unix_time,
                        ),
                    ),
                    None => false,
                },
                Err(e) => e == OauthError::MissingCredential && self.access_token_v() is None,
            },
    {
        let token = match self.require_access_token() {
            Ok(t) => t,
            Err(e) => {
                return Err(e);
            },
        };
        let mut url = "https://api.twitter.com/1.1/statuses/lookup.json?id=".as_bytes_vec();
        url.extend_from_slice(tweet_id);
        let mut tail = "&trim_user=true".as_bytes_vec();
        url.append(&mut tail);
        let mut params = ParamList::new();
        params.insert("oauth_token".as_bytes_vec(), token);
        params.insert("id".as_bytes_vec(), vstd::slice::slice_to_vec(tweet_id));
        params.insert("trim_user".as_bytes_vec(), "true".as_bytes_vec());
        proof {
            assert(url@ =~= lookup_url_of(tweet_id@));
        }
        Ok(self.build_signed(url, params, stamp))
    }

    /// The signed follow request for a user.
    pub fn follow(&self, user_id: &[u8], stamp: &RequestStamp) -> (r: Result<
        SignedRequest,
        OauthError,
    >)
        requires
            self.wf(),
        ensures
            match r {
                Ok(req) => match self.access_token_v() {
                    Some(tok) => req.url@ == follow_url_of(user_id@) && pair_views(req.headers@)
                        == headers_of(
                        signed_params_of(
                            user_params_of(tok, user_id@),
                            self.consumer_key_v(),
                            self.signing_key_v(),
                            base_url_of(follow_url_of(user_id@)),
                            stamp.nonce,
                            stamp.unix_time,
                        ),
                    ),
                    None => false,
                },
                Err(e) => e == OauthError::MissingCredential && self.access_token_v() is None,
            },
    {
        let token = match self.require_access_token() {
            Ok(t) => t,
            Err(e) => {
                return Err(e);
            },
        };
        let mut url = "https://api.twitter.com/1.1/friendships/create.json?user_id=".as_bytes_vec();
        url.extend_from_slice(user_id);
        let mut params = ParamList::new();
        params.insert("oauth_token".as_bytes_vec(), token);
        params.insert("user_id".as_bytes_vec(), vstd::slice::slice_to_vec(user_id));
        proof {
            assert(url@ =~= follow_url_of(user_id@));
        }
        Ok(self.build_signed(url, params, stamp))
    }

    /// The signed unfollow request for a user.
    pub fn unfollow(&self, user_id: &[u8], stamp: &RequestStamp) -> (r: Result<
        SignedRequest,
        OauthError,
    >)
        requires
            self.wf(),
        ensures
            match r {
                Ok(req) => match self.access_token_v() {
                    Some(tok) => req.url@ == unfollow_url_of(user_id@) && pair_views(req.headers@)
                        == headers_of(
                        signed_params_of(
                            user_params_of(tok, user_id@),
                            self.consumer_key_v(),
                            self.signing_key_v(),
                            base_url_of(unfollow_url_of(user_id@)),
                            stamp.nonce,
                            stamp.unix_time,
                        ),
                    ),
                    None => false,
                },
                Err(e) => e == OauthError::MissingCredential && self.access_token_v() is None,
            },
    {
        let token = match self.require_access_token() {
            Ok(t) => t,
            Err(e) => {
                return Err(e);
            },
        };
        let mut url =
            "https://api.twitter.com/1.1/friendships/destroy.json?user_id=".as_bytes_vec();
        url.extend_from_slice(user_id);
        let mut params = ParamList::new();
        params.insert("oauth_token".as_bytes_vec(), token);
        params.insert("user_id".as_bytes_vec(), vstd::slice::slice_to_vec(user_id));
        proof {
            assert(url@ =~= unfollow_url_of(user_id@));
        }
        Ok(self.build_signed(url, params, stamp))
    }
}


/// `oauth_token` is a different name from every other parameter the signer
/// or an action inserts, so later insertions never displace the token.
pub proof fn lemma_keys_distinct_from_token()
    ensures
        k_oauth_token() != ("id").spec_bytes(),
        k_oauth_token() != ("user_id").spec_bytes(),
        k_oauth_token() != ("trim_user").spec_bytes(),
        k_oauth_token() != k_oauth_consumer_key(),
        k_oauth_token() != k_oauth_nonce(),
        k_oauth_token() != k_oauth_timestamp(),
        k_oauth_token() != k_oauth_signature_method(),
        k_oauth_token() != k_oauth_version(),
        k_oauth_token() != k_oauth_signature(),
{
    reveal_strlit("oauth_token");
    assert(is_ascii("oauth_token")) by {
        assert forall|i: int|
            0 <= i < ("oauth_token")@.len() implies '\0' <= #[trigger] ("oauth_token")@[i]
            <= '\u{7f}' by {}
    }
    assert(("oauth_token").spec_bytes().len() == 11);
    reveal_strlit("oauth_nonce");
    assert(is_ascii("oauth_nonce")) by {
        assert forall|i: int|
            0 <= i < ("oauth_nonce")@.len() implies '\0' <= #[trigger] ("oauth_nonce")@[i]
            <= '\u{7f}' by {}
    }
    assert(("oauth_nonce").spec_bytes().len() == 11);
    reveal_strlit("oauth_consumer_key");
    assert(is_ascii("oauth_consumer_key")) by {
        assert forall|i: int|
            0 <= i < ("oauth_consumer_key")@.len() implies '\0' <= #[trigger] ("oauth_consumer_key")@[i]
            <= '\u{7f}' by {}
    }
    assert(("oauth_consumer_key").spec_bytes().len() == 18);
    reveal_strlit("oauth_timestamp");
    assert(is_ascii("oauth_timestamp")) by {
        assert forall|i: int|
            0 <= i < ("oauth_timestamp")@.len() implies '\0' <= #[trigger] ("oauth_timestamp")@[i]
            <= '\u{7f}' by {}
    }
    assert(("oauth_timestamp").spec_bytes().len() == 15);
    reveal_strlit("oauth_signature_method");
    assert(is_ascii("oauth_signature_method")) by {
        assert forall|i: int|
            0 <= i < ("oauth_signature_method")@.len() implies '\0' <= #[trigger] ("oauth_signature_method")@[i]
            <= '\u{7f}' by {}
    }
    assert(("oauth_signature_method").spec_bytes().len() == 22);
    reveal_strlit("oauth_version");
    assert(is_ascii("oauth_version")) by {
        assert forall|i: int|
            0 <= i < ("oauth_version")@.len() implies '\0' <= #[trigger] ("oauth_version")@[i]
            <= '\u{7f}' by {}
    }
    assert(("oauth_version").spec_bytes().len() == 13);
    reveal_strlit("oauth_signature");
    assert(is_ascii("oauth_signature")) by {
        assert forall|i: int|
            0 <= i < ("oauth_signature")@.len() implies '\0' <= #[trigger] ("oauth_signature")@[i]
            <= '\u{7f}' by {}
    }
    assert(("oauth_signature").spec_bytes().len() == 15);
    reveal_strlit("id");
    assert(is_ascii("id")) by {
        assert forall|i: int|
            0 <= i < ("id")@.len() implies '\0' <= #[trigger] ("id")@[i]
            <= '\u{7f}' by {}
    }
    assert(("id").spec_bytes().len() == 2);
    reveal_strlit("user_id");
    assert(is_ascii("user_id")) by {
        assert forall|i: int|
            0 <= i < ("user_id")@.len() implies '\0' <= #[trigger] ("user_id")@[i]
            <= '\u{7f}' by {}
    }
    assert(("user_id").spec_bytes().len() == 7);
    reveal_strlit("trim_user");
    assert(is_ascii("trim_user")) by {
        assert forall|i: int|
            0 <= i < ("trim_user")@.len() implies '\0' <= #[trigger] ("trim_user")@[i]
            <= '\u{7f}' by {}
    }
    assert(("trim_user").spec_bytes().len() == 9);
    assert(("oauth_nonce")@[6] == 'n');
    assert(("oauth_token")@[6] == 't');
    assert(("oauth_nonce").spec_bytes()[6] != ("oauth_token").spec_bytes()[6]);
}

/// A caller parameter set that carries `oauth_token` still carries it,
/// with the same value, after the protocol parameters and the signature
/// are merged in.
pub proof fn lemma_signed_params_keep_token(
    ps: Seq<(Seq<u8>, Seq<u8>)>,
    consumer_key: Seq<u8>,
    signing_key: Seq<u8>,
    base_url: Seq<u8>,
    nonce: u64,
    unix_time: u64,
    token: Seq<u8>,
)
    requires
        map_of(ps).contains_key(k_oauth_token()),
        map_of(ps)[k_oauth_token()] == token,
    ensures
        map_of(
            signed_params_of(ps, consumer_key, signing_key, base_url, nonce, unix_time),
        ).contains_key(k_oauth_token()),
        map_of(signed_params_of(ps, consumer_key, signing_key, base_url, nonce, unix_time))[
            k_oauth_token()] == token,
{
    lemma_keys_distinct_from_token();
    let ps1 = spec_insert(ps, k_oauth_consumer_key(), consumer_key);
    crate::params::lemma_map_of_insert(ps, k_oauth_consumer_key(), consumer_key);
    let ps2 = spec_insert(ps1, k_oauth_nonce(), crate::bytes::dec_of(nonce as nat));
    crate::params::lemma_map_of_insert(ps1, k_oauth_nonce(), crate::bytes::dec_of(nonce as nat));
    let ps3 = spec_insert(ps2, k_oauth_timestamp(), crate::bytes::dec_of(unix_time as nat));
    crate::params::lemma_map_of_insert(
        ps2,
        k_oauth_timestamp(),
        crate::bytes::dec_of(unix_time as nat),
    );
    let ps4 = spec_insert(ps3, k_oauth_signature_method(), crate::signer::v_signature_method());
    crate::params::lemma_map_of_insert(
        ps3,
        k_oauth_signature_method(),
        crate::signer::v_signature_method(),
    );
    let ps5 = spec_insert(ps4, k_oauth_version(), crate::signer::v_version());
    crate::params::lemma_map_of_insert(ps4, k_oauth_version(), crate::signer::v_version());
    let sig = crate::signer::signature_of(
        signing_key,
        crate::signer::signature_base_of(base_url, crate::params::normalized_of(ps5)),
    );
    crate::params::lemma_map_of_insert(ps5, k_oauth_signature(), sig);
}

/// The exchange round trip.  The request token parsed from a
/// request-token response is exactly what the authorization URL embeds
/// after `oauth_token=`; the access token parsed from an access-token
/// response is exactly the `oauth_token` parameter of a subsequent signed
/// action's parameter set.
pub proof fn lemma_exchange_round_trip(
    request_body: Seq<u8>,
    access_body: Seq<u8>,
    tweet_id: Seq<u8>,
    consumer_key: Seq<u8>,
    signing_key: Seq<u8>,
    base_url: Seq<u8>,
    nonce: u64,
    unix_time: u64,
)
    requires
        token_from_body(request_body, k_oauth_token()) is Some,
        token_from_body(access_body, k_oauth_token()) is Some,
    ensures
        match token_from_body(request_body, k_oauth_token()) {
            Some(req_tok) => authorization_url_of(req_tok) == (
            "https://api.twitter.com/oauth/authorize?oauth_token=").spec_bytes() + req_tok,
            None => false,
        },
        match token_from_body(access_body, k_oauth_token()) {
            Some(acc_tok) => {
                let m = map_of(
                    signed_params_of(
                        id_params_of(acc_tok, tweet_id),
                        consumer_key,
                        signing_key,
                        base_url,
                        nonce,
                        unix_time,
                    ),
                );
                m.contains_key(k_oauth_token()) && m[k_oauth_token()] == acc_tok
            },
            None => false,
        },
{
    lemma_keys_distinct_from_token();
    match token_from_body(access_body, k_oauth_token()) {
        Some(acc_tok) => {
            let ps = id_params_of(acc_tok, tweet_id);
            let e = Seq::<(Seq<u8>, Seq<u8>)>::empty();
            crate::params::lemma_map_of_insert(e, k_oauth_token(), acc_tok);
            crate::params::lemma_map_of_insert(
                spec_insert(e, k_oauth_token(), acc_tok),
                ("id").spec_bytes(),
                tweet_id,
            );
            lemma_signed_params_keep_token(
                ps,
                consumer_key,
                signing_key,
                base_url,
                nonce,
                unix_time,
                acc_tok,
            );
        },
        None => {},
    }
}


// ---------------------------------------------------------------------------
// Credential resolution
// ---------------------------------------------------------------------------

/// How a signed action obtains its credential.
pub enum CredentialOutcome {
    /// Use this pair; `store` marks a pair recovered from persistence that
    /// should be written to the cache.
    Use { access_token: Vec<u8>, access_token_secret: Vec<u8>, store: bool },
    /// Neither a cache hit nor a persisted pair: the caller notifies the
    /// user once and aborts the action with `MissingCredential`.
    NotifyMissing,
}

/// Decide where a signed action's credential comes from: a cache hit wins
/// and needs no store, a persisted pair is used and marked for caching,
/// and with neither the outcome is a single notification and a
/// `MissingCredential` failure.
pub fn resolve_credentials(
    cached: Option<(Vec<u8>, Vec<u8>)>,
    stored: Option<(Vec<u8>, Vec<u8>)>,
) -> (r: CredentialOutcome)
    ensures
        match cached {
            Some(c) => match r {
                CredentialOutcome::Use { access_token, access_token_secret, store } => access_token@
                    == c.0@ && access_token_secret@ == c.1@ && !store,
                CredentialOutcome::NotifyMissing => false,
            },
            None => match stored {
                Some(p) => match r {
                    CredentialOutcome::Use { access_token, access_token_secret, store } => (
                    access_token@ == p.0@ && access_token_secret@ == p.1@ && store),
                    CredentialOutcome::NotifyMissing => false,
                },
                None => r is NotifyMissing,
            },
        },
{
    match cached {
        Some(c) => CredentialOutcome::Use {
            access_token: c.0,
            access_token_secret: c.1,
            store: false,
        },
        None => match stored {
            Some(p) => CredentialOutcome::Use {
                access_token: p.0,
                access_token_secret: p.1,
                store: true,
            },
            None => CredentialOutcome::NotifyMissing,
        },
    }
}

} // verus!
