use oauth1_client::errors::OauthError;
use oauth1_client::scan::{extract_author_id, find_author_id, get_first_tweet_id, match_locale, parse_stored_credentials};
use oauth1_client::transport::decode_response_body;

fn v(s: &str) -> Vec<u8> {
    s.as_bytes().to_vec()
}

#[test]
fn author_id_extracted_from_lookup_response() {
    let body = br#"[{"id":1,"user":{"id":12345678901234567,"id_str":"12345678901234567"}}]"#;
    assert_eq!(find_author_id(body), Some(v("12345678901234567")));
    assert_eq!(extract_author_id(body), v("12345678901234567"));
}

#[test]
fn author_id_first_occurrence_wins() {
    let body = br#""user":{"id":111,"x":0} "user":{"id":222}"#;
    assert_eq!(find_author_id(body), Some(v("111")));
}

#[test]
fn author_id_absent_returns_body_unchanged() {
    let body = br#"{"errors":[{"code":34}]}"#;
    assert_eq!(find_author_id(body), None);
    assert_eq!(extract_author_id(body), body.to_vec());
    // The field with no digits after it is also a no-match.
    let odd = br#""user":{"id":none}"#;
    assert_eq!(find_author_id(odd), None);
}

#[test]
fn tweet_id_found_in_message() {
    let m = b"look at https://twitter.com/someone/status/1234567890 wow";
    assert_eq!(get_first_tweet_id(m), Some(v("1234567890")));
}

#[test]
fn tweet_id_variant_hosts_and_www() {
    assert_eq!(
        get_first_tweet_id(b"https://fxtwitter.com/a_user/status/42"),
        Some(v("42"))
    );
    assert_eq!(
        get_first_tweet_id(b"http://www.vxtwitter.com/B9/status/7"),
        Some(v("7"))
    );
}

#[test]
fn tweet_id_first_of_several() {
    let m = b"https://twitter.com/a/status/111 then https://twitter.com/b/status/222";
    assert_eq!(get_first_tweet_id(m), Some(v("111")));
}

#[test]
fn tweet_id_rejects_near_misses() {
    assert_eq!(get_first_tweet_id(b"no links here"), None);
    assert_eq!(get_first_tweet_id(b"https://example.com/a/status/1"), None);
    // An account name may hold at most fifteen name bytes.
    assert_eq!(
        get_first_tweet_id(b"https://twitter.com/abcdefghijklmnop/status/1"),
        None
    );
    assert_eq!(get_first_tweet_id(b"https://twitter.com//status/1"), None);
    assert_eq!(get_first_tweet_id(b"twitter.com/a/status/1"), None);
}

#[test]
fn tweet_id_can_be_empty() {
    assert_eq!(get_first_tweet_id(b"https://twitter.com/a/status/"), Some(v("")));
}

#[test]
fn stored_credentials_parsed() {
    let content = b"Twitter User Access Token\n||`SOMETOKEN`||\n||`SOMESECRET`||";
    let (tok, sec) = parse_stored_credentials(content).unwrap();
    assert_eq!(tok, v("SOMETOKEN"));
    assert_eq!(sec, v("SOMESECRET"));
}

#[test]
fn stored_credentials_reject_wrong_shape() {
    assert_eq!(parse_stored_credentials(b"unrelated\n`a`\n`b`"), None);
    assert_eq!(parse_stored_credentials(b"Twitter User Access Token\n`a`"), None);
    assert_eq!(
        parse_stored_credentials(b"Twitter User Access Token\n`a`\n`b`\n`c`"),
        None
    );
}

#[test]
fn stored_credentials_keep_single_pipes() {
    let content = b"Twitter User Access Token\n`a|b`\n`c|||d`";
    let (tok, sec) = parse_stored_credentials(content).unwrap();
    assert_eq!(tok, v("a|b"));
    assert_eq!(sec, v("c|d"));
}

#[test]
fn gzip_body_decoded() {
    // gzip of "oauth_token=abc&oauth_token_secret=def"
    let blob: Vec<u8> = vec![
        31, 139, 8, 0, 108, 38, 199, 106, 2, 255, 203, 79, 44, 45, 201, 136, 47, 201, 207, 78,
        205, 179, 77, 76, 74, 86, 203, 71, 240, 227, 139, 83, 147, 139, 82, 75, 108, 83, 82, 211,
        0, 52, 132, 166, 127, 38, 0, 0, 0,
    ];
    assert_eq!(
        decode_response_body(&blob).unwrap(),
        v("oauth_token=abc&oauth_token_secret=def")
    );
}

#[test]
fn non_gzip_body_is_malformed() {
    assert_eq!(
        decode_response_body(b"plain text").err(),
        Some(OauthError::MalformedResponse)
    );
}

#[test]
fn locales_map_to_supported_set() {
    assert_eq!(match_locale("zh-TW"), "zh-TW");
    assert_eq!(match_locale("zh-CN"), "zh-CN");
    assert_eq!(match_locale("en-US"), "en");
    assert_eq!(match_locale(""), "en");
}
