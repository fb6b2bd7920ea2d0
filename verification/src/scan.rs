//! Structured extraction from untrusted text: the author id field of a
//! lookup response, the first tweet URL of a chat message, and the token
//! pair of a persisted credential message.  Absence is always an explicit
//! `None`, never inferred from an unchanged string.

use vstd::prelude::*;
use vstd::string::{is_ascii, StrSliceExecFns, StringSliceAdditionalSpecFns, StringExecFns};
use crate::bytes::{bytes_eq, split_on};
use crate::token::split_bytes;

verus! {

broadcast use vstd::string::group_string_axioms;

// ---------------------------------------------------------------------------
// Substring search
// ---------------------------------------------------------------------------

/// `pat` occurs in `s` at position `i`.
pub open spec fn match_at(s: Seq<u8>, pat: Seq<u8>, i: int) -> bool {
    0 <= i && i + pat.len() <= s.len() && s.subrange(i, i + pat.len() as int) == pat
}

pub open spec fn contains_seq(s: Seq<u8>, pat: Seq<u8>) -> bool {
    exists|i: int| match_at(s, pat, i)
}

pub open spec fn is_first_match(s: Seq<u8>, pat: Seq<u8>, i: int) -> bool {
    match_at(s, pat, i) && forall|j: int| 0 <= j < i ==> !match_at(s, pat, j)
}

/// Does `pat` stand at position `i`?
fn check_at(s: &[u8], i: usize, pat: &[u8]) -> (r: bool)
    requires
        i <= s@.len(),
    ensures
        r == match_at(s@, pat@, i as int),
{
    if pat.len() > s.len() - i {
        return false;
    }
    bytes_eq(vstd::slice::slice_subrange(s, i, i + pat.len()), pat)
}

/// The position of the first occurrence of `pat` in `s`.
pub fn find_first(s: &[u8], pat: &[u8]) -> (r: Option<usize>)
    ensures
        match r {
            Some(i) => is_first_match(s@, pat@, i as int),
            None => !contains_seq(s@, pat@),
        },
{
    let n = s.len();
    let mut i: usize = 0;
    loop
        invariant
            n == s@.len(),
            i <= n,
            forall|j: int| 0 <= j < i ==> !match_at(s@, pat@, j),
        ensures
            forall|j: int| 0 <= j <= n ==> !match_at(s@, pat@, j),
        decreases n - i,
    {
        if check_at(s, i, pat) {
            return Some(i);
        }
        if i == n {
            break;
        }
        i += 1;
    }
    proof {
        assert forall|j: int| !match_at(s@, pat@, j) by {
            if j > n {
                assert(!(j + pat@.len() <= s@.len()));
            }
        }
    }
    None
}

// ---------------------------------------------------------------------------
// Digit and name runs
// ---------------------------------------------------------------------------

pub open spec fn is_digit(b: u8) -> bool {
    0x30 <= b <= 0x39
}

/// The maximal run of decimal digits starting at `j` (possibly empty).
pub open spec fn digit_run(s: Seq<u8>, j: int) -> Seq<u8>
    decreases s.len() - j,
{
    if 0 <= j < s.len() && is_digit(s[j]) {
        seq![s[j]] + digit_run(s, j + 1)
    } else {
        Seq::empty()
    }
}

fn read_digit_run(s: &[u8], start: usize) -> (r: Vec<u8>)
    requires
        start <= s@.len(),
    ensures
        r@ == digit_run(s@, start as int),
{
    let mut r: Vec<u8> = Vec::new();
    let n = s.len();
    let mut k = start;
    while k < n && 0x30 <= s[k] && s[k] <= 0x39
        invariant
            n == s@.len(),
            start <= k <= n,
            digit_run(s@, start as int) == r@ + digit_run(s@, k as int),
        decreases n - k,
    {
        r.push(s[k]);
        proof {
            assert(digit_run(s@, start as int) =~= r@ + digit_run(s@, k as int + 1));
        }
        k += 1;
    }
    proof {
        assert(digit_run(s@, k as int) =~= Seq::<u8>::empty());
        assert(r@ =~= digit_run(s@, start as int));
    }
    r
}

/// A byte allowed in an account name.
pub open spec fn is_name_byte(b: u8) -> bool {
    (0x41 <= b <= 0x5a) || (0x61 <= b <= 0x7a) || (0x30 <= b <= 0x39) || b == 0x5f
}

/// The length of the maximal run of name bytes starting at `j`.
pub open spec fn name_run_len(s: Seq<u8>, j: int) -> nat
    decreases s.len() - j,
{
    if 0 <= j < s.len() && is_name_byte(s[j]) {
        1 + name_run_len(s, j + 1)
    } else {
        0
    }
}

fn read_name_run(s: &[u8], start: usize) -> (r: usize)
    requires
        start <= s@.len(),
    ensures
        r == name_run_len(s@, start as int),
        start + r <= s@.len(),
{
    let n = s.len();
    let mut k = start;
    while k < n && ((0x41 <= s[k] && s[k] <= 0x5a) || (0x61 <= s[k] && s[k] <= 0x7a) || (0x30
        <= s[k] && s[k] <= 0x39) || s[k] == 0x5f)
        invariant
            n == s@.len(),
            start <= k <= n,
            name_run_len(s@, start as int) == (k - start) + name_run_len(s@, k as int),
        decreases n - k,
    {
        k += 1;
    }
    proof {
        assert(name_run_len(s@, k as int) == 0);
    }
    k - start
}

// ---------------------------------------------------------------------------
// The author id of a lookup response
// ---------------------------------------------------------------------------

/// The field that precedes a tweet author's numeric id.
pub open spec fn author_id_marker() -> Seq<u8> {
    ("\"user\":{\"id\":").spec_bytes()
}

/// The digits standing after the first occurrence of the id field, when
/// at least one digit follows it.
pub fn find_author_id(body: &[u8]) -> (r: Option<Vec<u8>>)
    ensures
        match r {
            Some(d) => d@.len() > 0 && exists|i: int|
                (#[trigger] is_first_match(body@, author_id_marker(), i)) && d@ == digit_run(
                    body@,
                    i + author_id_marker().len(),
                ),
            None => forall|i: int|
                (#[trigger] is_first_match(body@, author_id_marker(), i)) ==> digit_run(
                    body@,
                    i + author_id_marker().len(),
                ) == Seq::<u8>::empty(),
        },
{
    let n = body.len();
    let marker = "\"user\":{\"id\":".as_bytes_vec();
    let at = match find_first(body, marker.as_slice()) {
        Some(i) => i,
        None => {
            proof {
                assert forall|i: int|
                    (#[trigger] is_first_match(body@, author_id_marker(), i)) implies digit_run(
                    body@,
                    i + author_id_marker().len(),
                ) == Seq::<u8>::empty() by {
                    assert(contains_seq(body@, author_id_marker()));
                }
            }
            return None;
        },
    };
    let digits = read_digit_run(body, at + marker.len());
    if digits.len() == 0 {
        proof {
            assert forall|i: int|
                (#[trigger] is_first_match(body@, author_id_marker(), i)) implies digit_run(
                body@,
                i + author_id_marker().len(),
            ) == Seq::<u8>::empty() by {
                lemma_first_match_unique(body@, author_id_marker(), at as int, i);
            }
        }
        None
    } else {
        proof {
            assert(is_first_match(body@, author_id_marker(), at as int) && digits@ == digit_run(
                body@,
                at as int + author_id_marker().len(),
            ));
        }
        Some(digits)
    }
}

proof fn lemma_first_match_unique(s: Seq<u8>, pat: Seq<u8>, a: int, b: int)
    requires
        is_first_match(s, pat, a),
        is_first_match(s, pat, b),
    ensures
        a == b,
{
}

/// The id field is present with at least one digit after it.
pub open spec fn author_id_found(body: Seq<u8>) -> bool {
    exists|i: int|
        (#[trigger] is_first_match(body, author_id_marker(), i)) && digit_run(
            body,
            i + author_id_marker().len(),
        ) != Seq::<u8>::empty()
}

/// Best-effort extraction as the callers of the lookup response use it:
/// the author id digits when the field is present with digits after it,
/// the body unchanged otherwise.  Callers must detect the no-match case
/// explicitly; a non-empty result alone is no success.
pub fn extract_author_id(body: &[u8]) -> (r: Vec<u8>)
    ensures
        author_id_found(body@) ==> exists|i: int|
            (#[trigger] is_first_match(body@, author_id_marker(), i)) && r@ == digit_run(
                body@,
                i + author_id_marker().len(),
            ),
        !author_id_found(body@) ==> r@ == body@,
{
    match find_author_id(body) {
        Some(d) => {
            proof {
                let i = choose|i: int|
                    (#[trigger] is_first_match(body@, author_id_marker(), i)) && d@ == digit_run(
                        body@,
                        i + author_id_marker().len(),
                    );
                assert(author_id_found(body@));
            }
            d
        },
        None => {
            proof {
                if author_id_found(body@) {
                    let i = choose|i: int|
                        (#[trigger] is_first_match(body@, author_id_marker(), i)) && digit_run(
                            body@,
                            i + author_id_marker().len(),
                        ) != Seq::<u8>::empty();
                }
            }
            vstd::slice::slice_to_vec(body)
        },
    }
}

// ---------------------------------------------------------------------------
// The first tweet URL of a message
// ---------------------------------------------------------------------------

/// Position after a URL scheme standing at `i`.
pub open spec fn after_scheme(s: Seq<u8>, i: int) -> Option<int> {
    if match_at(s, ("https://").spec_bytes(), i) {
        Some(i + ("https://").spec_bytes().len() as int)
    } else if match_at(s, ("http://").spec_bytes(), i) {
        Some(i + ("http://").spec_bytes().len() as int)
    } else {
        None
    }
}

/// Position after an optional `www.`.
pub open spec fn skip_www(s: Seq<u8>, i: int) -> int {
    if match_at(s, ("www.").spec_bytes(), i) {
        i + ("www.").spec_bytes().len() as int
    } else {
        i
    }
}

/// Position after a recognized host and its slash.
pub open spec fn after_host(s: Seq<u8>, i: int) -> Option<int> {
    if match_at(s, ("twitter.com/").spec_bytes(), i) {
        Some(i + ("twitter.com/").spec_bytes().len() as int)
    } else if match_at(s, ("fxtwitter.com/").spec_bytes(), i) {
        Some(i + ("fxtwitter.com/").spec_bytes().len() as int)
    } else if match_at(s, ("vxtwitter.com/").spec_bytes(), i) {
        Some(i + ("vxtwitter.com/").spec_bytes().len() as int)
    } else {
        None
    }
}

/// The tweet id of a status URL standing at `i`: scheme, optional `www.`,
/// a recognized host, an account name of one to fifteen name bytes, then
/// `/status/` and the (possibly empty) digit run of the id.
pub open spec fn tweet_id_at(s: Seq<u8>, i: int) -> Option<Seq<u8>> {
    match after_scheme(s, i) {
        Some(a) => {
            let b = skip_www(s, a);
            match after_host(s, b) {
                Some(c) => {
                    let l = name_run_len(s, c) as int;
                    if 1 <= l <= 15 && match_at(s, ("/status/").spec_bytes(), c + l) {
                        Some(digit_run(s, c + l + ("/status/").spec_bytes().len() as int))
                    } else {
                        None
                    }
                },
                None => None,
            }
        },
        None => None,
    }
}

/// The id of the status URL standing at `i`, as `tweet_id_at` gives it.
fn try_tweet_at(s: &[u8], i: usize) -> (r: Option<Vec<u8>>)
    requires
        i <= s@.len(),
    ensures
        match r {
            Some(d) => tweet_id_at(s@, i as int) == Some(d@),
            None => tweet_id_at(s@, i as int) is None,
        },
{
    let n = s.len();
    let https = "https://".as_bytes_vec();
    let http = "http://".as_bytes_vec();
    let a: usize = if check_at(s, i, https.as_slice()) {
        i + https.len()
    } else if check_at(s, i, http.as_slice()) {
        i + http.len()
    } else {
        return None;
    };
    let www = "www.".as_bytes_vec();
    let b: usize = if check_at(s, a, www.as_slice()) {
        a + www.len()
    } else {
        a
    };
    let twitter = "twitter.com/".as_bytes_vec();
    let fxtwitter = "fxtwitter.com/".as_bytes_vec();
    let vxtwitter = "vxtwitter.com/".as_bytes_vec();
    let c: usize = if check_at(s, b, twitter.as_slice()) {
        b + twitter.len()
    } else if check_at(s, b, fxtwitter.as_slice()) {
        b + fxtwitter.len()
    } else if check_at(s, b, vxtwitter.as_slice()) {
        b + vxtwitter.len()
    } else {
        return None;
    };
    let l = read_name_run(s, c);
    if l < 1 || l > 15 {
        return None;
    }
    let status = "/status/".as_bytes_vec();
    if !check_at(s, c + l, status.as_slice()) {
        return None;
    }
    Some(read_digit_run(s, c + l + status.len()))
}

/// The id of the first status URL a message holds, scanning left to
/// right; `None` when no position carries one.  An id can be empty when
/// the URL ends at `/status/`.
pub fn get_first_tweet_id(message: &[u8]) -> (r: Option<Vec<u8>>)
    ensures
        match r {
            Some(d) => exists|i: int|
                (#[trigger] tweet_id_at(message@, i)) == Some(d@) && (forall|j: int|
                    0 <= j < i ==> tweet_id_at(message@, j) is None),
            None => forall|i: int| (#[trigger] tweet_id_at(message@, i)) is None,
        },
{
    let n = message.len();
    let mut i: usize = 0;
    loop
        invariant
            n == message@.len(),
            i <= n,
            forall|j: int| 0 <= j < i ==> (#[trigger] tweet_id_at(message@, j)) is None,
        ensures
            forall|j: int| 0 <= j <= n ==> (#[trigger] tweet_id_at(message@, j)) is None,
        decreases n - i,
    {
        match try_tweet_at(message, i) {
            Some(d) => {
                return Some(d);
            },
            None => {},
        }
        if i == n {
            break;
        }
        i += 1;
    }
    proof {
        assert forall|i: int| (#[trigger] tweet_id_at(message@, i)) is None by {
            if i < 0 || i > n {
                assert(!match_at(message@, ("https://").spec_bytes(), i));
                assert(!match_at(message@, ("http://").spec_bytes(), i));
            }
        }
    }
    None
}

// ---------------------------------------------------------------------------
// Persisted credential messages
// ---------------------------------------------------------------------------

/// `s` with every occurrence of `b` removed.
pub open spec fn strip_byte(s: Seq<u8>, b: u8) -> Seq<u8>
    decreases s.len(),
{
    if s.len() == 0 {
        Seq::empty()
    } else if s[0] == b {
        strip_byte(s.drop_first(), b)
    } else {
        seq![s[0]] + strip_byte(s.drop_first(), b)
    }
}

/// `s` with every non-overlapping `bb` pair removed, left to right.
pub open spec fn strip_pairs(s: Seq<u8>, b: u8) -> Seq<u8>
    decreases s.len(),
{
    if s.len() >= 2 && s[0] == b && s[1] == b {
        strip_pairs(s.skip(2), b)
    } else if s.len() > 0 {
        seq![s[0]] + strip_pairs(s.drop_first(), b)
    } else {
        Seq::empty()
    }
}

fn remove_byte(s: &[u8], b: u8) -> (r: Vec<u8>)
    ensures
        r@ == strip_byte(s@, b),
{
    let mut r: Vec<u8> = Vec::new();
    let n = s.len();
    let mut i: usize = 0;
    proof {
        assert(s@.skip(0) =~= s@);
    }
    while i < n
        invariant
            n == s@.len(),
            i <= n,
            strip_byte(s@, b) == r@ + strip_byte(s@.skip(i as int), b),
        decreases n - i,
    {
        proof {
            assert(s@.skip(i as int)[0] == s@[i as int]);
            assert(s@.skip(i as int).drop_first() =~= s@.skip(i as int + 1));
        }
        if s[i] != b {
            r.push(s[i]);
        }
        proof {
            assert(strip_byte(s@, b) =~= r@ + strip_byte(s@.skip(i as int + 1), b));
        }
        i += 1;
    }
    proof {
        assert(strip_byte(s@.skip(n as int), b) =~= Seq::<u8>::empty());
        assert(r@ =~= strip_byte(s@, b));
    }
    r
}

fn remove_pairs(s: &[u8], b: u8) -> (r: Vec<u8>)
    ensures
        r@ == strip_pairs(s@, b),
{
    let mut r: Vec<u8> = Vec::new();
    let n = s.len();
    let mut i: usize = 0;
    proof {
        assert(s@.skip(0) =~= s@);
    }
    while i < n
        invariant
            n == s@.len(),
            i <= n,
            strip_pairs(s@, b) == r@ + strip_pairs(s@.skip(i as int), b),
        decreases n - i,
    {
        proof {
            assert(s@.skip(i as int)[0] == s@[i as int]);
            if i + 1 < n {
                assert(s@.skip(i as int)[1] == s@[i as int + 1]);
            }
            assert(s@.skip(i as int).drop_first() =~= s@.skip(i as int + 1));
        }
        if i + 1 < n && s[i] == b && s[i + 1] == b {
            proof {
                assert(s@.skip(i as int).skip(2) =~= s@.skip(i as int + 2));
                assert(strip_pairs(s@, b) =~= r@ + strip_pairs(s@.skip(i as int + 2), b));
            }
            i += 2;
        } else {
            r.push(s[i]);
            proof {
                assert(strip_pairs(s@, b) =~= r@ + strip_pairs(s@.skip(i as int + 1), b));
            }
            i += 1;
        }
    }
    proof {
        assert(strip_pairs(s@.skip(i as int), b) =~= Seq::<u8>::empty());
        assert(r@ =~= strip_pairs(s@, b));
    }
    r
}

/// A persisted credential line with markup removed: backticks dropped,
/// then spoiler pairs `||` dropped.
pub open spec fn cleaned_line(s: Seq<u8>) -> Seq<u8> {
    strip_pairs(strip_byte(s, 0x60), 0x7c)
}

/// The marker line of a persisted credential message.
pub open spec fn credential_marker() -> Seq<u8> {
    ("Twitter User Access Token").spec_bytes()
}

/// The token pair a persisted credential message holds: the marker must
/// occur, the message must be exactly three lines, and the second and
/// third lines hold the pair under their markup.
pub open spec fn stored_credentials_of(content: Seq<u8>) -> Option<(Seq<u8>, Seq<u8>)> {
    if contains_seq(content, credential_marker()) && split_on(content, 0x0a).len() == 3 {
        Some(
            (cleaned_line(split_on(content, 0x0a)[1]), cleaned_line(split_on(content, 0x0a)[2])),
        )
    } else {
        None
    }
}

/// Read a persisted credential message.
pub fn parse_stored_credentials(content: &[u8]) -> (r: Option<(Vec<u8>, Vec<u8>)>)
    ensures
        match r {
            Some(p) => stored_credentials_of(content@) == Some((p.0@, p.1@)),
            None => stored_credentials_of(content@) is None,
        },
{
    let marker = "Twitter User Access Token".as_bytes_vec();
    if find_first(content, marker.as_slice()).is_none() {
        return None;
    }
    let lines = split_bytes(content, 0x0a);
    if lines.len() != 3 {
        proof {
            assert(lines@.map_values(|v: Vec<u8>| v@).len() == split_on(content@, 0x0a).len());
        }
        return None;
    }
    proof {
        assert(lines@.map_values(|v: Vec<u8>| v@)[1] == lines@[1]@);
        assert(lines@.map_values(|v: Vec<u8>| v@)[2] == lines@[2]@);
    }
    let t1 = remove_byte(lines[1].as_slice(), 0x60);
    let token = remove_pairs(t1.as_slice(), 0x7c);
    let t2 = remove_byte(lines[2].as_slice(), 0x60);
    let secret = remove_pairs(t2.as_slice(), 0x7c);
    Some((token, secret))
}

// ---------------------------------------------------------------------------
// Locales
// ---------------------------------------------------------------------------

/// The display locale for a chat locale: the two Chinese locales map to
/// themselves and everything else falls back to English.
pub fn match_locale(discord_locale: &str) -> (r: String)
    ensures
        discord_locale.spec_bytes() == ("zh-TW").spec_bytes() ==> r@ == ("zh-TW")@,
        discord_locale.spec_bytes() == ("zh-CN").spec_bytes() ==> r@ == ("zh-CN")@,
        (discord_locale.spec_bytes() != ("zh-TW").spec_bytes() && discord_locale.spec_bytes() != (
        "zh-CN").spec_bytes()) ==> r@ == ("en")@,
{
    proof {
        reveal_strlit("zh-TW");
        reveal_strlit("zh-CN");
        assert(is_ascii("zh-TW")) by {
            assert forall|i: int|
                0 <= i < ("zh-TW")@.len() implies '\0' <= #[trigger] ("zh-TW")@[i]
                <= '\u{7f}' by {}
        }
        assert(is_ascii("zh-CN")) by {
            assert forall|i: int|
                0 <= i < ("zh-CN")@.len() implies '\0' <= #[trigger] ("zh-CN")@[i]
                <= '\u{7f}' by {}
        }
        assert(("zh-TW")@[3] == 'T' && ("zh-CN")@[3] == 'C');
        assert(("zh-TW").spec_bytes()[3] != ("zh-CN").spec_bytes()[3]);
    }
    if bytes_eq(discord_locale.as_bytes(), "zh-TW".as_bytes()) {
        String::from_str("zh-TW")
    } else if bytes_eq(discord_locale.as_bytes(), "zh-CN".as_bytes()) {
        String::from_str("zh-CN")
    } else {
        String::from_str("en")
    }
}

} // verus!
