//! Percent-encoding per RFC 3986: every byte outside the unreserved set
//! `A-Z a-z 0-9 - . _ ~` becomes `%` followed by two upper-case hex digits.

use vstd::prelude::*;
use crate::bytes::contains_byte;

verus! {

/// The unreserved bytes of RFC 3986, which are never escaped.
pub open spec fn is_unreserved(b: u8) -> bool {
    (0x41 <= b <= 0x5a)  // A-Z
    || (0x61 <= b <= 0x7a)  // a-z
    || (0x30 <= b <= 0x39)  // 0-9
    || b == 0x2d  // -
    || b == 0x2e  // .
    || b == 0x5f  // _
    || b == 0x7e  // ~
}

/// Upper-case hex digit for a value below 16.
pub open spec fn hex_upper(n: u8) -> u8
    recommends
        n < 16,
{
    if n < 10 {
        (0x30 + n) as u8
    } else {
        (0x41 + n - 10) as u8
    }
}

pub open spec fn is_hex_upper(b: u8) -> bool {
    (0x30 <= b <= 0x39) || (0x41 <= b <= 0x46)
}

pub open spec fn hex_val(b: u8) -> u8
    recommends
        is_hex_upper(b),
{
    if b <= 0x39 {
        (b - 0x30) as u8
    } else {
        (b - 0x41 + 10) as u8
    }
}

/// What one byte encodes to: itself when unreserved, `%XX` otherwise.
pub open spec fn encode_byte(b: u8) -> Seq<u8> {
    if is_unreserved(b) {
        seq![b]
    } else {
        seq![0x25, hex_upper(b / 16), hex_upper(b % 16)]
    }
}

/// The percent-encoding of a whole byte string.
pub open spec fn percent_encoded(s: Seq<u8>) -> Seq<u8>
    decreases s.len(),
{
    if s.len() == 0 {
        Seq::empty()
    } else {
        encode_byte(s[0]) + percent_encoded(s.drop_first())
    }
}

/// Percent-decoding; `None` when a `%` is not followed by two upper-case
/// hex digits.
pub open spec fn percent_decoded(s: Seq<u8>) -> Option<Seq<u8>>
    decreases s.len(),
{
    if s.len() == 0 {
        Some(Seq::empty())
    } else if s[0] == 0x25 {
        if s.len() >= 3 && is_hex_upper(s[1]) && is_hex_upper(s[2]) {
            match percent_decoded(s.skip(3)) {
                Some(r) => Some(seq![(hex_val(s[1]) * 16 + hex_val(s[2])) as u8] + r),
                None => None,
            }
        } else {
            None
        }
    } else {
        match percent_decoded(s.drop_first()) {
            Some(r) => Some(seq![s[0]] + r),
            None => None,
        }
    }
}

fn is_unreserved_exec(b: u8) -> (r: bool)
    ensures
        r == is_unreserved(b),
{
    (0x41 <= b && b <= 0x5a) || (0x61 <= b && b <= 0x7a) || (0x30 <= b && b <= 0x39)
        || b == 0x2d || b == 0x2e || b == 0x5f || b == 0x7e
}

fn hex_upper_exec(n: u8) -> (r: u8)
    requires
        n < 16,
    ensures
        r == hex_upper(n),
{
    if n < 10 {
        0x30 + n
    } else {
        0x41 + n - 10
    }
}

/// Percent-encode a byte string.
pub fn percent_encode(s: &[u8]) -> (r: Vec<u8>)
    ensures
        r@ == percent_encoded(s@),
{
    let mut r: Vec<u8> = Vec::new();
    let n = s.len();
    proof {
        assert(s@.skip(0) =~= s@);
    }
    let mut i: usize = 0;
    while i < n
        invariant
            n == s@.len(),
            i <= n,
            percent_encoded(s@) == r@ + percent_encoded(s@.skip(i as int)),
        decreases n - i,
    {
        let b = s[i];
        proof {
            assert(s@.skip(i as int)[0] == s@[i as int]);
            assert(s@.skip(i as int).drop_first() =~= s@.skip(i as int + 1));
        }
        if is_unreserved_exec(b) {
            r.push(b);
        } else {
            r.push(0x25);
            r.push(hex_upper_exec(b / 16));
            r.push(hex_upper_exec(b % 16));
        }
        proof {
            assert(percent_encoded(s@) =~= r@ + percent_encoded(s@.skip(i as int + 1)));
        }
        i += 1;
    }
    proof {
        assert(percent_encoded(s@.skip(n as int)) =~= Seq::<u8>::empty());
        assert(r@ =~= percent_encoded(s@));
    }
    r
}

/// Every byte of an encoding is unreserved, a `%`, or an upper-case hex
/// digit.
pub proof fn lemma_percent_encoded_bytes(s: Seq<u8>)
    ensures
        forall|i: int|
            0 <= i < percent_encoded(s).len() ==> is_unreserved(
                #[trigger] percent_encoded(s)[i],
            ) || percent_encoded(s)[i] == 0x25 || is_hex_upper(percent_encoded(s)[i]),
    decreases s.len(),
{
    if s.len() > 0 {
        lemma_percent_encoded_bytes(s.drop_first());
        let e = encode_byte(s[0]);
        let rest = percent_encoded(s.drop_first());
        assert forall|i: int|
            0 <= i < percent_encoded(s).len() implies is_unreserved(
            #[trigger] percent_encoded(s)[i],
        ) || percent_encoded(s)[i] == 0x25 || is_hex_upper(percent_encoded(s)[i]) by {
            if i < e.len() {
                assert(percent_encoded(s)[i] == e[i]);
            } else {
                assert(percent_encoded(s)[i] == rest[i - e.len()]);
            }
        }
    }
}

/// A byte that is reserved and not part of any escape never occurs in an
/// encoding; in particular `&`, `=`, `+` and the space never do.
pub proof fn lemma_percent_encoded_excludes(s: Seq<u8>, b: u8)
    requires
        !is_unreserved(b),
        b != 0x25,
        !is_hex_upper(b),
    ensures
        !contains_byte(percent_encoded(s), b),
{
    lemma_percent_encoded_bytes(s);
}

proof fn lemma_hex_val_upper(n: u8)
    requires
        n < 16,
    ensures
        is_hex_upper(hex_upper(n)),
        hex_val(hex_upper(n)) == n,
        !is_unreserved(0x25 as u8),
{
}

/// Decoding inverts encoding exactly.
pub proof fn lemma_percent_round_trip(s: Seq<u8>)
    ensures
        percent_decoded(percent_encoded(s)) == Some(s),
    decreases s.len(),
{
    if s.len() > 0 {
        lemma_percent_round_trip(s.drop_first());
        let b = s[0];
        let e = percent_encoded(s);
        let rest = percent_encoded(s.drop_first());
        if is_unreserved(b) {
            assert(e[0] == b);
            assert(e.drop_first() =~= rest);
            assert(seq![b] + s.drop_first() =~= s);
        } else {
            assert(b / 16 < 16 && b % 16 < 16) by (nonlinear_arith);
            lemma_hex_val_upper(b / 16);
            lemma_hex_val_upper(b % 16);
            assert(e[0] == 0x25 && e[1] == hex_upper(b / 16) && e[2] == hex_upper(b % 16));
            assert(e.skip(3) =~= rest);
            assert((b / 16) * 16 + b % 16 == b) by (nonlinear_arith);
            assert(seq![b] + s.drop_first() =~= s);
        }
    }
}

} // verus!
