//! Decoding of `key=value&key=value` token-exchange response bodies.

use vstd::prelude::*;
use crate::bytes::{contains_byte, lemma_split_on_step, lemma_split_on_whole, split_on};
use crate::errors::OauthError;

verus! {

/// Views of a vector of byte-string pairs.
pub open spec fn pair_views(ps: Seq<(Vec<u8>, Vec<u8>)>) -> Seq<(Seq<u8>, Seq<u8>)> {
    ps.map_values(|p: (Vec<u8>, Vec<u8>)| (p.0@, p.1@))
}

/// The pairs a `key=value&...` body denotes, in order; `None` when some
/// `&`-segment does not hold exactly one `=`.
pub open spec fn parse_pairs(s: Seq<u8>) -> Option<Seq<(Seq<u8>, Seq<u8>)>> {
    let parts = split_on(s, 0x26);
    if forall|i: int| 0 <= i < parts.len() ==> split_on(#[trigger] parts[i], 0x3d).len() == 2 {
        Some(
            Seq::new(
                parts.len(),
                |i: int| (split_on(parts[i], 0x3d)[0], split_on(parts[i], 0x3d)[1]),
            ),
        )
    } else {
        None
    }
}

/// The value of the last pair holding `key`, as a mapping built by
/// insertion would return it.
pub open spec fn lookup_pair(ps: Seq<(Seq<u8>, Seq<u8>)>, key: Seq<u8>) -> Option<Seq<u8>>
    decreases ps.len(),
{
    if ps.len() == 0 {
        None
    } else if ps.last().0 == key {
        Some(ps.last().1)
    } else {
        lookup_pair(ps.drop_last(), key)
    }
}

/// Split a byte string on every occurrence of `sep`.
pub fn split_bytes(s: &[u8], sep: u8) -> (r: Vec<Vec<u8>>)
    ensures
        r@.map_values(|v: Vec<u8>| v@) == split_on(s@, sep),
{
    let mut r: Vec<Vec<u8>> = Vec::new();
    let mut cur: Vec<u8> = Vec::new();
    let n = s.len();
    let mut i: usize = 0;
    proof {
        assert(r@.map_values(|v: Vec<u8>| v@) =~= Seq::<Seq<u8>>::empty());
        assert(s@.skip(0) =~= s@);
        assert(cur@ =~= s@.subrange(0, 0));
    }
    while i < n
        invariant
            n == s@.len(),
            i <= n,
            cur@.len() <= i,
            cur@ == s@.subrange(i - cur@.len(), i as int),
            !contains_byte(cur@, sep),
            split_on(s@, sep) == r@.map_values(|v: Vec<u8>| v@) + split_on(
                s@.skip(i - cur@.len()),
                sep,
            ),
        decreases n - i,
    {
        let b = s[i];
        if b == sep {
            let ghost start = i - cur@.len();
            proof {
                assert(s@.skip(start) =~= cur@ + seq![sep] + s@.skip(i as int + 1));
                lemma_split_on_step(cur@, sep, s@.skip(i as int + 1));
            }
            r.push(cur);
            cur = Vec::new();
            proof {
                assert(r@.map_values(|v: Vec<u8>| v@) =~= r@.drop_last().map_values(
                    |v: Vec<u8>| v@,
                ).push(r@.last()@));
                assert(split_on(s@, sep) =~= r@.map_values(|v: Vec<u8>| v@) + split_on(
                    s@.skip(i as int + 1),
                    sep,
                ));
                assert(cur@ =~= s@.subrange(i as int + 1, i as int + 1));
            }
        } else {
            cur.push(b);
            proof {
                assert(cur@ =~= s@.subrange(i as int + 1 - cur@.len(), i as int + 1));
                assert forall|j: int| 0 <= j < cur@.len() implies cur@[j] != sep by {}
            }
        }
        i += 1;
    }
    let ghost start = n - cur@.len();
    proof {
        assert(s@.skip(start) =~= cur@);
        lemma_split_on_whole(cur@, sep);
    }
    r.push(cur);
    proof {
        assert(r@.map_values(|v: Vec<u8>| v@) =~= r@.drop_last().map_values(
            |v: Vec<u8>| v@,
        ).push(r@.last()@));
        assert(r@.map_values(|v: Vec<u8>| v@) =~= split_on(s@, sep));
    }
    r
}

/// Split a raw token-exchange body into its key/value pairs.  Fails with
/// `MalformedResponse` exactly when some `&`-segment of the body does not
/// hold exactly one `=`.
pub fn decode_token(raw: &[u8]) -> (r: Result<Vec<(Vec<u8>, Vec<u8>)>, OauthError>)
    ensures
        match r {
            Ok(pairs) => parse_pairs(raw@) == Some(pair_views(pairs@)),
            Err(e) => e == OauthError::MalformedResponse && parse_pairs(raw@) is None,
        },
{
    let ghost parts_spec = split_on(raw@, 0x26);
    let parts = split_bytes(raw, 0x26);
    let mut out: Vec<(Vec<u8>, Vec<u8>)> = Vec::new();
    let n = parts.len();
    let mut i: usize = 0;
    while i < n
        invariant
            n == parts@.len(),
            i <= n,
            parts_spec == parts@.map_values(|v: Vec<u8>| v@),
            parts_spec == split_on(raw@, 0x26),
            out@.len() == i,
            forall|j: int| 0 <= j < i ==> split_on(#[trigger] parts_spec[j], 0x3d).len() == 2,
            forall|j: int|
                0 <= j < i ==> (#[trigger] pair_views(out@)[j]) == (
                split_on(parts_spec[j], 0x3d)[0],
                split_on(parts_spec[j], 0x3d)[1],
                ),
        decreases n - i,
    {
        proof {
            assert(parts@[i as int]@ == parts_spec[i as int]);
        }
        let mut kv = split_bytes(parts[i].as_slice(), 0x3d);
        if kv.len() != 2 {
            proof {
                assert(split_on(parts_spec[i as int], 0x3d).len() != 2);
            }
            return Err(OauthError::MalformedResponse);
        }
        let v = kv.pop().unwrap();
        let k = kv.pop().unwrap();
        proof {
            assert(k@ == split_on(parts_spec[i as int], 0x3d)[0]);
            assert(v@ == split_on(parts_spec[i as int], 0x3d)[1]);
        }
        let ghost prev = out@;
        out.push((k, v));
        proof {
            assert(pair_views(out@) =~= pair_views(prev).push((k@, v@)));
            assert(forall|j: int|
                0 <= j < i ==> #[trigger] pair_views(out@)[j] == pair_views(prev)[j]);
        }
        i += 1;
    }
    proof {
        let result = Seq::new(
            parts_spec.len(),
            |j: int| (split_on(parts_spec[j], 0x3d)[0], split_on(parts_spec[j], 0x3d)[1]),
        );
        assert(pair_views(out@) =~= result);
    }
    Ok(out)
}

/// Look `key` up among decoded pairs; the last occurrence wins, as it does
/// in a mapping filled by insertion.
pub fn find_value(pairs: &Vec<(Vec<u8>, Vec<u8>)>, key: &[u8]) -> (r: Option<Vec<u8>>)
    ensures
        match r {
            Some(v) => lookup_pair(pair_views(pairs@), key@) == Some(v@),
            None => lookup_pair(pair_views(pairs@), key@) is None,
        },
{
    let ghost ps = pair_views(pairs@);
    let n = pairs.len();
    let mut i: usize = n;
    proof {
        assert(ps.take(n as int) =~= ps);
    }
    while i > 0
        invariant
            n == pairs@.len(),
            i <= n,
            ps == pair_views(pairs@),
            lookup_pair(ps, key@) == lookup_pair(ps.take(i as int), key@),
        decreases i,
    {
        i -= 1;
        proof {
            assert(ps.take(i as int + 1).last() == ps[i as int]);
            assert(ps.take(i as int + 1).drop_last() =~= ps.take(i as int));
            assert(ps[i as int] == (pairs@[i as int].0@, pairs@[i as int].1@));
        }
        if crate::bytes::bytes_eq(pairs[i].0.as_slice(), key) {
            let mut copy: Vec<u8> = Vec::new();
            copy.extend_from_slice(pairs[i].1.as_slice());
            proof {
                assert(copy@ =~= ps[i as int].1);
            }
            return Some(copy);
        }
    }
    proof {
        assert(ps.take(0) =~= Seq::<(Seq<u8>, Seq<u8>)>::empty());
    }
    None
}

} // verus!
