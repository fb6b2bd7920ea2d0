//! The OAuth parameter set: an ordered mapping with unique keys, kept
//! lexicographically sorted so that normalization is canonical.

use vstd::prelude::*;
use crate::bytes::{bytes_eq, bytes_lt, join_tail, join_with, lemma_join_with_tail, lemma_lex_lt_asymm, lemma_lex_lt_trans, lemma_lex_lt_trichotomy, lex_lt};
use crate::bytes::{contains_byte, lemma_split_join, lemma_split_on_step, lemma_split_on_whole, split_on};
use crate::percent::{lemma_percent_encoded_excludes, lemma_percent_round_trip, percent_decoded, percent_encode, percent_encoded};
use crate::token::parse_pairs;

verus! {

/// One `key=value` member of the normalized string, both sides
/// percent-encoded.
pub open spec fn pair_str(p: (Seq<u8>, Seq<u8>)) -> Seq<u8> {
    percent_encoded(p.0) + seq![0x3du8] + percent_encoded(p.1)
}

pub open spec fn encoded_parts(ps: Seq<(Seq<u8>, Seq<u8>)>) -> Seq<Seq<u8>> {
    Seq::new(ps.len(), |i: int| pair_str(ps[i]))
}

/// The normalized parameter string: `key=value` pairs joined with `&`, in
/// the order the sequence holds them.
pub open spec fn normalized_of(ps: Seq<(Seq<u8>, Seq<u8>)>) -> Seq<u8> {
    join_with(encoded_parts(ps), seq![0x26u8])
}

/// Keys strictly ascending in lexicographic order (hence unique).
pub open spec fn sorted_unique(ps: Seq<(Seq<u8>, Seq<u8>)>) -> bool {
    forall|i: int, j: int| 0 <= i < j < ps.len() ==> lex_lt(ps[i].0, ps[j].0)
}

/// Sorted insertion with replacement of an equal key.
pub open spec fn spec_insert(ps: Seq<(Seq<u8>, Seq<u8>)>, k: Seq<u8>, v: Seq<u8>) -> Seq<
    (Seq<u8>, Seq<u8>),
>
    decreases ps.len(),
{
    if ps.len() == 0 {
        seq![(k, v)]
    } else if lex_lt(k, ps[0].0) {
        seq![(k, v)] + ps
    } else if k == ps[0].0 {
        seq![(k, v)] + ps.drop_first()
    } else {
        seq![ps[0]] + spec_insert(ps.drop_first(), k, v)
    }
}

/// The mapping a pair sequence denotes; an earlier key hides a later equal
/// one, which cannot arise in a sorted sequence.
pub open spec fn map_of(ps: Seq<(Seq<u8>, Seq<u8>)>) -> Map<Seq<u8>, Seq<u8>>
    decreases ps.len(),
{
    if ps.len() == 0 {
        Map::empty()
    } else {
        map_of(ps.drop_first()).insert(ps[0].0, ps[0].1)
    }
}

/// An OAuth parameter set.  The pairs are kept sorted by key, so a given
/// mapping has exactly one representation and the normalized string is
/// deterministic whatever the insertion order was.
pub struct ParamList {
    pairs: Vec<(Vec<u8>, Vec<u8>)>,
}

impl View for ParamList {
    type V = Seq<(Seq<u8>, Seq<u8>)>;

    closed spec fn view(&self) -> Seq<(Seq<u8>, Seq<u8>)> {
        self.pairs@.map_values(|p: (Vec<u8>, Vec<u8>)| (p.0@, p.1@))
    }
}

impl ParamList {
    pub open spec fn wf(self) -> bool {
        sorted_unique(self@)
    }

    /// The empty parameter set.
    pub fn new() -> (r: ParamList)
        ensures
            r.wf(),
            r@ == Seq::<(Seq<u8>, Seq<u8>)>::empty(),
    {
        let r = ParamList { pairs: Vec::new() };
        proof {
            assert(r@ =~= Seq::<(Seq<u8>, Seq<u8>)>::empty());
        }
        r
    }

    /// Insert `key = value`, replacing the value of an existing key.
    pub fn insert(&mut self, key: Vec<u8>, value: Vec<u8>)
        requires
            old(self).wf(),
        ensures
            final(self).wf(),
            final(self)@ == spec_insert(old(self)@, key@, value@),
            map_of(final(self)@) == map_of(old(self)@).insert(key@, value@),
    {
        let ghost ps = self@;
        let n = self.pairs.len();
        let mut idx: usize = 0;
        while idx < n && bytes_lt(self.pairs[idx].0.as_slice(), key.as_slice())
            invariant
                n == self.pairs@.len(),
                idx <= n,
                self@ == ps,
                forall|j: int| 0 <= j < idx ==> lex_lt(#[trigger] ps[j].0, key@),
            decreases n - idx,
        {
            proof {
                assert(ps[idx as int].0 == self.pairs@[idx as int].0@);
            }
            idx += 1;
        }
        proof {
            if idx < n {
                assert(ps[idx as int].0 == self.pairs@[idx as int].0@);
                assert(!lex_lt(ps[idx as int].0, key@));
            }
        }
        if idx < n && bytes_eq(self.pairs[idx].0.as_slice(), key.as_slice()) {
            self.pairs.remove(idx);
            self.pairs.insert(idx, (key, value));
            proof {
                assert(self@ =~= ps.subrange(0, idx as int) + seq![(key@, value@)]
                    + ps.subrange(idx as int + 1, ps.len() as int));
                lemma_spec_insert_shape(ps, key@, value@, idx as int);
            }
        } else {
            proof {
                if idx < n {
                    lemma_lex_lt_trichotomy(ps[idx as int].0, key@);
                }
            }
            self.pairs.insert(idx, (key, value));
            proof {
                assert(self@ =~= ps.subrange(0, idx as int) + seq![(key@, value@)]
                    + ps.subrange(idx as int, ps.len() as int));
                lemma_spec_insert_shape(ps, key@, value@, idx as int);
            }
        }
        proof {
            lemma_spec_insert_sorted(ps, key@, value@);
            lemma_map_of_insert(ps, key@, value@);
        }
    }

    /// The pairs, for iteration by a caller.
    pub fn len(&self) -> (r: usize)
        ensures
            r == self@.len(),
    {
        self.pairs.len()
    }

    /// The key of the pair at a position.
    pub fn key_at(&self, i: usize) -> (r: &Vec<u8>)
        requires
            i < self@.len(),
        ensures
            r@ == self@[i as int].0,
    {
        &self.pairs[i].0
    }

    /// The value of the pair at a position.
    pub fn value_at(&self, i: usize) -> (r: &Vec<u8>)
        requires
            i < self@.len(),
        ensures
            r@ == self@[i as int].1,
    {
        &self.pairs[i].1
    }

    /// The normalized parameter string: percent-encoded pairs joined as
    /// `key=value` with `&`, in ascending key order.
    pub fn normalized(&self) -> (r: Vec<u8>)
        ensures
            r@ == normalized_of(self@),
    {
        let ghost parts = encoded_parts(self@);
        let mut r: Vec<u8> = Vec::new();
        let n = self.pairs.len();
        let mut i: usize = 0;
        while i < n
            invariant
                n == self.pairs@.len(),
                parts == encoded_parts(self@),
                n == parts.len(),
                i <= n,
                i == 0 ==> r@.len() == 0,
                i >= 1 ==> normalized_of(self@) == r@ + join_tail(
                    parts.skip(i as int),
                    seq![0x26u8],
                ),
            decreases n - i,
        {
            if i > 0 {
                r.push(0x26);
            }
            let mut ek = percent_encode(self.pairs[i].0.as_slice());
            r.append(&mut ek);
            r.push(0x3d);
            let mut ev = percent_encode(self.pairs[i].1.as_slice());
            r.append(&mut ev);
            proof {
                assert(self@[i as int] == (self.pairs@[i as int].0@, self.pairs@[i as int].1@));
                assert(parts[i as int] == pair_str(self@[i as int]));
                assert(parts.skip(i as int)[0] == parts[i as int]);
                assert(parts.skip(i as int).drop_first() =~= parts.skip(i as int + 1));
                if i == 0 {
                    lemma_join_with_tail(parts, seq![0x26u8]);
                    assert(parts.drop_first() =~= parts.skip(1));
                    assert(r@ =~= parts[0]);
                } else {
                    assert(normalized_of(self@) =~= r@ + join_tail(
                        parts.skip(i as int + 1),
                        seq![0x26u8],
                    ));
                }
            }
            i += 1;
        }
        proof {
            if n == 0 {
                assert(r@ =~= normalized_of(self@));
            } else {
                assert(parts.skip(n as int) =~= Seq::<Seq<u8>>::empty());
                assert(r@ =~= normalized_of(self@));
            }
        }
        r
    }
}

/// Where the new key lands: `spec_insert` replaces the first key that is
/// not below it, or splices the pair in just before it.
proof fn lemma_spec_insert_shape(ps: Seq<(Seq<u8>, Seq<u8>)>, k: Seq<u8>, v: Seq<u8>, idx: int)
    requires
        0 <= idx <= ps.len(),
        forall|j: int| 0 <= j < idx ==> lex_lt(#[trigger] ps[j].0, k),
        idx < ps.len() ==> !lex_lt(ps[idx].0, k),
    ensures
        idx < ps.len() && ps[idx].0 == k ==> spec_insert(ps, k, v) == ps.subrange(0, idx)
            + seq![(k, v)] + ps.subrange(idx + 1, ps.len() as int),
        !(idx < ps.len() && ps[idx].0 == k) ==> spec_insert(ps, k, v) == ps.subrange(0, idx)
            + seq![(k, v)] + ps.subrange(idx, ps.len() as int),
    decreases ps.len(),
{
    if ps.len() == 0 {
        assert(spec_insert(ps, k, v) =~= ps.subrange(0, idx) + seq![(k, v)] + ps.subrange(
            idx,
            ps.len() as int,
        ));
    } else if idx == 0 {
        if !lex_lt(ps[0].0, k) && ps[0].0 != k {
            lemma_lex_lt_trichotomy(k, ps[0].0);
        }
        if ps[0].0 == k {
            crate::bytes::lemma_lex_lt_irrefl(k);
            assert(spec_insert(ps, k, v) =~= ps.subrange(0, 0) + seq![(k, v)] + ps.subrange(
                1,
                ps.len() as int,
            ));
        } else {
            assert(spec_insert(ps, k, v) =~= ps.subrange(0, 0) + seq![(k, v)] + ps.subrange(
                0,
                ps.len() as int,
            ));
        }
    } else {
        // idx >= 1: the head is below k, so insertion recurses into the tail.
        assert(lex_lt(ps[0].0, k));
        lemma_lex_lt_asymm(ps[0].0, k);
        let tail = ps.drop_first();
        assert(forall|j: int| 0 <= j < idx - 1 ==> lex_lt(#[trigger] tail[j].0, k));
        lemma_spec_insert_shape(tail, k, v, idx - 1);
        if idx < ps.len() && ps[idx].0 == k {
            assert(tail[idx - 1].0 == k);
            assert(spec_insert(ps, k, v) =~= ps.subrange(0, idx) + seq![(k, v)] + ps.subrange(
                idx + 1,
                ps.len() as int,
            ));
        } else {
            assert(spec_insert(ps, k, v) =~= ps.subrange(0, idx) + seq![(k, v)] + ps.subrange(
                idx,
                ps.len() as int,
            ));
        }
    }
}

/// Sorted insertion preserves sortedness.
pub proof fn lemma_spec_insert_sorted(ps: Seq<(Seq<u8>, Seq<u8>)>, k: Seq<u8>, v: Seq<u8>)
    requires
        sorted_unique(ps),
    ensures
        sorted_unique(spec_insert(ps, k, v)),
    decreases ps.len(),
{
    if ps.len() == 0 {
    } else if lex_lt(k, ps[0].0) {
        let r = seq![(k, v)] + ps;
        assert forall|i: int, j: int| 0 <= i < j < r.len() implies lex_lt(r[i].0, r[j].0) by {
            if i == 0 {
                if j > 1 {
                    lemma_lex_lt_trans(k, ps[0].0, ps[j - 1].0);
                }
            }
        }
    } else if k == ps[0].0 {
        let r = seq![(k, v)] + ps.drop_first();
        assert forall|i: int, j: int| 0 <= i < j < r.len() implies lex_lt(r[i].0, r[j].0) by {
            if i == 0 {
                assert(r[j].0 == ps[j].0);
            } else {
                assert(r[i].0 == ps[i].0 && r[j].0 == ps[j].0);
            }
        }
    } else {
        lemma_lex_lt_trichotomy(k, ps[0].0);
        assert(lex_lt(ps[0].0, k));
        let tail = ps.drop_first();
        assert(sorted_unique(tail)) by {
            assert(forall|i: int, j: int|
                0 <= i < j < tail.len() ==> lex_lt(#[trigger] tail[i].0, #[trigger] tail[j].0));
        }
        lemma_spec_insert_sorted(tail, k, v);
        let rt = spec_insert(tail, k, v);
        let r = seq![ps[0]] + rt;
        lemma_spec_insert_keys(tail, k, v);
        assert forall|i: int, j: int| 0 <= i < j < r.len() implies lex_lt(r[i].0, r[j].0) by {
            if i == 0 {
                // Every key of rt is k or a key of the tail, both above ps[0].0.
                assert(r[j].0 == rt[j - 1].0);
                if rt[j - 1].0 != k {
                    let t = choose|t: int| 0 <= t < tail.len() && tail[t].0 == rt[j - 1].0;
                    assert(lex_lt(ps[0].0, tail[t].0));
                }
            }
        }
    }
}

/// Every key of an insertion result is the new key or one of the old keys.
proof fn lemma_spec_insert_keys(ps: Seq<(Seq<u8>, Seq<u8>)>, k: Seq<u8>, v: Seq<u8>)
    ensures
        forall|i: int|
            0 <= i < spec_insert(ps, k, v).len() ==> (#[trigger] spec_insert(ps, k, v)[i].0 == k
                || exists|t: int| 0 <= t < ps.len() && ps[t].0 == spec_insert(ps, k, v)[i].0),
    decreases ps.len(),
{
    if ps.len() == 0 {
    } else if lex_lt(k, ps[0].0) {
    } else if k == ps[0].0 {
        assert forall|i: int| 0 <= i < spec_insert(ps, k, v).len() implies (
        #[trigger] spec_insert(ps, k, v)[i].0 == k || exists|t: int|
            0 <= t < ps.len() && ps[t].0 == spec_insert(ps, k, v)[i].0) by {
            if i > 0 {
                assert(ps[i].0 == spec_insert(ps, k, v)[i].0);
            }
        }
    } else {
        lemma_spec_insert_keys(ps.drop_first(), k, v);
        let rt = spec_insert(ps.drop_first(), k, v);
        assert forall|i: int| 0 <= i < spec_insert(ps, k, v).len() implies (
        #[trigger] spec_insert(ps, k, v)[i].0 == k || exists|t: int|
            0 <= t < ps.len() && ps[t].0 == spec_insert(ps, k, v)[i].0) by {
            if i == 0 {
                assert(ps[0].0 == spec_insert(ps, k, v)[0].0);
            } else {
                assert(spec_insert(ps, k, v)[i].0 == rt[i - 1].0);
                if rt[i - 1].0 != k {
                    let t = choose|t: int|
                        0 <= t < ps.drop_first().len() && ps.drop_first()[t].0 == rt[i - 1].0;
                    assert(ps[t + 1].0 == rt[i - 1].0);
                }
            }
        }
    }
}

/// Inserting a pair updates the denoted mapping accordingly.
pub proof fn lemma_map_of_insert(ps: Seq<(Seq<u8>, Seq<u8>)>, k: Seq<u8>, v: Seq<u8>)
    ensures
        map_of(spec_insert(ps, k, v)) == map_of(ps).insert(k, v),
    decreases ps.len(),
{
    if ps.len() == 0 {
        let r = seq![(k, v)];
        assert(r.drop_first() =~= ps);
        assert(map_of(r) == map_of(ps).insert(k, v));
    } else if lex_lt(k, ps[0].0) {
        let r = seq![(k, v)] + ps;
        assert(r.drop_first() =~= ps);
        assert(map_of(r) =~= map_of(ps).insert(k, v));
    } else if k == ps[0].0 {
        let r = seq![(k, v)] + ps.drop_first();
        assert(r.drop_first() =~= ps.drop_first());
        assert(r.len() > 0 && r[0] == (k, v));
        assert(map_of(r) == map_of(ps.drop_first()).insert(k, v));
        assert(map_of(ps) == map_of(ps.drop_first()).insert(ps[0].0, ps[0].1));
        assert(map_of(r) =~= map_of(ps).insert(k, v));
    } else {
        lemma_map_of_insert(ps.drop_first(), k, v);
        let r = seq![ps[0]] + spec_insert(ps.drop_first(), k, v);
        assert(r.drop_first() =~= spec_insert(ps.drop_first(), k, v));
        assert(map_of(r) =~= map_of(ps).insert(k, v));
    }
}

proof fn lemma_pair_str_no_byte(p: (Seq<u8>, Seq<u8>), b: u8)
    requires
        !crate::percent::is_unreserved(b),
        b != 0x25,
        !crate::percent::is_hex_upper(b),
        b != 0x3d,
    ensures
        !contains_byte(pair_str(p), b),
{
    let ek = percent_encoded(p.0);
    let ev = percent_encoded(p.1);
    lemma_percent_encoded_excludes(p.0, b);
    lemma_percent_encoded_excludes(p.1, b);
    assert forall|i: int| 0 <= i < pair_str(p).len() implies pair_str(p)[i] != b by {
        if i < ek.len() {
            assert(pair_str(p)[i] == ek[i]);
            if ek[i] == b {
                assert(contains_byte(ek, b));
            }
        } else if i == ek.len() {
            assert(pair_str(p)[i] == 0x3d);
        } else {
            assert(pair_str(p)[i] == ev[i - ek.len() - 1]);
            if ev[i - ek.len() - 1] == b {
                assert(contains_byte(ev, b));
            }
        }
    }
}

/// Escaping is lossless: splitting the normalized string on `&` and `=`
/// yields the percent-encoded pairs, and decoding each side recovers the
/// original keys and values exactly, whatever reserved bytes they held.
pub proof fn lemma_normalized_round_trip(ps: Seq<(Seq<u8>, Seq<u8>)>)
    requires
        ps.len() > 0,
    ensures
        parse_pairs(normalized_of(ps)) == Some(
            Seq::new(ps.len(), |i: int| (percent_encoded(ps[i].0), percent_encoded(ps[i].1))),
        ),
        forall|i: int|
            0 <= i < ps.len() ==> percent_decoded(percent_encoded(#[trigger] ps[i].0)) == Some(
                ps[i].0,
            ) && percent_decoded(percent_encoded(ps[i].1)) == Some(ps[i].1),
{
    let parts = encoded_parts(ps);
    assert forall|i: int| 0 <= i < parts.len() implies !contains_byte(
        #[trigger] parts[i],
        0x26,
    ) by {
        lemma_pair_str_no_byte(ps[i], 0x26);
    }
    lemma_split_join(parts, 0x26);
    assert forall|i: int| 0 <= i < parts.len() implies split_on(#[trigger] parts[i], 0x3d)
        == seq![percent_encoded(ps[i].0), percent_encoded(ps[i].1)] by {
        lemma_percent_encoded_excludes(ps[i].0, 0x3d);
        lemma_percent_encoded_excludes(ps[i].1, 0x3d);
        assert(parts[i] =~= percent_encoded(ps[i].0) + seq![0x3du8] + percent_encoded(ps[i].1));
        lemma_split_on_step(percent_encoded(ps[i].0), 0x3d, percent_encoded(ps[i].1));
        lemma_split_on_whole(percent_encoded(ps[i].1), 0x3d);
        assert(split_on(parts[i], 0x3d) =~= seq![
            percent_encoded(ps[i].0),
            percent_encoded(ps[i].1),
        ]);
    }
    assert(parse_pairs(normalized_of(ps)) == Some(
        Seq::new(
            parts.len(),
            |i: int| (split_on(parts[i], 0x3d)[0], split_on(parts[i], 0x3d)[1]),
        ),
    ));
    assert(Seq::new(
        parts.len(),
        |i: int| (split_on(parts[i], 0x3d)[0], split_on(parts[i], 0x3d)[1]),
    ) =~= Seq::new(ps.len(), |i: int| (percent_encoded(ps[i].0), percent_encoded(ps[i].1))));
    assert forall|i: int|
        0 <= i < ps.len() implies percent_decoded(percent_encoded(#[trigger] ps[i].0)) == Some(
        ps[i].0,
    ) && percent_decoded(percent_encoded(ps[i].1)) == Some(ps[i].1) by {
        lemma_percent_round_trip(ps[i].0);
        lemma_percent_round_trip(ps[i].1);
    }
}

/// A key is in the denoted mapping exactly when some pair holds it.
pub proof fn lemma_map_of_domain(ps: Seq<(Seq<u8>, Seq<u8>)>, k: Seq<u8>)
    ensures
        map_of(ps).contains_key(k) <==> exists|i: int| 0 <= i < ps.len() && ps[i].0 == k,
    decreases ps.len(),
{
    if ps.len() > 0 {
        lemma_map_of_domain(ps.drop_first(), k);
        if map_of(ps).contains_key(k) {
            if ps[0].0 != k {
                let i = choose|i: int|
                    0 <= i < ps.drop_first().len() && ps.drop_first()[i].0 == k;
                assert(ps[i + 1].0 == k);
            }
        }
        if exists|i: int| 0 <= i < ps.len() && ps[i].0 == k {
            let i = choose|i: int| 0 <= i < ps.len() && ps[i].0 == k;
            if i > 0 {
                assert(ps.drop_first()[i - 1].0 == k);
            }
        }
    }
}

/// In a sorted sequence the head pair gives the head key's value, and
/// dropping the head removes exactly that key.
pub proof fn lemma_map_of_head(ps: Seq<(Seq<u8>, Seq<u8>)>)
    requires
        sorted_unique(ps),
        ps.len() > 0,
    ensures
        map_of(ps).contains_key(ps[0].0),
        map_of(ps)[ps[0].0] == ps[0].1,
        map_of(ps.drop_first()) == map_of(ps).remove(ps[0].0),
{
    let tail = ps.drop_first();
    lemma_map_of_domain(tail, ps[0].0);
    if map_of(tail).contains_key(ps[0].0) {
        let i = choose|i: int| 0 <= i < tail.len() && tail[i].0 == ps[0].0;
        assert(lex_lt(ps[0].0, ps[i + 1].0));
        crate::bytes::lemma_lex_lt_irrefl(ps[0].0);
    }
    assert(map_of(tail) =~= map_of(ps).remove(ps[0].0));
}

/// A sorted parameter sequence is the unique representation of its mapping.
pub proof fn lemma_sorted_map_unique(a: Seq<(Seq<u8>, Seq<u8>)>, b: Seq<(Seq<u8>, Seq<u8>)>)
    requires
        sorted_unique(a),
        sorted_unique(b),
        map_of(a) == map_of(b),
    ensures
        a == b,
    decreases a.len(),
{
    if a.len() == 0 {
        if b.len() > 0 {
            lemma_map_of_domain(a, b[0].0);
            lemma_map_of_domain(b, b[0].0);
        }
        assert(a =~= b);
    } else if b.len() == 0 {
        lemma_map_of_domain(a, a[0].0);
        lemma_map_of_domain(b, a[0].0);
    } else {
        // The head keys agree: each is present in the other sequence, and
        // sortedness puts both at or above the other's head.
        lemma_map_of_domain(a, a[0].0);
        lemma_map_of_domain(b, a[0].0);
        lemma_map_of_domain(a, b[0].0);
        lemma_map_of_domain(b, b[0].0);
        if a[0].0 != b[0].0 {
            let j = choose|j: int| 0 <= j < b.len() && b[j].0 == a[0].0;
            let i = choose|i: int| 0 <= i < a.len() && a[i].0 == b[0].0;
            assert(j > 0 && i > 0);
            assert(lex_lt(b[0].0, b[j].0));
            assert(lex_lt(a[0].0, a[i].0));
            lemma_lex_lt_asymm(a[0].0, b[0].0);
        }
        lemma_map_of_head(a);
        lemma_map_of_head(b);
        assert(a[0].1 == b[0].1);
        assert(sorted_unique(a.drop_first())) by {
            assert(forall|i: int, j: int|
                0 <= i < j < a.drop_first().len() ==> lex_lt(
                    #[trigger] a.drop_first()[i].0,
                    #[trigger] a.drop_first()[j].0,
                ));
        }
        assert(sorted_unique(b.drop_first())) by {
            assert(forall|i: int, j: int|
                0 <= i < j < b.drop_first().len() ==> lex_lt(
                    #[trigger] b.drop_first()[i].0,
                    #[trigger] b.drop_first()[j].0,
                ));
        }
        lemma_sorted_map_unique(a.drop_first(), b.drop_first());
        assert forall|i: int| 0 <= i < a.len() implies a[i] == b[i] by {
            if i == 0 {
                assert(a[0] =~= b[0]);
            } else {
                assert(a[i] == a.drop_first()[i - 1]);
                assert(b[i] == b.drop_first()[i - 1]);
            }
        }
        assert(a =~= b);
    }
}

/// Normalization is independent of insertion order: two well-formed
/// parameter sets holding the same key-to-value mapping are the same
/// sequence, so they normalize to the same string.
pub proof fn lemma_normalization_order_independent(
    a: Seq<(Seq<u8>, Seq<u8>)>,
    b: Seq<(Seq<u8>, Seq<u8>)>,
)
    requires
        sorted_unique(a),
        sorted_unique(b),
        map_of(a) == map_of(b),
    ensures
        a == b,
        normalized_of(a) == normalized_of(b),
{
    lemma_sorted_map_unique(a, b);
}

} // verus!
