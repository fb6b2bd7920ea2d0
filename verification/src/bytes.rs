//! Byte-string utilities: lexicographic order, separator splitting and
//! joining, and decimal formatting.  Keys, values, URLs and header values
//! are all byte strings in this crate.

use vstd::prelude::*;

verus! {

// ---------------------------------------------------------------------------
// Lexicographic order
// ---------------------------------------------------------------------------

/// Strict lexicographic order on byte strings, as `Ord` on `[u8]` and on
/// UTF-8 encoded `str` orders them.
pub open spec fn lex_lt(a: Seq<u8>, b: Seq<u8>) -> bool
    decreases a.len(),
{
    if b.len() == 0 {
        false
    } else if a.len() == 0 {
        true
    } else if a[0] < b[0] {
        true
    } else if a[0] > b[0] {
        false
    } else {
        lex_lt(a.drop_first(), b.drop_first())
    }
}

pub proof fn lemma_lex_lt_irrefl(a: Seq<u8>)
    ensures
        !lex_lt(a, a),
    decreases a.len(),
{
    if a.len() > 0 {
        lemma_lex_lt_irrefl(a.drop_first());
    }
}

/// Any two byte strings are ordered or equal.
pub proof fn lemma_lex_lt_trichotomy(a: Seq<u8>, b: Seq<u8>)
    ensures
        lex_lt(a, b) || lex_lt(b, a) || a == b,
    decreases a.len(),
{
    if a.len() > 0 && b.len() > 0 && a[0] == b[0] {
        lemma_lex_lt_trichotomy(a.drop_first(), b.drop_first());
        if !lex_lt(a, b) && !lex_lt(b, a) {
            assert(a.drop_first() == b.drop_first());
            assert forall|i: int| 0 <= i < a.len() implies a[i] == b[i] by {
                if i > 0 {
                    assert(a[i] == a.drop_first()[i - 1]);
                    assert(b[i] == b.drop_first()[i - 1]);
                }
            }
            assert(a =~= b);
        }
    }
}

pub proof fn lemma_lex_lt_asymm(a: Seq<u8>, b: Seq<u8>)
    ensures
        !(lex_lt(a, b) && lex_lt(b, a)),
    decreases a.len(),
{
    if a.len() > 0 && b.len() > 0 && a[0] == b[0] {
        lemma_lex_lt_asymm(a.drop_first(), b.drop_first());
    }
}

pub proof fn lemma_lex_lt_trans(a: Seq<u8>, b: Seq<u8>, c: Seq<u8>)
    requires
        lex_lt(a, b),
        lex_lt(b, c),
    ensures
        lex_lt(a, c),
    decreases a.len(),
{
    if a.len() > 0 && b.len() > 0 && c.len() > 0 && a[0] == b[0] && b[0] == c[0] {
        lemma_lex_lt_trans(a.drop_first(), b.drop_first(), c.drop_first());
    }
}

/// Byte-string equality test.
pub fn bytes_eq(a: &[u8], b: &[u8]) -> (r: bool)
    ensures
        r == (a@ == b@),
{
    if a.len() != b.len() {
        return false;
    }
    let n = a.len();
    let mut i: usize = 0;
    while i < n
        invariant
            n == a@.len(),
            n == b@.len(),
            i <= n,
            forall|j: int| 0 <= j < i ==> a@[j] == b@[j],
        decreases n - i,
    {
        if a[i] != b[i] {
            return false;
        }
        i += 1;
    }
    proof {
        assert(a@ =~= b@);
    }
    true
}

/// Strict lexicographic comparison.
pub fn bytes_lt(a: &[u8], b: &[u8]) -> (r: bool)
    ensures
        r == lex_lt(a@, b@),
{
    let n = if a.len() < b.len() {
        a.len()
    } else {
        b.len()
    };
    let mut i: usize = 0;
    proof {
        assert(a@.skip(0) =~= a@);
        assert(b@.skip(0) =~= b@);
    }
    while i < n
        invariant
            n <= a@.len(),
            n <= b@.len(),
            n == a@.len() || n == b@.len(),
            i <= n,
            lex_lt(a@, b@) == lex_lt(a@.skip(i as int), b@.skip(i as int)),
            forall|j: int| 0 <= j < i ==> a@[j] == b@[j],
        decreases n - i,
    {
        let x = a[i];
        let y = b[i];
        proof {
            assert(a@.skip(i as int)[0] == a@[i as int]);
            assert(b@.skip(i as int)[0] == b@[i as int]);
            assert(a@.skip(i as int).drop_first() =~= a@.skip(i as int + 1));
            assert(b@.skip(i as int).drop_first() =~= b@.skip(i as int + 1));
        }
        if x < y {
            return true;
        }
        if x > y {
            return false;
        }
        i += 1;
    }
    proof {
        if a@.len() < b@.len() {
            assert(a@.skip(i as int).len() == 0);
            assert(b@.skip(i as int).len() > 0);
        } else {
            assert(b@.skip(i as int).len() == 0);
        }
    }
    a.len() < b.len()
}

// ---------------------------------------------------------------------------
// Splitting on a separator byte
// ---------------------------------------------------------------------------

pub open spec fn contains_byte(s: Seq<u8>, b: u8) -> bool {
    exists|i: int| 0 <= i < s.len() && s[i] == b
}

/// Index of the first occurrence of `sep` in `s`, or `s.len()` when absent.
pub open spec fn first_sep_at(s: Seq<u8>, sep: u8) -> nat
    decreases s.len(),
{
    if s.len() == 0 {
        0
    } else if s[0] == sep {
        0
    } else {
        1 + first_sep_at(s.drop_first(), sep)
    }
}

pub proof fn lemma_first_sep_at(s: Seq<u8>, sep: u8)
    ensures
        first_sep_at(s, sep) <= s.len(),
        first_sep_at(s, sep) < s.len() ==> s[first_sep_at(s, sep) as int] == sep,
        forall|j: int| 0 <= j < first_sep_at(s, sep) ==> s[j] != sep,
        first_sep_at(s, sep) == s.len() ==> !contains_byte(s, sep),
    decreases s.len(),
{
    if s.len() > 0 && s[0] != sep {
        lemma_first_sep_at(s.drop_first(), sep);
        assert(forall|j: int|
            1 <= j < first_sep_at(s, sep) ==> s[j] == s.drop_first()[j - 1]);
        if first_sep_at(s, sep) == s.len() {
            assert forall|i: int| 0 <= i < s.len() implies s[i] != sep by {
                if i >= 1 {
                    assert(s[i] == s.drop_first()[i - 1]);
                }
            }
        }
    }
}

/// The first occurrence is pinned by its characterization.
pub proof fn lemma_first_sep_at_is(s: Seq<u8>, sep: u8, k: int)
    requires
        0 <= k < s.len(),
        s[k] == sep,
        forall|j: int| 0 <= j < k ==> s[j] != sep,
    ensures
        first_sep_at(s, sep) == k,
{
    lemma_first_sep_at(s, sep);
    let f = first_sep_at(s, sep) as int;
    if f < k {
        assert(s[f] == sep);
    } else if f > k {
        assert(s[k] != sep);
    }
}

/// `s` split on `sep`: the (possibly empty) segments between occurrences of
/// `sep`, as `split` on a one-byte pattern yields them.
pub open spec fn split_on(s: Seq<u8>, sep: u8) -> Seq<Seq<u8>>
    decreases s.len(),
{
    let i = first_sep_at(s, sep);
    if i >= s.len() {
        seq![s]
    } else {
        seq![s.take(i as int)] + split_on(s.skip(i as int + 1), sep)
    }
}

pub proof fn lemma_split_on_whole(s: Seq<u8>, sep: u8)
    requires
        !contains_byte(s, sep),
    ensures
        split_on(s, sep) == seq![s],
{
    lemma_first_sep_at(s, sep);
    if first_sep_at(s, sep) < s.len() {
        assert(contains_byte(s, sep));
    }
}

/// Splitting a string that starts with a separator-free segment followed by
/// `sep` peels that segment off the front.
pub proof fn lemma_split_on_step(a: Seq<u8>, sep: u8, rest: Seq<u8>)
    requires
        !contains_byte(a, sep),
    ensures
        split_on(a + seq![sep] + rest, sep) == seq![a] + split_on(rest, sep),
{
    let s = a + seq![sep] + rest;
    assert(s[a.len() as int] == sep);
    assert forall|j: int| 0 <= j < a.len() implies s[j] != sep by {
        assert(s[j] == a[j]);
        if s[j] == sep {
            assert(contains_byte(a, sep));
        }
    }
    lemma_first_sep_at_is(s, sep, a.len() as int);
    assert(s.take(a.len() as int) =~= a);
    assert(s.skip(a.len() as int + 1) =~= rest);
}

// ---------------------------------------------------------------------------
// Joining with a separator
// ---------------------------------------------------------------------------

/// Concatenation of `parts` with `sep` between consecutive parts.
pub open spec fn join_with(parts: Seq<Seq<u8>>, sep: Seq<u8>) -> Seq<u8>
    decreases parts.len(),
{
    if parts.len() == 0 {
        Seq::empty()
    } else if parts.len() == 1 {
        parts[0]
    } else {
        parts[0] + sep + join_with(parts.drop_first(), sep)
    }
}

/// The tail of a join: every part preceded by the separator.
pub open spec fn join_tail(parts: Seq<Seq<u8>>, sep: Seq<u8>) -> Seq<u8>
    decreases parts.len(),
{
    if parts.len() == 0 {
        Seq::empty()
    } else {
        sep + parts[0] + join_tail(parts.drop_first(), sep)
    }
}

pub proof fn lemma_join_with_tail(parts: Seq<Seq<u8>>, sep: Seq<u8>)
    requires
        parts.len() > 0,
    ensures
        join_with(parts, sep) == parts[0] + join_tail(parts.drop_first(), sep),
    decreases parts.len(),
{
    if parts.len() == 1 {
        assert(join_with(parts, sep) =~= parts[0] + join_tail(parts.drop_first(), sep));
    } else {
        lemma_join_with_tail(parts.drop_first(), sep);
        assert(join_with(parts, sep) =~= parts[0] + join_tail(parts.drop_first(), sep));
    }
}

/// Splitting a join on its separator recovers the parts, provided no part
/// contains the separator.
pub proof fn lemma_split_join(parts: Seq<Seq<u8>>, sep: u8)
    requires
        parts.len() > 0,
        forall|i: int| 0 <= i < parts.len() ==> !contains_byte(#[trigger] parts[i], sep),
    ensures
        split_on(join_with(parts, seq![sep]), sep) == parts,
    decreases parts.len(),
{
    if parts.len() == 1 {
        lemma_split_on_whole(parts[0], sep);
        assert(join_with(parts, seq![sep]) == parts[0]);
        assert(split_on(join_with(parts, seq![sep]), sep) =~= parts);
    } else {
        assert(forall|i: int|
            0 <= i < parts.drop_first().len() ==> !contains_byte(
                #[trigger] parts.drop_first()[i],
                sep,
            ));
        lemma_split_join(parts.drop_first(), sep);
        let rest = join_with(parts.drop_first(), seq![sep]);
        assert(join_with(parts, seq![sep]) =~= parts[0] + seq![sep] + rest);
        lemma_split_on_step(parts[0], sep, rest);
        assert(split_on(join_with(parts, seq![sep]), sep) =~= parts);
    }
}

// ---------------------------------------------------------------------------
// Decimal formatting
// ---------------------------------------------------------------------------

/// The decimal digits of `n`, most significant first, with no leading zeros
/// (and the single digit `0` for zero).
pub open spec fn dec_of(n: nat) -> Seq<u8>
    decreases n,
{
    if n < 10 {
        seq![(0x30 + n) as u8]
    } else {
        dec_of(n / 10) + seq![(0x30 + n % 10) as u8]
    }
}

/// Decimal rendering of a 64-bit integer, as `to_string` renders it.
pub fn u64_to_dec(n: u64) -> (r: Vec<u8>)
    ensures
        r@ == dec_of(n as nat),
    decreases n,
{
    if n < 10 {
        let mut r: Vec<u8> = Vec::new();
        r.push(0x30 + (n as u8));
        r
    } else {
        let mut r = u64_to_dec(n / 10);
        r.push(0x30 + ((n % 10) as u8));
        proof {
            assert(r@ =~= dec_of(n as nat));
        }
        r
    }
}

} // verus!
