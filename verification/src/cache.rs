//! The access-token cache: user id to credential pair with insertion time,
//! bounded by age.  Entries leave only by explicit purge or by a sweep;
//! lookups never expire entries on their own, so between sweeps a lookup
//! can return an entry that is stale but not yet evicted.

use vstd::prelude::*;

verus! {

/// The mathematical shape of one cache entry.
pub struct CacheEntry {
    pub access_token: Seq<u8>,
    pub access_token_secret: Seq<u8>,
    pub cached_at: u64,
}

/// A cached credential pair and the time it was stored.
pub struct CacheData {
    pub access_token: Vec<u8>,
    pub access_token_secret: Vec<u8>,
    cached_at: u64,
}

impl View for CacheData {
    type V = CacheEntry;

    closed spec fn view(&self) -> CacheEntry {
        CacheEntry {
            access_token: self.access_token@,
            access_token_secret: self.access_token_secret@,
            cached_at: self.cached_at,
        }
    }
}

impl CacheData {
    /// Build an entry recording the given insertion time.
    pub fn new(access_token: Vec<u8>, access_token_secret: Vec<u8>, cached_at: u64) -> (r:
        CacheData)
        ensures
            r@ == (CacheEntry {
                access_token: access_token@,
                access_token_secret: access_token_secret@,
                cached_at,
            }),
    {
        CacheData { access_token, access_token_secret, cached_at }
    }

    /// A copy of the entry; lookups hand copies out, never aliases.
    pub fn duplicate(&self) -> (r: CacheData)
        ensures
            r@ == self@,
    {
        CacheData {
            access_token: vstd::slice::slice_to_vec(self.access_token.as_slice()),
            access_token_secret: vstd::slice::slice_to_vec(self.access_token_secret.as_slice()),
            cached_at: self.cached_at,
        }
    }
}

/// Views of a vector of keyed entries.
pub open spec fn entry_views(s: Seq<(u64, CacheData)>) -> Seq<(u64, CacheEntry)> {
    s.map_values(|p: (u64, CacheData)| (p.0, p.1@))
}

/// The mapping a sequence of keyed entries denotes; a later entry for a
/// key overwrites an earlier one.
pub open spec fn cache_map_of(s: Seq<(u64, CacheEntry)>) -> Map<u64, CacheEntry>
    decreases s.len(),
{
    if s.len() == 0 {
        Map::empty()
    } else {
        cache_map_of(s.drop_last()).insert(s.last().0, s.last().1)
    }
}

/// An entry is still fresh at `now` when its age does not exceed
/// `max_age`; an entry stamped in the future counts as fresh.
pub open spec fn fresh_at(e: CacheEntry, now: u64, max_age: u64) -> bool {
    e.cached_at + max_age >= now
}

/// What one sweep at time `now` does: exactly the aged-out entries are
/// gone, and the kept entries are unchanged.
pub open spec fn swept(
    before: Map<u64, CacheEntry>,
    after: Map<u64, CacheEntry>,
    now: u64,
    max_age: u64,
) -> bool {
    (forall|k: u64|
        #![trigger after.contains_key(k)]
        #![trigger before.contains_key(k)]
        after.contains_key(k) <==> (before.contains_key(k) && fresh_at(before[k], now, max_age)))
        && (forall|k: u64| #![trigger after[k]]
        after.contains_key(k) ==> after[k] == before[k])
}

/// The cache table.  The size cap bounds backing capacity after a sweep,
/// never the number of live entries.
pub struct AccessTokenCache {
    entries: Vec<(u64, CacheData)>,
    max_age: u64,
    max_item: usize,
}

impl View for AccessTokenCache {
    type V = Map<u64, CacheEntry>;

    closed spec fn view(&self) -> Map<u64, CacheEntry> {
        cache_map_of(self.entries_view())
    }
}

/// Relies on std's `Vec::shrink_to`: it changes capacity only, never the
/// contents.
#[verifier::external_body]
fn shrink_storage(entries: &mut Vec<(u64, CacheData)>, cap: usize)
    ensures
        final(entries)@ == old(entries)@,
{
    entries.shrink_to(cap);
}

impl AccessTokenCache {
    pub closed spec fn entries_view(&self) -> Seq<(u64, CacheEntry)> {
        entry_views(self.entries@)
    }

    /// Keys occur at most once in the table.
    pub closed spec fn wf(&self) -> bool {
        forall|i: int, j: int|
            0 <= i < j < self.entries_view().len() ==> self.entries_view()[i].0
                != self.entries_view()[j].0
    }

    pub closed spec fn max_age_v(&self) -> u64 {
        self.max_age
    }

    pub closed spec fn max_item_v(&self) -> usize {
        self.max_item
    }

    /// An empty cache evicting entries older than `max_age` seconds and
    /// shrinking storage toward `max_item` entries.
    pub fn new(max_age: u64, max_item: usize) -> (r: AccessTokenCache)
        ensures
            r.wf(),
            r@ == Map::<u64, CacheEntry>::empty(),
            r.max_age_v() == max_age,
            r.max_item_v() == max_item,
    {
        let r = AccessTokenCache { entries: Vec::new(), max_age, max_item };
        proof {
            assert(r.entries_view() =~= Seq::<(u64, CacheEntry)>::empty());
        }
        r
    }

    /// Look a user's entry up; a copy is returned, and nothing is evicted
    /// even when the entry is past its age.
    pub fn request(&self, user_id: u64) -> (r: Option<CacheData>)
        requires
            self.wf(),
        ensures
            match r {
                Some(d) => self@.contains_key(user_id) && self@[user_id] == d@,
                None => !self@.contains_key(user_id),
            },
    {
        let ghost s = self.entries_view();
        let n = self.entries.len();
        let mut i: usize = n;
        proof {
            assert(s.take(n as int) =~= s);
        }
        while i > 0
            invariant
                n == self.entries@.len(),
                i <= n,
                s == self.entries_view(),
                n == s.len(),
                self@.contains_key(user_id) == cache_map_of(s.take(i as int)).contains_key(
                    user_id,
                ),
                self@.contains_key(user_id) ==> self@[user_id] == cache_map_of(
                    s.take(i as int),
                )[user_id],
            decreases i,
        {
            i -= 1;
            proof {
                assert(s.take(i as int + 1).drop_last() =~= s.take(i as int));
                assert(s.take(i as int + 1).last() == s[i as int]);
                assert(s[i as int] == (self.entries@[i as int].0, self.entries@[i as int].1@));
            }
            if self.entries[i].0 == user_id {
                return Some(self.entries[i].1.duplicate());
            }
        }
        proof {
            assert(s.take(0) =~= Seq::<(u64, CacheEntry)>::empty());
        }
        None
    }

    /// Remove any entry a user has; building the table anew keeps keys
    /// unique.
    fn remove_key(&mut self, user_id: u64)
        requires
            old(self).wf(),
        ensures
            final(self).wf(),
            final(self)@ == old(self)@.remove(user_id),
            final(self).max_age_v() == old(self).max_age_v(),
            final(self).max_item_v() == old(self).max_item_v(),
    {
        let ghost s = self.entries_view();
        let n = self.entries.len();
        let mut out: Vec<(u64, CacheData)> = Vec::new();
        let mut i: usize = 0;
        proof {
            assert(s.take(0) =~= Seq::<(u64, CacheEntry)>::empty());
            assert(entry_views(out@) =~= Seq::<(
                u64,
                CacheEntry,
            )>::empty());
        }
        while i < n
            invariant
                n == self.entries@.len(),
                i <= n,
                s == self.entries_view(),
                n == s.len(),
                forall|a: int, b: int| 0 <= a < b < s.len() ==> s[a].0 != s[b].0,
                cache_map_of(entry_views(out@))
                    == cache_map_of(s.take(i as int)).remove(user_id),
                forall|a: int, b: int|
                    0 <= a < b < entry_views(out@).len() ==> entry_views(out@)[a].0
                        != entry_views(out@)[b].0,
                forall|a: int|
                    0 <= a < entry_views(out@).len() ==> exists|j: int|
                        0 <= j < i && (#[trigger] entry_views(out@)[a]).0 == s[j].0,
            decreases n - i,
        {
            let ghost ov = entry_views(out@);
            proof {
                assert(s.take(i as int + 1).drop_last() =~= s.take(i as int));
                assert(s.take(i as int + 1).last() == s[i as int]);
                assert(s[i as int] == (self.entries@[i as int].0, self.entries@[i as int].1@));
            }
            if self.entries[i].0 != user_id {
                let entry = self.entries[i].1.duplicate();
                let key = self.entries[i].0;
                out.push((key, entry));
                proof {
                    let ov2 = entry_views(out@);
                    assert(ov2 =~= ov.push(s[i as int]));
                    assert(ov2.drop_last() =~= ov);
                    assert forall|a: int| 0 <= a < ov.len() implies ov[a].0 != s[i as int].0 by {
                        let j = choose|j: int| 0 <= j < i && (#[trigger] ov[a]).0 == s[j].0;
                        assert(s[j].0 != s[i as int].0);
                    }
                    assert(cache_map_of(ov2) =~= cache_map_of(s.take(i as int + 1)).remove(
                        user_id,
                    ));
                }
            } else {
                proof {
                    assert(cache_map_of(ov) =~= cache_map_of(s.take(i as int + 1)).remove(
                        user_id,
                    ));
                }
            }
            i += 1;
        }
        proof {
            assert(s.take(n as int) =~= s);
        }
        self.entries = out;
    }

    /// Store or overwrite a user's pair, stamped with the given time;
    /// later lookups of the key observe the new pair.
    pub fn insert_at(
        &mut self,
        user_id: u64,
        access_token: Vec<u8>,
        access_token_secret: Vec<u8>,
        now: u64,
    )
        requires
            old(self).wf(),
        ensures
            final(self).wf(),
            final(self)@ == old(self)@.insert(
                user_id,
                CacheEntry {
                    access_token: access_token@,
                    access_token_secret: access_token_secret@,
                    cached_at: now,
                },
            ),
            final(self).max_age_v() == old(self).max_age_v(),
            final(self).max_item_v() == old(self).max_item_v(),
    {
        let ghost s0 = self.entries_view();
        self.remove_key(user_id);
        let ghost s1 = self.entries_view();
        let data = CacheData::new(access_token, access_token_secret, now);
        let ghost e = data@;
        self.entries.push((user_id, data));
        proof {
            let s2 = self.entries_view();
            assert(s2 =~= s1.push((user_id, e)));
            assert(s2.drop_last() =~= s1);
            assert(self@ == cache_map_of(s1).insert(user_id, e));
            assert(cache_map_of(s0).remove(user_id).insert(user_id, e) =~= cache_map_of(
                s0,
            ).insert(user_id, e));
            // Uniqueness: the removed table has no entry for user_id.
            assert forall|a: int, b: int| 0 <= a < b < s2.len() implies s2[a].0 != s2[b].0 by {
                if b == s2.len() - 1 {
                    if s1[a].0 == user_id {
                        lemma_cache_map_domain(s1, user_id);
                    }
                }
            }
        }
    }

    /// Store or overwrite a user's pair at the current time.
    pub fn add(&mut self, user_id: u64, access_token: Vec<u8>, access_token_secret: Vec<u8>)
        requires
            old(self).wf(),
        ensures
            final(self).wf(),
            exists|t: u64|
                final(self)@ == old(self)@.insert(
                    user_id,
                    CacheEntry {
                        access_token: access_token@,
                        access_token_secret: access_token_secret@,
                        cached_at: t,
                    },
                ),
            final(self).max_age_v() == old(self).max_age_v(),
            final(self).max_item_v() == old(self).max_item_v(),
    {
        let now = crate::signer::unix_time_seconds();
        self.insert_at(user_id, access_token, access_token_secret, now);
    }

    /// Drop a user's entry; purging an absent key changes nothing and is
    /// not an error.
    pub fn purge(&mut self, user_id: u64)
        requires
            old(self).wf(),
        ensures
            final(self).wf(),
            final(self)@ == old(self)@.remove(user_id),
            final(self).max_age_v() == old(self).max_age_v(),
            final(self).max_item_v() == old(self).max_item_v(),
    {
        self.remove_key(user_id);
    }

    /// Evict every entry whose age exceeds `max_age` at time `now`, then
    /// shrink backing storage toward the item cap.  Fresh entries are kept
    /// even when the cap is exceeded.
    pub fn sweep_at(&mut self, now: u64)
        requires
            old(self).wf(),
        ensures
            final(self).wf(),
            swept(old(self)@, final(self)@, now, old(self).max_age_v()),
            final(self).max_age_v() == old(self).max_age_v(),
            final(self).max_item_v() == old(self).max_item_v(),
    {
        let ghost s = self.entries_view();
        let n = self.entries.len();
        let max_age = self.max_age;
        let mut out: Vec<(u64, CacheData)> = Vec::new();
        let mut i: usize = 0;
        proof {
            assert(s.take(0) =~= Seq::<(u64, CacheEntry)>::empty());
            assert(entry_views(out@) =~= Seq::<(
                u64,
                CacheEntry,
            )>::empty());
        }
        while i < n
            invariant
                n == self.entries@.len(),
                i <= n,
                s == self.entries_view(),
                n == s.len(),
                max_age == self.max_age_v(),
                forall|a: int, b: int| 0 <= a < b < s.len() ==> s[a].0 != s[b].0,
                forall|k: u64|
                    cache_map_of(entry_views(out@)).contains_key(
                        k,
                    ) <==> (cache_map_of(s.take(i as int)).contains_key(k) && fresh_at(
                        cache_map_of(s.take(i as int))[k],
                        now,
                        max_age,
                    )),
                forall|k: u64|
                    cache_map_of(entry_views(out@)).contains_key(
                        k,
                    ) ==> cache_map_of(entry_views(out@))[k]
                        == cache_map_of(s.take(i as int))[k],
                forall|a: int, b: int|
                    0 <= a < b < entry_views(out@).len() ==> entry_views(out@)[a].0
                        != entry_views(out@)[b].0,
                forall|a: int|
                    0 <= a < entry_views(out@).len() ==> exists|j: int|
                        0 <= j < i && (#[trigger] entry_views(out@)[a]).0 == s[j].0,
            decreases n - i,
        {
            let ghost ov = entry_views(out@);
            proof {
                assert(s.take(i as int + 1).drop_last() =~= s.take(i as int));
                assert(s.take(i as int + 1).last() == s[i as int]);
                assert(s[i as int] == (self.entries@[i as int].0, self.entries@[i as int].1@));
            }
            let cached_at = self.entries[i].1.cached_at;
            let keep = cached_at >= now || now - cached_at <= max_age;
            proof {
                assert(keep == fresh_at(s[i as int].1, now, max_age));
            }
            if keep {
                let entry = self.entries[i].1.duplicate();
                let key = self.entries[i].0;
                out.push((key, entry));
                proof {
                    let ov2 = entry_views(out@);
                    assert(ov2 =~= ov.push(s[i as int]));
                    assert(ov2.drop_last() =~= ov);
                    assert forall|a: int| 0 <= a < ov.len() implies ov[a].0 != s[i as int].0 by {
                        let j = choose|j: int| 0 <= j < i && (#[trigger] ov[a]).0 == s[j].0;
                        assert(s[j].0 != s[i as int].0);
                    }
                    assert(cache_map_of(ov2) == cache_map_of(ov).insert(
                        s[i as int].0,
                        s[i as int].1,
                    ));
                    // The key being kept was not in the prefix map, keys
                    // being unique, so insertion affects it alone.
                    lemma_cache_map_domain(s.take(i as int), s[i as int].0);
                }
            } else {
                proof {
                    lemma_cache_map_domain(s.take(i as int), s[i as int].0);
                }
            }
            i += 1;
        }
        proof {
            assert(s.take(n as int) =~= s);
        }
        self.entries = out;
        shrink_storage(&mut self.entries, self.max_item);
    }

    /// Evict aged-out entries as of the current time.
    pub fn clean_up(&mut self)
        requires
            old(self).wf(),
        ensures
            final(self).wf(),
            exists|now: u64| swept(old(self)@, final(self)@, now, old(self).max_age_v()),
            final(self).max_age_v() == old(self).max_age_v(),
            final(self).max_item_v() == old(self).max_item_v(),
    {
        let now = crate::signer::unix_time_seconds();
        self.sweep_at(now);
    }
}

/// Purging is idempotent: `purge` leaves the table as the mapping with the
/// key removed, and removing an absent key changes nothing, so purging the
/// same user again leaves the table exactly as the first purge left it.
pub proof fn lemma_purge_idempotent(m: Map<u64, CacheEntry>, user_id: u64)
    ensures
        m.remove(user_id).remove(user_id) == m.remove(user_id),
{
    assert(m.remove(user_id).remove(user_id) =~= m.remove(user_id));
}

/// The lifetime of a cached entry: lookups return it as long as no sweep
/// has run past its age bound, a sweep at or before `cached_at + max_age`
/// keeps it untouched, and any later sweep removes it.
pub proof fn lemma_entry_lifetime(
    before: Map<u64, CacheEntry>,
    after: Map<u64, CacheEntry>,
    user_id: u64,
    e: CacheEntry,
    now: u64,
    max_age: u64,
)
    requires
        before.contains_key(user_id),
        before[user_id] == e,
        swept(before, after, now, max_age),
    ensures
        now <= e.cached_at + max_age ==> after.contains_key(user_id) && after[user_id] == e,
        now > e.cached_at + max_age ==> !after.contains_key(user_id),
{
}

/// A key is in the denoted mapping exactly when some entry holds it.
pub proof fn lemma_cache_map_domain(s: Seq<(u64, CacheEntry)>, k: u64)
    ensures
        cache_map_of(s).contains_key(k) <==> exists|i: int| 0 <= i < s.len() && s[i].0 == k,
    decreases s.len(),
{
    if s.len() > 0 {
        lemma_cache_map_domain(s.drop_last(), k);
        if cache_map_of(s).contains_key(k) && s.last().0 != k {
            let i = choose|i: int| 0 <= i < s.drop_last().len() && s.drop_last()[i].0 == k;
            assert(s[i].0 == k);
        }
        if exists|i: int| 0 <= i < s.len() && s[i].0 == k {
            let i = choose|i: int| 0 <= i < s.len() && s[i].0 == k;
            if i < s.len() - 1 {
                assert(s.drop_last()[i].0 == k);
            }
        }
    }
}

} // verus!
