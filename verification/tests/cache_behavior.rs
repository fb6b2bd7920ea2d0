use oauth1_client::cache::AccessTokenCache;

fn v(s: &str) -> Vec<u8> {
    s.as_bytes().to_vec()
}

const MAX_AGE: u64 = 86400;
const MAX_ITEM: usize = 1000;

#[test]
fn lookup_returns_inserted_pair() {
    let mut cache = AccessTokenCache::new(MAX_AGE, MAX_ITEM);
    assert!(cache.request(7).is_none());
    cache.insert_at(7, v("tok"), v("sec"), 1000);
    let hit = cache.request(7).unwrap();
    assert_eq!(hit.access_token, v("tok"));
    assert_eq!(hit.access_token_secret, v("sec"));
    assert!(cache.request(8).is_none());
}

#[test]
fn insert_overwrites_last_write_wins() {
    let mut cache = AccessTokenCache::new(MAX_AGE, MAX_ITEM);
    cache.insert_at(7, v("old"), v("olds"), 1000);
    cache.insert_at(7, v("new"), v("news"), 2000);
    let hit = cache.request(7).unwrap();
    assert_eq!(hit.access_token, v("new"));
    assert_eq!(hit.access_token_secret, v("news"));
}

#[test]
fn entry_lives_to_max_age_and_not_past_it() {
    let t: u64 = 1000;
    let mut cache = AccessTokenCache::new(MAX_AGE, MAX_ITEM);
    cache.insert_at(7, v("tok"), v("sec"), t);
    // A lookup just before the age bound still hits; the sweep keeps it.
    cache.sweep_at(t + MAX_AGE - 1);
    assert!(cache.request(7).is_some());
    cache.sweep_at(t + MAX_AGE);
    assert!(cache.request(7).is_some());
    // A sweep past the bound evicts it.
    cache.sweep_at(t + MAX_AGE + 1);
    assert!(cache.request(7).is_none());
}

#[test]
fn sweep_keeps_fresh_entries_beyond_cap() {
    let mut cache = AccessTokenCache::new(MAX_AGE, 1);
    cache.insert_at(1, v("a"), v("as"), 1000);
    cache.insert_at(2, v("b"), v("bs"), 1000);
    cache.sweep_at(1001);
    // The cap bounds capacity, not live entries.
    assert!(cache.request(1).is_some());
    assert!(cache.request(2).is_some());
}

#[test]
fn sweep_evicts_only_aged_entries() {
    let mut cache = AccessTokenCache::new(MAX_AGE, MAX_ITEM);
    cache.insert_at(1, v("a"), v("as"), 1000);
    cache.insert_at(2, v("b"), v("bs"), 90000);
    cache.sweep_at(1000 + MAX_AGE + 1);
    assert!(cache.request(1).is_none());
    assert!(cache.request(2).is_some());
}

#[test]
fn purge_is_idempotent() {
    let mut cache = AccessTokenCache::new(MAX_AGE, MAX_ITEM);
    cache.insert_at(7, v("tok"), v("sec"), 1000);
    cache.purge(7);
    assert!(cache.request(7).is_none());
    // Purging the absent key again is a no-op, not an error.
    cache.purge(7);
    assert!(cache.request(7).is_none());
}

#[test]
fn purge_leaves_other_users_alone() {
    let mut cache = AccessTokenCache::new(MAX_AGE, MAX_ITEM);
    cache.insert_at(1, v("a"), v("as"), 1000);
    cache.insert_at(2, v("b"), v("bs"), 1000);
    cache.purge(1);
    assert!(cache.request(1).is_none());
    assert!(cache.request(2).is_some());
}

#[test]
fn add_and_clean_up_use_the_clock() {
    let mut cache = AccessTokenCache::new(MAX_AGE, MAX_ITEM);
    cache.add(7, v("tok"), v("sec"));
    assert!(cache.request(7).is_some());
    // A fresh entry survives a sweep at the current time.
    cache.clean_up();
    assert!(cache.request(7).is_some());
}
