use vstd::prelude::*;

use crate::gemini::Request;

verus! {

/// What one cache entry denotes: the raw key URI, the serialized response
/// bytes, and the instant (in milliseconds) the entry expires.
pub struct EntryView {
    pub key: Seq<char>,
    pub value: Seq<u8>,
    pub expires: u64,
}

struct CacheEntry {
    key: Request,
    value: Vec<u8>,
    expires: u64,
}

/// The first entry bound to `key`.
pub open spec fn cache_lookup(s: Seq<EntryView>, key: Seq<char>) -> Option<EntryView>
    decreases s.len(),
{
    if s.len() == 0 {
        Option::None
    } else if s[0].key == key {
        Option::Some(s[0])
    } else {
        cache_lookup(s.skip(1), key)
    }
}

/// Every entry bound to `key` dropped.
pub open spec fn remove_key(s: Seq<EntryView>, key: Seq<char>) -> Seq<EntryView>
    decreases s.len(),
{
    if s.len() == 0 {
        s
    } else if s[0].key == key {
        remove_key(s.skip(1), key)
    } else {
        seq![s[0]] + remove_key(s.skip(1), key)
    }
}

/// Every entry whose expiry lies before `now` dropped.
pub open spec fn drop_expired(s: Seq<EntryView>, now: u64) -> Seq<EntryView>
    decreases s.len(),
{
    if s.len() == 0 {
        s
    } else if s[0].expires < now {
        drop_expired(s.skip(1), now)
    } else {
        seq![s[0]] + drop_expired(s.skip(1), now)
    }
}

/// How many entries expire before `now`.
pub open spec fn count_expired(s: Seq<EntryView>, now: u64) -> int
    decreases s.len(),
{
    if s.len() == 0 {
        0int
    } else if s[0].expires < now {
        1 + count_expired(s.skip(1), now)
    } else {
        count_expired(s.skip(1), now)
    }
}

/// No two entries share a key.
pub open spec fn unique_keys(s: Seq<EntryView>) -> bool {
    forall|i: int, j: int| 0 <= i < j < s.len() ==> s[i].key != s[j].key
}

/// The effect of an insert on the cache model: any entry under the key
/// goes, and the new entry is appended.
pub open spec fn insert_model(
    s: Seq<EntryView>,
    key: Seq<char>,
    value: Seq<u8>,
    expires: u64,
) -> Seq<EntryView> {
    remove_key(s, key).push(EntryView { key, value, expires })
}

/// A TTL cache from requests to serialized response bytes. It is bounded
/// in time, not in size: entries leave only through `clean_up`, `remove`
/// or `clear`. The caller supplies the clock as a millisecond count.
pub struct Cache {
    entries: Vec<CacheEntry>,
}

impl View for Cache {
    type V = Seq<EntryView>;

    closed spec fn view(&self) -> Seq<EntryView> {
        self.entries@.map_values(
            |e: CacheEntry| EntryView { key: e.key@.raw, value: e.value@, expires: e.expires },
        )
    }
}

impl Cache {
    /// Create a new, empty cache.
    pub fn new() -> (r: Cache)
        ensures
            r@ == Seq::<EntryView>::empty(),
    {
        let c = Cache { entries: Vec::new() };
        proof {
            assert(c@ =~= Seq::<EntryView>::empty());
        }
        c
    }

    /// Check if the cache holds an entry for the key.
    pub fn contains_key(&self, key: &Request) -> (r: bool)
        ensures
            r == (cache_lookup(self@, key@.raw) is Some),
    {
        self.get(key).is_some()
    }

    /// Get an entry from the cache. Expiry is not consulted: an expired
    /// entry stays visible until `clean_up` sweeps it.
    pub fn get(&self, key: &Request) -> (r: Option<&Vec<u8>>)
        ensures
            r is Some <==> cache_lookup(self@, key@.raw) is Some,
            r is Some ==> r.unwrap()@ == cache_lookup(self@, key@.raw).unwrap().value,
    {
        proof {
            assert(self@.skip(0) =~= self@);
        }
        let mut i: usize = 0;
        while i < self.entries.len()
            invariant
                i <= self.entries@.len(),
                self@ == self.entries@.map_values(
                    |e: CacheEntry| EntryView {
                        key: e.key@.raw,
                        value: e.value@,
                        expires: e.expires,
                    },
                ),
                cache_lookup(self@, key@.raw) == cache_lookup(self@.skip(i as int), key@.raw),
            decreases self.entries@.len() - i,
        {
            proof {
                assert(self@.skip(i as int)[0] == self@[i as int]);
                assert(self@.skip(i as int).skip(1) =~= self@.skip(i + 1));
            }
            if *key == self.entries[i].key {
                return Some(&self.entries[i].value);
            }
            i = i + 1;
        }
        proof {
            assert(self@.skip(self@.len() as int).len() == 0);
        }
        None
    }

    /// Insert an entry with a lifetime in milliseconds: any prior entry for
    /// the key is replaced and its expiry reset.
    pub fn insert(&mut self, key: Request, value: Vec<u8>, lifetime: u64, now: u64)
        requires
            now + lifetime <= u64::MAX,
        ensures
            final(self)@ == insert_model(old(self)@, key@.raw, value@, (now + lifetime) as u64),
    {
        self.remove(&key);
        let ghost removed = self@;
        self.entries.push(CacheEntry { key, value, expires: now + lifetime });
        proof {
            assert(self@ =~= removed.push(
                EntryView { key: key@.raw, value: value@, expires: (now + lifetime) as u64 },
            ));
        }
    }

    /// Remove the entry for a key, if one is there.
    pub fn remove(&mut self, key: &Request)
        ensures
            final(self)@ == remove_key(old(self)@, key@.raw),
    {
        let ghost s0 = self@;
        let mut kept: Vec<CacheEntry> = Vec::new();
        proof {
            assert(s0.skip(0) =~= s0);
            assert(kept@.map_values(
                |e: CacheEntry| EntryView { key: e.key@.raw, value: e.value@, expires: e.expires },
            ) =~= Seq::<EntryView>::empty());
        }
        let n = self.entries.len();
        let mut i: usize = 0;
        while i < n
            invariant
                i <= n,
                n == self.entries@.len(),
                s0 == self.entries@.map_values(
                    |e: CacheEntry| EntryView {
                        key: e.key@.raw,
                        value: e.value@,
                        expires: e.expires,
                    },
                ),
                remove_key(s0, key@.raw) == kept@.map_values(
                    |e: CacheEntry| EntryView {
                        key: e.key@.raw,
                        value: e.value@,
                        expires: e.expires,
                    },
                ) + remove_key(s0.skip(i as int), key@.raw),
            decreases n - i,
        {
            let ghost kv = kept@.map_values(
                |e: CacheEntry| EntryView { key: e.key@.raw, value: e.value@, expires: e.expires },
            );
            proof {
                assert(s0.skip(i as int)[0] == s0[i as int]);
                assert(s0.skip(i as int).skip(1) =~= s0.skip(i + 1));
            }
            let e = &self.entries[i];
            if !(*key == e.key) {
                let moved = CacheEntry { key: e.key.clone(), value: e.value.clone(), expires: e.expires };
                proof {
                    assert(forall|j: int|
                        0 <= j < moved.value@.len() ==> cloned::<u8>(e.value@[j], moved.value@[j]));
                    assert(moved.value@ =~= e.value@);
                }
                kept.push(moved);
                proof {
                    assert(kept@.map_values(
                        |e: CacheEntry| EntryView {
                            key: e.key@.raw,
                            value: e.value@,
                            expires: e.expires,
                        },
                    ) =~= kv.push(s0[i as int]));
                    assert(remove_key(s0.skip(i as int), key@.raw) == seq![s0[i as int]]
                        + remove_key(s0.skip(i + 1), key@.raw));
                    assert(kv.push(s0[i as int]) + remove_key(s0.skip(i + 1), key@.raw) =~= kv + (
                    seq![s0[i as int]] + remove_key(s0.skip(i + 1), key@.raw)));
                }
            }
            i = i + 1;
        }
        proof {
            assert(remove_key(s0.skip(n as int), key@.raw) == Seq::<EntryView>::empty());
            assert(remove_key(s0, key@.raw) =~= kept@.map_values(
                |e: CacheEntry| EntryView { key: e.key@.raw, value: e.value@, expires: e.expires },
            ));
        }
        self.entries = kept;
    }

    /// Clean up the entries that have expired before `now` and say how
    /// many were removed.
    pub fn clean_up(&mut self, now: u64) -> (r: usize)
        ensures
            final(self)@ == drop_expired(old(self)@, now),
            r == count_expired(old(self)@, now),
    {
        let ghost s0 = self@;
        let mut kept: Vec<CacheEntry> = Vec::new();
        let mut removed: usize = 0;
        proof {
            assert(s0.skip(0) =~= s0);
            assert(kept@.map_values(
                |e: CacheEntry| EntryView { key: e.key@.raw, value: e.value@, expires: e.expires },
            ) =~= Seq::<EntryView>::empty());
            lemma_count_expired_bound(s0, now);
        }
        let n = self.entries.len();
        let mut i: usize = 0;
        while i < n
            invariant
                i <= n,
                removed <= i,
                n == self.entries@.len(),
                s0 == self.entries@.map_values(
                    |e: CacheEntry| EntryView {
                        key: e.key@.raw,
                        value: e.value@,
                        expires: e.expires,
                    },
                ),
                drop_expired(s0, now) == kept@.map_values(
                    |e: CacheEntry| EntryView {
                        key: e.key@.raw,
                        value: e.value@,
                        expires: e.expires,
                    },
                ) + drop_expired(s0.skip(i as int), now),
                count_expired(s0, now) == removed + count_expired(s0.skip(i as int), now),
            decreases n - i,
        {
            let ghost kv = kept@.map_values(
                |e: CacheEntry| EntryView { key: e.key@.raw, value: e.value@, expires: e.expires },
            );
            proof {
                assert(s0.skip(i as int)[0] == s0[i as int]);
                assert(s0.skip(i as int).skip(1) =~= s0.skip(i + 1));
                lemma_count_expired_bound(s0.skip(i as int), now);
            }
            let e = &self.entries[i];
            if e.expires < now {
                removed = removed + 1;
            } else {
                let moved = CacheEntry { key: e.key.clone(), value: e.value.clone(), expires: e.expires };
                proof {
                    assert(forall|j: int|
                        0 <= j < moved.value@.len() ==> cloned::<u8>(e.value@[j], moved.value@[j]));
                    assert(moved.value@ =~= e.value@);
                }
                kept.push(moved);
                proof {
                    assert(kept@.map_values(
                        |e: CacheEntry| EntryView {
                            key: e.key@.raw,
                            value: e.value@,
                            expires: e.expires,
                        },
                    ) =~= kv.push(s0[i as int]));
                    assert(kv.push(s0[i as int]) + drop_expired(s0.skip(i + 1), now) =~= kv + (seq![
                        s0[i as int],
                    ] + drop_expired(s0.skip(i + 1), now)));
                }
            }
            i = i + 1;
        }
        proof {
            assert(drop_expired(s0.skip(n as int), now) == Seq::<EntryView>::empty());
            assert(count_expired(s0.skip(n as int), now) == 0);
            assert(drop_expired(s0, now) =~= kept@.map_values(
                |e: CacheEntry| EntryView { key: e.key@.raw, value: e.value@, expires: e.expires },
            ));
        }
        self.entries = kept;
        removed
    }

    /// Remove all entries from the cache.
    pub fn clear(&mut self)
        ensures
            final(self)@ == Seq::<EntryView>::empty(),
    {
        self.entries = Vec::new();
        proof {
            assert(self@ =~= Seq::<EntryView>::empty());
        }
    }

    /// Check if the cache is empty.
    pub fn is_empty(&self) -> (r: bool)
        ensures
            r == (self@.len() == 0),
    {
        self.entries.len() == 0
    }

    /// Get the number of entries in the cache.
    pub fn len(&self) -> (r: usize)
        ensures
            r == self@.len(),
    {
        self.entries.len()
    }
}

/// Removing a key keeps a subsequence: every remaining key was there, and
/// the removed key is gone.
proof fn lemma_remove_key_subset(s: Seq<EntryView>, key: Seq<char>)
    ensures
        forall|i: int|
            0 <= i < remove_key(s, key).len() ==> #[trigger] remove_key(s, key)[i].key != key
                && exists|j: int| 0 <= j < s.len() && s[j] == remove_key(s, key)[i],
        remove_key(s, key).len() <= s.len(),
    decreases s.len(),
{
    if s.len() > 0 {
        lemma_remove_key_subset(s.skip(1), key);
        assert forall|i: int|
            0 <= i < remove_key(s, key).len() implies #[trigger] remove_key(s, key)[i].key != key
            && exists|j: int| 0 <= j < s.len() && s[j] == remove_key(s, key)[i] by {
            if s[0].key == key {
                assert(remove_key(s, key)[i] == remove_key(s.skip(1), key)[i]);
                assert(remove_key(s.skip(1), key)[i].key != key);
                let j = choose|j: int|
                    0 <= j < s.skip(1).len() && s.skip(1)[j] == remove_key(s.skip(1), key)[i];
                assert(s.skip(1)[j] == s[j + 1]);
            } else {
                if i > 0 {
                    assert(remove_key(s, key)[i] == (seq![s[0]] + remove_key(s.skip(1), key))[i]);
                    assert(remove_key(s, key)[i] == remove_key(s.skip(1), key)[i - 1]);
                    assert(remove_key(s.skip(1), key)[i - 1].key != key);
                    let j = choose|j: int|
                        0 <= j < s.skip(1).len() && s.skip(1)[j] == remove_key(s.skip(1), key)[i
                            - 1];
                    assert(s.skip(1)[j] == s[j + 1]);
                } else {
                    assert(remove_key(s, key)[0] == s[0]);
                }
            }
        }
    }
}

proof fn lemma_count_expired_bound(s: Seq<EntryView>, now: u64)
    ensures
        0 <= count_expired(s, now) <= s.len(),
    decreases s.len(),
{
    if s.len() > 0 {
        lemma_count_expired_bound(s.skip(1), now);
    }
}

/// Sweeping keeps a subsequence, so unique keys stay unique.
proof fn lemma_drop_expired_unique(s: Seq<EntryView>, now: u64)
    requires
        unique_keys(s),
    ensures
        unique_keys(drop_expired(s, now)),
        forall|i: int|
            0 <= i < drop_expired(s, now).len() ==> exists|j: int|
                0 <= j < s.len() && s[j] == #[trigger] drop_expired(s, now)[i],
    decreases s.len(),
{
    if s.len() > 0 {
        assert(forall|i: int, j: int|
            0 <= i < j < s.skip(1).len() ==> s.skip(1)[i].key != s.skip(1)[j].key);
        lemma_drop_expired_unique(s.skip(1), now);
        let d = drop_expired(s, now);
        assert forall|i: int|
            0 <= i < d.len() implies exists|j: int| 0 <= j < s.len() && s[j] == #[trigger] d[i] by {
            if s[0].expires < now {
                let j = choose|j: int|
                    0 <= j < s.skip(1).len() && s.skip(1)[j] == drop_expired(s.skip(1), now)[i];
                assert(s[j + 1] == d[i]);
            } else {
                if i > 0 {
                    let j = choose|j: int|
                        0 <= j < s.skip(1).len() && s.skip(1)[j] == drop_expired(s.skip(1), now)[i
                            - 1];
                    assert(s[j + 1] == d[i]);
                } else {
                    assert(s[0] == d[0]);
                }
            }
        }
        if s[0].expires >= now {
            assert forall|a: int, b: int| 0 <= a < b < d.len() implies d[a].key != d[b].key by {
                if a == 0 {
                    let j = choose|j: int|
                        0 <= j < s.skip(1).len() && s.skip(1)[j] == drop_expired(s.skip(1), now)[b
                            - 1];
                    assert(s[j + 1] == d[b]);
                    assert(s[0].key != s[j + 1].key);
                }
            }
        }
    }
}

/// An entry just inserted is what an immediate lookup returns.
pub proof fn lemma_cache_insert_get(s: Seq<EntryView>, key: Seq<char>, value: Seq<u8>, expires: u64)
    ensures
        cache_lookup(insert_model(s, key, value, expires), key) == Some(
            EntryView { key, value, expires },
        ),
{
    lemma_remove_key_subset(s, key);
    lemma_lookup_pushed(remove_key(s, key), key, EntryView { key, value, expires });
}

proof fn lemma_lookup_pushed(s: Seq<EntryView>, key: Seq<char>, e: EntryView)
    requires
        forall|i: int| 0 <= i < s.len() ==> #[trigger] s[i].key != key,
        e.key == key,
    ensures
        cache_lookup(s.push(e), key) == Some(e),
    decreases s.len(),
{
    if s.len() == 0 {
        assert(s.push(e)[0] == e);
    } else {
        assert(s.push(e)[0] == s[0]);
        assert(s.push(e).skip(1) =~= s.skip(1).push(e));
        assert(forall|i: int| 0 <= i < s.skip(1).len() ==> #[trigger] s.skip(1)[i].key != key);
        lemma_lookup_pushed(s.skip(1), key, e);
    }
}

/// After a sweep at `now`, an entry that had expired before `now` cannot be
/// looked up any more, and the sweep reported at least one removal.
pub proof fn lemma_cache_cleanup_expired(s: Seq<EntryView>, now: u64, key: Seq<char>)
    requires
        unique_keys(s),
        cache_lookup(s, key) is Some,
        cache_lookup(s, key).unwrap().expires < now,
    ensures
        cache_lookup(drop_expired(s, now), key) is None,
        count_expired(s, now) >= 1,
    decreases s.len(),
{
    lemma_count_expired_bound(s.skip(1), now);
    if s[0].key == key {
        let d1 = drop_expired(s.skip(1), now);
        lemma_drop_subset_keys(s.skip(1), now);
        assert forall|i: int| 0 <= i < d1.len() implies #[trigger] d1[i].key != key by {
            let j = choose|j: int| 0 <= j < s.skip(1).len() && s.skip(1)[j] == d1[i];
            assert(s[j + 1] == d1[i]);
            assert(s[0].key != s[j + 1].key);
        }
        lemma_lookup_no_key(d1, key);
    } else {
        assert(forall|i: int, j: int|
            0 <= i < j < s.skip(1).len() ==> s.skip(1)[i].key != s.skip(1)[j].key);
        lemma_cache_cleanup_expired(s.skip(1), now, key);
        if s[0].expires >= now {
            let d = drop_expired(s, now);
            assert(d[0] == s[0]);
            assert(d.skip(1) =~= drop_expired(s.skip(1), now));
        }
    }
}

/// A sweep at an instant no entry has expired by removes nothing.
pub proof fn lemma_cache_cleanup_fresh(s: Seq<EntryView>, now: u64)
    requires
        forall|i: int| 0 <= i < s.len() ==> #[trigger] s[i].expires >= now,
    ensures
        drop_expired(s, now) == s,
        count_expired(s, now) == 0,
    decreases s.len(),
{
    if s.len() > 0 {
        assert(forall|i: int| 0 <= i < s.skip(1).len() ==> #[trigger] s.skip(1)[i].expires >= now);
        lemma_cache_cleanup_fresh(s.skip(1), now);
        assert(seq![s[0]] + s.skip(1) =~= s);
    }
}

/// A removed key is gone: neither a lookup nor a later sweep can see it.
pub proof fn lemma_cache_remove_gone(s: Seq<EntryView>, key: Seq<char>, now: u64)
    ensures
        cache_lookup(remove_key(s, key), key) is None,
        cache_lookup(drop_expired(remove_key(s, key), now), key) is None,
{
    lemma_remove_key_subset(s, key);
    lemma_lookup_no_key(remove_key(s, key), key);
    lemma_drop_subset_keys(remove_key(s, key), now);
    lemma_lookup_no_key(drop_expired(remove_key(s, key), now), key);
}

proof fn lemma_lookup_no_key(s: Seq<EntryView>, key: Seq<char>)
    requires
        forall|i: int| 0 <= i < s.len() ==> #[trigger] s[i].key != key,
    ensures
        cache_lookup(s, key) is None,
    decreases s.len(),
{
    if s.len() > 0 {
        assert(forall|i: int| 0 <= i < s.skip(1).len() ==> #[trigger] s.skip(1)[i].key != key);
        lemma_lookup_no_key(s.skip(1), key);
    }
}

proof fn lemma_drop_subset_keys(s: Seq<EntryView>, now: u64)
    ensures
        forall|i: int|
            0 <= i < drop_expired(s, now).len() ==> exists|j: int|
                0 <= j < s.len() && s[j] == #[trigger] drop_expired(s, now)[i],
    decreases s.len(),
{
    if s.len() > 0 {
        lemma_drop_subset_keys(s.skip(1), now);
        let d = drop_expired(s, now);
        assert forall|i: int|
            0 <= i < d.len() implies exists|j: int| 0 <= j < s.len() && s[j] == #[trigger] d[i] by {
            if s[0].expires < now {
                let j = choose|j: int|
                    0 <= j < s.skip(1).len() && s.skip(1)[j] == drop_expired(s.skip(1), now)[i];
                assert(s[j + 1] == d[i]);
            } else {
                if i > 0 {
                    let j = choose|j: int|
                        0 <= j < s.skip(1).len() && s.skip(1)[j] == drop_expired(s.skip(1), now)[i
                            - 1];
                    assert(s[j + 1] == d[i]);
                } else {
                    assert(s[0] == d[0]);
                }
            }
        }
    }
}

/// Inserting keeps keys unique.
pub proof fn lemma_insert_unique(s: Seq<EntryView>, key: Seq<char>, value: Seq<u8>, expires: u64)
    requires
        unique_keys(s),
    ensures
        unique_keys(insert_model(s, key, value, expires)),
{
    lemma_remove_key_unique(s, key);
    lemma_remove_key_subset(s, key);
    let t = insert_model(s, key, value, expires);
    assert forall|a: int, b: int| 0 <= a < b < t.len() implies t[a].key != t[b].key by {
        if b == t.len() - 1 {
            assert(t[a] == remove_key(s, key)[a]);
        }
    }
}

/// Removing a key keeps keys unique.
pub proof fn lemma_remove_key_unique(s: Seq<EntryView>, key: Seq<char>)
    requires
        unique_keys(s),
    ensures
        unique_keys(remove_key(s, key)),
    decreases s.len(),
{
    if s.len() > 0 {
        assert(forall|i: int, j: int|
            0 <= i < j < s.skip(1).len() ==> s.skip(1)[i].key != s.skip(1)[j].key);
        lemma_remove_key_unique(s.skip(1), key);
        if s[0].key != key {
            let r = remove_key(s, key);
            lemma_remove_key_subset(s.skip(1), key);
            assert forall|a: int, b: int| 0 <= a < b < r.len() implies r[a].key != r[b].key by {
                assert(r == seq![s[0]] + remove_key(s.skip(1), key));
                if a == 0 {
                    assert(r[b] == remove_key(s.skip(1), key)[b - 1]);
                    assert(remove_key(s.skip(1), key)[b - 1].key != key && exists|j: int|
                        0 <= j < s.skip(1).len() && s.skip(1)[j] == remove_key(s.skip(1), key)[b
                            - 1]);
                    let j = choose|j: int|
                        0 <= j < s.skip(1).len() && s.skip(1)[j] == remove_key(s.skip(1), key)[b
                            - 1];
                    assert(s.skip(1)[j] == s[j + 1]);
                    assert(s[0].key != s[j + 1].key);
                } else {
                    assert(r[a] == remove_key(s.skip(1), key)[a - 1]);
                    assert(r[b] == remove_key(s.skip(1), key)[b - 1]);
                }
            }
        }
    }
}

/// Sweeping keeps keys unique.
pub proof fn lemma_cleanup_unique(s: Seq<EntryView>, now: u64)
    requires
        unique_keys(s),
    ensures
        unique_keys(drop_expired(s, now)),
{
    lemma_drop_expired_unique(s, now);
}

} // verus!
