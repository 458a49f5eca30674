//! An in-memory model of the key-value cache that backs the session store:
//! string keys, string values, and an absolute expiry second per entry.
//!
//! Time is explicit: every reading operation takes `now`, and an entry whose
//! expiry is not strictly in the future is treated exactly like a missing
//! one. The view of a cache is the map from keys to `(value, expiry)` pairs.

use vstd::prelude::*;

verus! {

struct CacheSlot {
    key: String,
    value: String,
    expires_at: u64,
}

/// The value under `k`, provided the entry is unexpired at `now`.
pub open spec fn live_value(
    m: Map<Seq<char>, (Seq<char>, u64)>,
    k: Seq<char>,
    now: u64,
) -> Option<Seq<char>> {
    if m.contains_key(k) && m[k].1 > now {
        Some(m[k].0)
    } else {
        None
    }
}

/// Seconds until the entry under `k` expires; zero if there is none.
pub open spec fn remaining_ttl(m: Map<Seq<char>, (Seq<char>, u64)>, k: Seq<char>, now: u64) -> u64 {
    if m.contains_key(k) && m[k].1 > now {
        (m[k].1 - now) as u64
    } else {
        0
    }
}

spec fn map_of(s: Seq<CacheSlot>) -> Map<Seq<char>, (Seq<char>, u64)>
    decreases s.len(),
{
    if s.len() == 0 {
        Map::empty()
    } else {
        map_of(s.drop_last()).insert(s.last().key@, (s.last().value@, s.last().expires_at))
    }
}

spec fn distinct_keys(s: Seq<CacheSlot>) -> bool {
    forall|i: int, j: int| 0 <= i < j < s.len() ==> s[i].key@ != s[j].key@
}

proof fn lemma_map_of_contains(s: Seq<CacheSlot>, k: Seq<char>)
    ensures
        map_of(s).contains_key(k) <==> (exists|i: int| 0 <= i < s.len() && s[i].key@ == k),
    decreases s.len(),
{
    if s.len() > 0 {
        lemma_map_of_contains(s.drop_last(), k);
        if map_of(s).contains_key(k) {
            if s.last().key@ == k {
                assert(s[s.len() - 1].key@ == k);
            } else {
                let i = choose|i: int| 0 <= i < s.drop_last().len() && s.drop_last()[i].key@ == k;
                assert(s[i].key@ == k);
            }
        }
        if exists|i: int| 0 <= i < s.len() && s[i].key@ == k {
            let i = choose|i: int| 0 <= i < s.len() && s[i].key@ == k;
            if i < s.len() - 1 {
                assert(s.drop_last()[i].key@ == k);
            }
        }
    }
}

proof fn lemma_map_of_index(s: Seq<CacheSlot>, i: int)
    requires
        distinct_keys(s),
        0 <= i < s.len(),
    ensures
        map_of(s).contains_key(s[i].key@),
        map_of(s)[s[i].key@] == (s[i].value@, s[i].expires_at),
    decreases s.len(),
{
    if i == s.len() - 1 {
    } else {
        lemma_map_of_index(s.drop_last(), i);
        assert(s.drop_last()[i] == s[i]);
    }
}

proof fn lemma_map_of_remove(s: Seq<CacheSlot>, i: int)
    requires
        distinct_keys(s),
        0 <= i < s.len(),
    ensures
        map_of(s.remove(i)) =~= map_of(s).remove(s[i].key@),
    decreases s.len(),
{
    let k = s[i].key@;
    if i == s.len() - 1 {
        assert(s.remove(i) =~= s.drop_last());
        lemma_map_of_contains(s.drop_last(), k);
        assert(!map_of(s.drop_last()).contains_key(k));
    } else {
        let t = s.drop_last();
        lemma_map_of_remove(t, i);
        assert(s.remove(i).drop_last() =~= t.remove(i));
        assert(s.remove(i).last() == s.last());
    }
}

/// A key-value cache with per-entry expiry, modelled as a map from keys to
/// `(value, expiry)` pairs.
pub struct TtlCache {
    slots: Vec<CacheSlot>,
}

impl TtlCache {
    /// The map this cache holds.
    pub closed spec fn view(&self) -> Map<Seq<char>, (Seq<char>, u64)> {
        map_of(self.slots@)
    }

    /// Internal well-formedness: no key occurs twice.
    pub closed spec fn wf(&self) -> bool {
        distinct_keys(self.slots@)
    }

    /// An empty cache.
    pub fn new() -> (r: TtlCache)
        ensures
            r.wf(),
            r@ == Map::<Seq<char>, (Seq<char>, u64)>::empty(),
    {
        TtlCache { slots: Vec::new() }
    }

    fn find_idx(&self, key: &String) -> (r: Option<usize>)
        ensures
            match r {
                Some(i) => i < self.slots@.len() && self.slots@[i as int].key@ == key@,
                None => forall|j: int| 0 <= j < self.slots@.len() ==> self.slots@[j].key@ != key@,
            },
    {
        let n = self.slots.len();
        let mut i: usize = 0;
        while i < n
            invariant
                i <= n,
                n == self.slots@.len(),
                forall|j: int| 0 <= j < i ==> self.slots@[j].key@ != key@,
            decreases n - i,
        {
            if self.slots[i].key == *key {
                return Some(i);
            }
            i += 1;
        }
        None
    }

    /// `get(key)` at time `now`: the stored value, unless the entry is
    /// missing or expired.
    pub fn get(&self, key: &str, now: u64) -> (r: Option<String>)
        requires
            self.wf(),
        ensures
            match r {
                Some(v) => live_value(self@, key@, now) == Some(v@),
                None => live_value(self@, key@, now) is None,
            },
    {
        let owned = key.to_owned();
        match self.find_idx(&owned) {
            Some(i) => {
                proof {
                    lemma_map_of_index(self.slots@, i as int);
                }
                if self.slots[i].expires_at > now {
                    Some(self.slots[i].value.clone())
                } else {
                    None
                }
            },
            None => {
                proof {
                    lemma_map_of_contains(self.slots@, key@);
                }
                None
            },
        }
    }

    /// `time-to-live(key)` at time `now`: seconds until expiry, zero for a
    /// missing or expired entry.
    pub fn ttl(&self, key: &str, now: u64) -> (r: u64)
        requires
            self.wf(),
        ensures
            r == remaining_ttl(self@, key@, now),
    {
        let owned = key.to_owned();
        match self.find_idx(&owned) {
            Some(i) => {
                proof {
                    lemma_map_of_index(self.slots@, i as int);
                }
                if self.slots[i].expires_at > now {
                    self.slots[i].expires_at - now
                } else {
                    0
                }
            },
            None => {
                proof {
                    lemma_map_of_contains(self.slots@, key@);
                }
                0
            },
        }
    }

    /// `set-with-expiry(key, value, ttl)` at time `now`: binds `key` to
    /// `value` until second `now + ttl`, replacing any previous entry.
    pub fn set_ex(&mut self, key: &str, value: &str, ttl: u64, now: u64)
        requires
            old(self).wf(),
            now + ttl <= u64::MAX,
        ensures
            final(self).wf(),
            final(self)@ == old(self)@.insert(key@, (value@, (now + ttl) as u64)),
    {
        let owned = key.to_owned();
        if let Some(i) = self.find_idx(&owned) {
            proof {
                lemma_map_of_remove(self.slots@, i as int);
            }
            let ghost before = self.slots@;
            self.slots.remove(i);
            proof {
                assert forall|j: int| 0 <= j < self.slots@.len() implies self.slots@[j].key@
                    != key@ by {
                    if j < i {
                        assert(self.slots@[j] == before[j]);
                    } else {
                        assert(self.slots@[j] == before[j + 1]);
                    }
                }
                assert forall|a: int, b: int|
                    0 <= a < b < self.slots@.len() implies self.slots@[a].key@
                    != self.slots@[b].key@ by {
                    assert(self.slots@[a] == if a < i {
                        before[a]
                    } else {
                        before[a + 1]
                    });
                    assert(self.slots@[b] == if b < i {
                        before[b]
                    } else {
                        before[b + 1]
                    });
                }
            }
        }
        let ghost mid = self.slots@;
        self.slots.push(CacheSlot { key: owned, value: value.to_owned(), expires_at: now + ttl });
        proof {
            assert(self.slots@.drop_last() =~= mid);
            assert(map_of(self.slots@) =~= map_of(mid).insert(key@, (value@, (now + ttl) as u64)));
            assert(map_of(mid).insert(key@, (value@, (now + ttl) as u64)) =~= old(
                self,
            )@.insert(key@, (value@, (now + ttl) as u64))) by {
                lemma_map_of_contains(mid, key@);
            }
        }
    }

    /// `delete(key)`: removes the entry if present.
    pub fn del(&mut self, key: &str)
        requires
            old(self).wf(),
        ensures
            final(self).wf(),
            final(self)@ == old(self)@.remove(key@),
    {
        let owned = key.to_owned();
        if let Some(i) = self.find_idx(&owned) {
            proof {
                lemma_map_of_remove(self.slots@, i as int);
            }
            let ghost before = self.slots@;
            self.slots.remove(i);
            proof {
                assert forall|a: int, b: int|
                    0 <= a < b < self.slots@.len() implies self.slots@[a].key@
                    != self.slots@[b].key@ by {
                    assert(self.slots@[a] == if a < i {
                        before[a]
                    } else {
                        before[a + 1]
                    });
                    assert(self.slots@[b] == if b < i {
                        before[b]
                    } else {
                        before[b + 1]
                    });
                }
            }
        } else {
            proof {
                lemma_map_of_contains(self.slots@, key@);
                assert(old(self)@.remove(key@) =~= old(self)@);
            }
        }
    }
}

} // verus!
