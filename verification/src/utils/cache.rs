//! A key-value cache whose entries expire a fixed time after they were written.
//!
//! Time is passed in by the caller as a reading of a monotonic clock, in any unit
//! (the same unit as the time to live); the cache itself never reads a clock.

use vstd::prelude::*;
use crate::utils::{duration_from_secs, duration_of_secs, pool_limits_error, validate_pool_limits};

verus! {

/// The time that has passed from `from` to `to` on a monotonic clock; a reading
/// taken before `from` counts as no time at all.
pub open spec fn elapsed(from: u128, to: u128) -> u128 {
    if to >= from {
        (to - from) as u128
    } else {
        0
    }
}

/// An entry written at `inserted_at` is still live at `now` when less than `ttl`
/// has elapsed since.
pub open spec fn is_live(inserted_at: u128, now: u128, ttl: u128) -> bool {
    elapsed(inserted_at, now) < ttl
}

/// Once an entry has expired it stays expired: liveness only ends as the clock
/// moves forward.
pub proof fn lemma_expiry_is_permanent(inserted_at: u128, now: u128, later: u128, ttl: u128)
    requires
        !is_live(inserted_at, now, ttl),
        now <= later,
    ensures
        !is_live(inserted_at, later, ttl),
{
}

struct CacheEntry<V> {
    key: String,
    value: V,
    inserted_at: u128,
}

/// A cache from string keys to values, each entry living for `ttl` after it was
/// written. The entries are kept in a vector that holds each key at most once;
/// a lookup scans it.
pub struct TtlCache<V: Clone> {
    store: Vec<CacheEntry<V>>,
    ttl: u128,
    model: Ghost<Map<Seq<char>, (V, u128)>>,
}

impl<V: Clone> View for TtlCache<V> {
    /// For each key, the value stored under it and the time it was written.
    type V = Map<Seq<char>, (V, u128)>;

    closed spec fn view(&self) -> Map<Seq<char>, (V, u128)> {
        self.model@
    }
}

impl<V: Clone> TtlCache<V> {
    /// How long an entry lives after it is written.
    pub closed spec fn time_to_live(self) -> u128 {
        self.ttl
    }

    /// The store holds each key once, and exactly the entries of the model.
    pub closed spec fn wf(self) -> bool {
        &&& forall|i: int, j: int|
            0 <= i < j < self.store@.len() ==> self.store@[i].key@ != self.store@[j].key@
        &&& forall|i: int|
            #![trigger self.store@[i]]
            0 <= i < self.store@.len() ==> {
                &&& self.model@.contains_key(self.store@[i].key@)
                &&& self.model@[self.store@[i].key@] == (
                    self.store@[i].value,
                    self.store@[i].inserted_at,
                )
            }
        &&& forall|k: Seq<char>|
            #[trigger] self.model@.contains_key(k) ==> exists|i: int|
                0 <= i < self.store@.len() && #[trigger] self.store@[i].key@ == k
    }

    /// What a read of `key` at time `now` answers: the stored value while its
    /// entry is live, nothing otherwise.
    pub open spec fn lookup(self, key: Seq<char>, now: u128) -> Option<V> {
        if self@.contains_key(key) && is_live(self@[key].1, now, self.time_to_live()) {
            Some(self@[key].0)
        } else {
            None
        }
    }

    /// An empty cache whose entries live for `ttl`.
    pub fn new(ttl: u128) -> (cache: Self)
        ensures
            cache.wf(),
            cache@ == Map::<Seq<char>, (V, u128)>::empty(),
            cache.time_to_live() == ttl,
    {
        TtlCache { store: Vec::new(), ttl, model: Ghost(Map::empty()) }
    }

    /// The index of the entry stored under `key`, if there is one.
    fn position(&self, key: &String) -> (pos: Option<usize>)
        requires
            self.wf(),
        ensures
            match pos {
                Some(i) => i < self.store@.len() && self.store@[i as int].key@ == key@,
                None => !self@.contains_key(key@),
            },
    {
        let mut i: usize = 0;
        while i < self.store.len()
            invariant
                self.wf(),
                i <= self.store@.len(),
                forall|j: int| 0 <= j < i ==> self.store@[j].key@ != key@,
            decreases self.store@.len() - i,
        {
            if self.store[i].key == *key {
                return Some(i);
            }
            i = i + 1;
        }
        None
    }

    /// The value stored under `key`, if its entry is still live at `now`.
    pub fn get(&self, key: &str, now: u128) -> (r: Option<V>)
        requires
            self.wf(),
        ensures
            r is Some <==> self.lookup(key@, now) is Some,
            r matches Some(v) ==> cloned(self@[key@].0, v),
    {
        let owned = key.to_owned();
        match self.position(&owned) {
            Some(i) => {
                let entry = &self.store[i];
                let age = if now >= entry.inserted_at {
                    now - entry.inserted_at
                } else {
                    0
                };
                if age < self.ttl {
                    Some(entry.value.clone())
                } else {
                    None
                }
            },
            None => None,
        }
    }

    /// Stores `value` under `key`, written at `now`, replacing what was there.
    pub fn set(&mut self, key: String, value: V, now: u128)
        requires
            old(self).wf(),
        ensures
            final(self).wf(),
            final(self)@ == old(self)@.insert(key@, (value, now)),
            final(self).time_to_live() == old(self).time_to_live(),
    {
        let ghost k = key@;
        let ghost new_model = self.model@.insert(k, (value, now));
        let pos = self.position(&key);
        let entry = CacheEntry { key, value, inserted_at: now };
        match pos {
            Some(i) => {
                self.store.set(i, entry);
            },
            None => {
                self.store.push(entry);
            },
        }
        self.model = Ghost(new_model);
        assert forall|kk: Seq<char>| #[trigger] self.model@.contains_key(kk) implies exists|j: int|
            0 <= j < self.store@.len() && #[trigger] self.store@[j].key@ == kk by {
            if kk == k {
                match pos {
                    Some(i) => assert(self.store@[i as int].key@ == kk),
                    None => assert(self.store@[self.store@.len() - 1].key@ == kk),
                }
            } else {
                assert(old(self).model@.contains_key(kk));
                let j = choose|j: int|
                    0 <= j < old(self).store@.len() && #[trigger] old(self).store@[j].key@ == kk;
                assert(self.store@[j].key@ == kk);
            }
        }
    }

    /// Removes the entry stored under `key`, if any.
    pub fn invalidate(&mut self, key: &str)
        requires
            old(self).wf(),
        ensures
            final(self).wf(),
            final(self)@ == old(self)@.remove(key@),
            final(self).time_to_live() == old(self).time_to_live(),
    {
        let owned = key.to_owned();
        let ghost new_model = self.model@.remove(key@);
        match self.position(&owned) {
            Some(i) => {
                let ghost before = self.store@;
                self.store.remove(i);
                self.model = Ghost(new_model);
                assert forall|kk: Seq<char>| #[trigger] self.model@.contains_key(kk) implies exists|j: int|
                    0 <= j < self.store@.len() && #[trigger] self.store@[j].key@ == kk by {
                    let j = choose|j: int|
                        0 <= j < before.len() && #[trigger] before[j].key@ == kk;
                    if j < i {
                        assert(self.store@[j].key@ == kk);
                    } else {
                        assert(self.store@[j - 1].key@ == kk);
                    }
                }
            },
            None => {
                self.model = Ghost(new_model);
                assert(self.model@ =~= old(self).model@);
            },
        }
    }

    /// Removes every entry.
    pub fn clear(&mut self)
        requires
            old(self).wf(),
        ensures
            final(self).wf(),
            final(self)@ == Map::<Seq<char>, (V, u128)>::empty(),
            final(self).time_to_live() == old(self).time_to_live(),
    {
        self.store.clear();
        self.model = Ghost(Map::empty());
    }

    proof fn lemma_kept_entries_well_formed(
        self,
        orig: Seq<CacheEntry<V>>,
        model: Map<Seq<char>, (V, u128)>,
        kept: Seq<CacheEntry<V>>,
        origin: Seq<int>,
        now: u128,
    )
        requires
            self.wf(),
            orig == self.store@,
            model == self.model@,
            origin.len() == kept.len(),
            forall|a: int|
                #![trigger origin[a]]
                0 <= a < origin.len() ==> {
                    &&& 0 <= origin[a] < orig.len()
                    &&& kept[a] == orig[origin[a]]
                    &&& is_live(orig[origin[a]].inserted_at, now, self.ttl)
                },
            forall|a: int, b: int| 0 <= a < b < origin.len() ==> origin[a] > origin[b],
            forall|i: int|
                #![trigger orig[i]]
                0 <= i < orig.len() && is_live(orig[i].inserted_at, now, self.ttl)
                    ==> exists|a: int| 0 <= a < origin.len() && #[trigger] origin[a] == i,
        ensures
            ({
                let new_model = model.restrict(
                    model.dom().filter(|k: Seq<char>| is_live(model[k].1, now, self.ttl)),
                );
                &&& forall|a: int, b: int|
                    0 <= a < b < kept.len() ==> kept[a].key@ != kept[b].key@
                &&& forall|a: int|
                    #![trigger kept[a]]
                    0 <= a < kept.len() ==> {
                        &&& new_model.contains_key(kept[a].key@)
                        &&& new_model[kept[a].key@] == (kept[a].value, kept[a].inserted_at)
                    }
                &&& forall|k: Seq<char>|
                    #[trigger] new_model.contains_key(k) ==> exists|a: int|
                        0 <= a < kept.len() && #[trigger] kept[a].key@ == k
            }),
    {
        let new_model = model.restrict(
            model.dom().filter(|k: Seq<char>| is_live(model[k].1, now, self.ttl)),
        );
        assert forall|a: int, b: int| 0 <= a < b < kept.len() implies kept[a].key@ != kept[b].key@ by {
            assert(origin[a] > origin[b]);
            assert(kept[a] == orig[origin[a]]);
            assert(kept[b] == orig[origin[b]]);
        }
        assert forall|a: int|
            #![trigger kept[a]]
            0 <= a < kept.len() implies {
                &&& new_model.contains_key(kept[a].key@)
                &&& new_model[kept[a].key@] == (kept[a].value, kept[a].inserted_at)
            } by {
            let i = origin[a];
            assert(orig[i] == self.store@[i]);
            assert(model.contains_key(orig[i].key@));
        }
        assert forall|k: Seq<char>| #[trigger] new_model.contains_key(k) implies exists|a: int|
            0 <= a < kept.len() && #[trigger] kept[a].key@ == k by {
            assert(model.contains_key(k));
            let i = choose|i: int| 0 <= i < orig.len() && #[trigger] orig[i].key@ == k;
            assert(self.store@[i].key@ == k);
            assert(model[k] == (orig[i].value, orig[i].inserted_at));
            let a = choose|a: int| 0 <= a < origin.len() && #[trigger] origin[a] == i;
            assert(kept[a].key@ == k);
        }
    }

    /// Removes every entry that is no longer live at `now`.
    pub fn cleanup_expired(&mut self, now: u128)
        requires
            old(self).wf(),
        ensures
            final(self).wf(),
            final(self).time_to_live() == old(self).time_to_live(),
            forall|k: Seq<char>|
                #[trigger] final(self)@.contains_key(k) <==> old(self)@.contains_key(k) && is_live(
                    old(self)@[k].1,
                    now,
                    old(self).time_to_live(),
                ),
            forall|k: Seq<char>| #[trigger]
                final(self)@.contains_key(k) ==> final(self)@[k] == old(self)@[k],
    {
        let ttl = self.ttl;
        let ghost orig = self.store@;
        let ghost model = self.model@;
        let mut rest: Vec<CacheEntry<V>> = Vec::new();
        std::mem::swap(&mut rest, &mut self.store);
        let mut kept: Vec<CacheEntry<V>> = Vec::new();
        let ghost mut origin: Seq<int> = Seq::empty();
        while rest.len() > 0
            invariant
                ttl == old(self).ttl,
                orig == old(self).store@,
                model == old(self).model@,
                rest@.len() <= orig.len(),
                rest@ == orig.subrange(0, rest@.len() as int),
                origin.len() == kept@.len(),
                forall|a: int|
                    #![trigger origin[a]]
                    0 <= a < origin.len() ==> {
                        &&& rest@.len() <= origin[a] < orig.len()
                        &&& kept@[a] == orig[origin[a]]
                        &&& is_live(orig[origin[a]].inserted_at, now, ttl)
                    },
                forall|a: int, b: int| 0 <= a < b < origin.len() ==> origin[a] > origin[b],
                forall|i: int|
                    #![trigger orig[i]]
                    rest@.len() <= i < orig.len() && is_live(orig[i].inserted_at, now, ttl)
                        ==> exists|a: int| 0 <= a < origin.len() && #[trigger] origin[a] == i,
            decreases rest@.len(),
        {
            let ghost r0 = rest@;
            let ghost n = rest@.len() - 1;
            assert(r0[n] == orig[n]);
            let entry = rest.pop().unwrap();
            let age = if now >= entry.inserted_at {
                now - entry.inserted_at
            } else {
                0
            };
            if age < ttl {
                let ghost o0 = origin;
                kept.push(entry);
                proof {
                    origin = origin.push(n);
                    assert forall|i: int|
                        #![trigger orig[i]]
                        n <= i < orig.len() && is_live(orig[i].inserted_at, now, ttl)
                            implies exists|a: int| 0 <= a < origin.len() && #[trigger] origin[a] == i by {
                        if i == n {
                            assert(origin[origin.len() - 1] == i);
                        } else {
                            let a = choose|a: int| 0 <= a < o0.len() && #[trigger] o0[a] == i;
                            assert(origin[a] == i);
                        }
                    }
                }
            }
        }
        proof {
            old(self).lemma_kept_entries_well_formed(orig, model, kept@, origin, now);
        }
        let ghost new_model = model.restrict(
            model.dom().filter(|k: Seq<char>| is_live(model[k].1, now, ttl)),
        );
        self.store = kept;
        self.model = Ghost(new_model);
        assert(self.wf());
    }
}

/// A read of the key just written gives the written value for as long as the
/// entry is live, and nothing afterwards; reads of every other key are unchanged.
pub proof fn lemma_read_after_write<V: Clone>(
    before: TtlCache<V>,
    after: TtlCache<V>,
    key: Seq<char>,
    value: V,
    written_at: u128,
    now: u128,
)
    requires
        after@ == before@.insert(key, (value, written_at)),
        after.time_to_live() == before.time_to_live(),
    ensures
        after.lookup(key, now) == if is_live(written_at, now, before.time_to_live()) {
            Some(value)
        } else {
            None
        },
        forall|other: Seq<char>|
            other != key ==> #[trigger] after.lookup(other, now) == before.lookup(other, now),
{
}

/// After a key is invalidated no read of it answers anything, at any time;
/// reads of every other key are unchanged.
pub proof fn lemma_read_after_invalidate<V: Clone>(
    before: TtlCache<V>,
    after: TtlCache<V>,
    key: Seq<char>,
    now: u128,
)
    requires
        after@ == before@.remove(key),
        after.time_to_live() == before.time_to_live(),
    ensures
        after.lookup(key, now) is None,
        forall|other: Seq<char>|
            other != key ==> #[trigger] after.lookup(other, now) == before.lookup(other, now),
{
}

/// An empty cache (a new one, or one just cleared) answers no read.
pub proof fn lemma_empty_cache_reads_nothing<V: Clone>(cache: TtlCache<V>, key: Seq<char>, now: u128)
    requires
        cache@ == Map::<Seq<char>, (V, u128)>::empty(),
    ensures
        cache.lookup(key, now) is None,
{
}

/// Removing the entries expired at `now` changes no read made at `now` or later.
pub proof fn lemma_cleanup_preserves_reads<V: Clone>(
    before: TtlCache<V>,
    after: TtlCache<V>,
    now: u128,
    later: u128,
    key: Seq<char>,
)
    requires
        after.time_to_live() == before.time_to_live(),
        forall|k: Seq<char>|
            #[trigger] after@.contains_key(k) <==> before@.contains_key(k) && is_live(
                before@[k].1,
                now,
                before.time_to_live(),
            ),
        forall|k: Seq<char>| #[trigger] after@.contains_key(k) ==> after@[k] == before@[k],
        now <= later,
    ensures
        after.lookup(key, later) == before.lookup(key, later),
{
    if before@.contains_key(key) && !is_live(before@[key].1, now, before.time_to_live()) {
        lemma_expiry_is_permanent(before@[key].1, now, later, before.time_to_live());
    }
}

/// Connection pool configuration.
#[derive(Debug, Clone)]
pub struct PoolConfig_5452 {
    pub min_connections: usize,
    pub max_connections: usize,
    pub idle_timeout: std::time::Duration,
    pub max_lifetime: std::time::Duration,
}

impl Default for PoolConfig_5452 {
    /// Two to ten connections, idle for at most five minutes, living at most an hour.
    fn default() -> (config: Self)
        ensures
            config.min_connections == 2,
            config.max_connections == 10,
            config.idle_timeout == duration_of_secs(300),
            config.max_lifetime == duration_of_secs(3600),
    {
        PoolConfig_5452 {
            min_connections: 2,
            max_connections: 10,
            idle_timeout: duration_from_secs(300),
            max_lifetime: duration_from_secs(3600),
        }
    }
}

impl PoolConfig_5452 {
    /// Checks the connection limits (see `pool_limits_error`).
    pub fn validate(&self) -> (r: Result<(), String>)
        ensures
            match pool_limits_error(self.min_connections, self.max_connections) {
                None => r is Ok,
                Some(msg) => r matches Err(e) && e@ == msg,
            },
            r is Ok <==> (1 <= self.max_connections && self.min_connections <= self.max_connections),
    {
        validate_pool_limits(self.min_connections, self.max_connections)
    }
}

} // verus!
