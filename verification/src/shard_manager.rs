//! The shard manager: deterministic key-to-shard routing and delegation.
//!
//! A manager owns a fixed-length ordered sequence of [`Shard`]s, created once
//! at construction. Every key routes to exactly one shard: the key's UTF-8
//! bytes are hashed with `DefaultHasher` and the hash is reduced modulo the
//! shard count. The routing is a pure function of the key's characters and the
//! shard count, so identical keys always land on the same shard for the
//! manager's whole lifetime. This is plain modulo sharding: changing the shard
//! count would redistribute essentially all keys, and no migration for that
//! exists.
//!
//! The manager is viewed as the sequence of its shards' maps, so every
//! contract says not only what the routed shard becomes but also that all
//! other shards stay untouched.

use vstd::prelude::*;

verus! {

use std::collections::hash_map::DefaultHasher;
use std::hash::Hasher;
use vstd::std_specs::hash::DefaultHasherAdditionalSpecFns;
use vstd::utf8::encode_utf8;
use crate::shard::Shard;

/// A store's abstract state: one key-to-value map per shard, in shard order.
pub type StoreView = Seq<Map<Seq<char>, Seq<char>>>;

/// The 64-bit hash of a key: what `DefaultHasher` yields after one write of
/// the key's UTF-8 bytes. A pure function of the key's characters.
pub open spec fn key_hash(key: Seq<char>) -> u64 {
    DefaultHasher::spec_finish(seq![encode_utf8(key)])
}

/// The index of the shard that owns `key` in a store of `shard_count` shards.
pub open spec fn spec_shard_index(key: Seq<char>, shard_count: int) -> int
    recommends
        shard_count >= 1,
{
    key_hash(key) as int % shard_count
}

/// The value the store binds to `key`, if any: a lookup in the routed shard.
pub open spec fn spec_lookup(store: StoreView, key: Seq<char>) -> Option<Seq<char>>
    recommends
        store.len() >= 1,
{
    let m = store[spec_shard_index(key, store.len() as int)];
    if m.contains_key(key) {
        Some(m[key])
    } else {
        None
    }
}

/// The store after `set(key, value)`: only the routed shard changes, by an
/// insert of the pair.
pub open spec fn spec_set(store: StoreView, key: Seq<char>, value: Seq<char>) -> StoreView
    recommends
        store.len() >= 1,
{
    let i = spec_shard_index(key, store.len() as int);
    store.update(i, store[i].insert(key, value))
}

/// The store after `delete(key)`: only the routed shard changes, by a removal
/// of the key.
pub open spec fn spec_delete(store: StoreView, key: Seq<char>) -> StoreView
    recommends
        store.len() >= 1,
{
    let i = spec_shard_index(key, store.len() as int);
    store.update(i, store[i].remove(key))
}

/// Computes the index of the shard that owns `key` among `shard_count`
/// shards: hash modulo count.
pub fn shard_index_for(key: &str, shard_count: usize) -> (r: usize)
    requires
        shard_count >= 1,
    ensures
        r == spec_shard_index(key@, shard_count as int),
        r < shard_count,
{
    let h = ShardManager::hash(key);
    let idx = h % (shard_count as u64);
    idx as usize
}

/// Routes keys to shards and delegates get/set/delete to the routed shard.
pub struct ShardManager {
    shards: Vec<Shard>,
}

impl View for ShardManager {
    type V = StoreView;

    closed spec fn view(&self) -> StoreView {
        self.shards@.map_values(|s: Shard| s@)
    }
}

impl ShardManager {
    /// Internal invariant: at least one shard (routing modulo zero shards is
    /// undefined), and every shard well-formed.
    pub closed spec fn wf(&self) -> bool {
        &&& self.shards@.len() >= 1
        &&& forall|i: int| 0 <= i < self.shards@.len() ==> (#[trigger] self.shards@[i]).wf()
    }

    /// Creates a manager with `shard_count` independent, empty shards. A
    /// manager with zero shards is invalid, so zero is disallowed up front.
    pub fn new(shard_count: usize) -> (r: ShardManager)
        requires
            shard_count >= 1,
        ensures
            r.wf(),
            r@.len() == shard_count,
            forall|i: int| 0 <= i < shard_count ==> r@[i] == Map::<Seq<char>, Seq<char>>::empty(),
    {
        let mut shards: Vec<Shard> = Vec::with_capacity(shard_count);
        let mut i: usize = 0;
        while i < shard_count
            invariant
                i <= shard_count,
                shards@.len() == i,
                forall|j: int|
                    0 <= j < i ==> (#[trigger] shards@[j]).wf() && shards@[j]@ == Map::<
                        Seq<char>,
                        Seq<char>,
                    >::empty(),
            decreases shard_count - i,
        {
            shards.push(Shard::new());
            i += 1;
        }
        let r = ShardManager { shards };
        proof {
            assert(forall|j: int| 0 <= j < shard_count ==> r@[j] == r.shards@[j]@);
        }
        r
    }

    /// The number of shards, fixed at construction.
    pub fn shard_count(&self) -> (r: usize)
        ensures
            r == self@.len(),
    {
        self.shards.len()
    }

    /// Hashes a key: `DefaultHasher` over the key's UTF-8 bytes. Relied on
    /// only through [`key_hash`], a pure function of the key's characters.
    pub fn hash(key: &str) -> (r: u64)
        ensures
            r == key_hash(key@),
    {
        let mut hasher = DefaultHasher::new();
        hasher.write(key.as_bytes());
        proof {
            assert(hasher@ =~= seq![encode_utf8(key@)]);
        }
        hasher.finish()
    }

    /// Pure routing query: the index of the shard that owns `key`. No
    /// mutation; callers and tests can predict placement without a write.
    pub fn get_shard_index(&self, key: &str) -> (r: usize)
        requires
            self.wf(),
        ensures
            r == spec_shard_index(key@, self@.len() as int),
            r < self@.len(),
    {
        shard_index_for(key, self.shards.len())
    }

    /// The shard that owns `key`.
    pub fn get_shard(&self, key: &str) -> (r: &Shard)
        requires
            self.wf(),
        ensures
            r.wf(),
            r@ == self@[spec_shard_index(key@, self@.len() as int)],
    {
        let shard_index = self.get_shard_index(key);
        &self.shards[shard_index]
    }

    /// Returns the value currently bound to `key`, if any. No side effects.
    pub fn get(&self, key: &str) -> (r: Option<String>)
        requires
            self.wf(),
        ensures
            match r {
                Some(v) => spec_lookup(self@, key@) == Some(v@),
                None => spec_lookup(self@, key@) is None,
            },
    {
        let shard_index = self.get_shard_index(key);
        self.shards[shard_index].get(key)
    }

    /// Inserts `value` under `key` in the routed shard, overwriting any
    /// earlier value, and reports which shard absorbed the write.
    pub fn set(&mut self, key: String, value: String) -> (r: usize)
        requires
            old(self).wf(),
        ensures
            final(self).wf(),
            final(self)@ == spec_set(old(self)@, key@, value@),
            r == spec_shard_index(key@, old(self)@.len() as int),
            r < old(self)@.len(),
    {
        let shard_index = self.get_shard_index(key.as_str());
        let shard = &mut self.shards[shard_index];
        shard.set(key, value);
        proof {
            assert(self@ =~= spec_set(old(self)@, key@, value@));
        }
        shard_index
    }

    /// Removes `key` from the routed shard and returns the value it was bound
    /// to; returns `None`, and changes nothing, when `key` was absent.
    pub fn delete(&mut self, key: &str) -> (r: Option<String>)
        requires
            old(self).wf(),
        ensures
            final(self).wf(),
            final(self)@ == spec_delete(old(self)@, key@),
            match r {
                Some(v) => spec_lookup(old(self)@, key@) == Some(v@),
                None => spec_lookup(old(self)@, key@) is None,
            },
    {
        let shard_index = self.get_shard_index(key);
        let shard = &mut self.shards[shard_index];
        let r = shard.delete(key);
        proof {
            assert(self@ =~= spec_delete(old(self)@, key@));
        }
        r
    }
}

/// The routing invariant: every key a shard holds routes to that very shard.
/// No key can hash to two shards simultaneously, so under this invariant keys
/// are unique across the whole store, not only within one shard.
pub open spec fn routed_only(store: StoreView) -> bool {
    forall|j: int, k: Seq<char>|
        0 <= j < store.len() && (#[trigger] store[j].contains_key(k)) ==> j == spec_shard_index(
            k,
            store.len() as int,
        )
}

/// A store of empty shards holds the routing invariant: there is no key yet.
pub proof fn lemma_empty_store_routed_only(store: StoreView)
    requires
        forall|j: int| 0 <= j < store.len() ==> (#[trigger] store[j]) == Map::<
            Seq<char>,
            Seq<char>,
        >::empty(),
    ensures
        routed_only(store),
{
}

/// Set and delete preserve the routing invariant: a set adds its key only to
/// the shard that key routes to, and a delete only takes a key away.
pub proof fn lemma_routing_invariant_preserved(store: StoreView, key: Seq<char>, value: Seq<char>)
    requires
        store.len() >= 1,
        routed_only(store),
    ensures
        routed_only(spec_set(store, key, value)),
        routed_only(spec_delete(store, key)),
{
    let i = spec_shard_index(key, store.len() as int);
    let after_set = spec_set(store, key, value);
    assert forall|j: int, k: Seq<char>|
        0 <= j < after_set.len() && (#[trigger] after_set[j].contains_key(k)) implies j
        == spec_shard_index(k, after_set.len() as int) by {
        if j == i && k != key {
            assert(store[j].contains_key(k));
        }
    }
    let after_delete = spec_delete(store, key);
    assert forall|j: int, k: Seq<char>|
        0 <= j < after_delete.len() && (#[trigger] after_delete[j].contains_key(k)) implies j
        == spec_shard_index(k, after_delete.len() as int) by {
        assert(store[j].contains_key(k));
    }
}

/// Routing is total and in range: every key routes to exactly one shard index
/// below the shard count, whatever the key (the empty string included).
pub proof fn lemma_routing_in_range(key: Seq<char>, shard_count: int)
    requires
        shard_count >= 1,
    ensures
        0 <= spec_shard_index(key, shard_count) < shard_count,
{
}

/// Routing is deterministic and stable: the shard index is a pure function of
/// the key's characters and the shard count alone, so repeated queries within
/// one store, or queries against any two stores of the same shard count,
/// place every key identically.
pub proof fn lemma_routing_stable(a: StoreView, b: StoreView, key: Seq<char>)
    requires
        a.len() == b.len(),
        a.len() >= 1,
    ensures
        spec_shard_index(key, a.len() as int) == spec_shard_index(key, b.len() as int),
{
}

/// Round trip: after `set(key, value)`, a `get(key)` finds exactly `value`.
pub proof fn lemma_set_then_get(store: StoreView, key: Seq<char>, value: Seq<char>)
    requires
        store.len() >= 1,
    ensures
        spec_lookup(spec_set(store, key, value), key) == Some(value),
{
}

/// Overwrite: after two sets of one key the last write wins, and the store is
/// exactly what a single set of the last value would have produced.
pub proof fn lemma_overwrite(store: StoreView, key: Seq<char>, v1: Seq<char>, v2: Seq<char>)
    requires
        store.len() >= 1,
    ensures
        spec_lookup(spec_set(spec_set(store, key, v1), key, v2), key) == Some(v2),
        spec_set(spec_set(store, key, v1), key, v2) == spec_set(store, key, v2),
{
    let i = spec_shard_index(key, store.len() as int);
    assert(store[i].insert(key, v1).insert(key, v2) =~= store[i].insert(key, v2));
    assert(spec_set(spec_set(store, key, v1), key, v2) =~= spec_set(store, key, v2));
}

/// Delete removes and reports: after `set(key, value)`, a delete of `key`
/// finds `value` (what it reports), and a subsequent `get(key)` finds nothing.
pub proof fn lemma_set_then_delete(store: StoreView, key: Seq<char>, value: Seq<char>)
    requires
        store.len() >= 1,
    ensures
        spec_lookup(spec_set(store, key, value), key) == Some(value),
        spec_lookup(spec_delete(spec_set(store, key, value), key), key) is None,
{
}

/// Deleting an absent key is a no-op: it reports nothing (per the exec
/// contract) and leaves every shard exactly as it was.
pub proof fn lemma_delete_absent(store: StoreView, key: Seq<char>)
    requires
        store.len() >= 1,
        spec_lookup(store, key) is None,
    ensures
        spec_delete(store, key) == store,
{
    let i = spec_shard_index(key, store.len() as int);
    assert(store[i].remove(key) =~= store[i]);
    assert(spec_delete(store, key) =~= store);
}

/// Shard isolation: a set or delete of one key changes no shard other than
/// the one the key routes to.
pub proof fn lemma_shard_isolation(store: StoreView, key: Seq<char>, value: Seq<char>, j: int)
    requires
        store.len() >= 1,
        0 <= j < store.len(),
        j != spec_shard_index(key, store.len() as int),
    ensures
        spec_set(store, key, value)[j] == store[j],
        spec_delete(store, key)[j] == store[j],
{
}

/// Sets of two keys that route to distinct shards are independent: applied in
/// either order they leave the store in the same state, so neither write can
/// disturb, or be lost to, the other.
pub proof fn lemma_independent_sets_commute(
    store: StoreView,
    k1: Seq<char>,
    v1: Seq<char>,
    k2: Seq<char>,
    v2: Seq<char>,
)
    requires
        store.len() >= 1,
        spec_shard_index(k1, store.len() as int) != spec_shard_index(k2, store.len() as int),
    ensures
        spec_set(spec_set(store, k1, v1), k2, v2) == spec_set(spec_set(store, k2, v2), k1, v1),
{
    assert(spec_set(spec_set(store, k1, v1), k2, v2) =~= spec_set(
        spec_set(store, k2, v2),
        k1,
        v1,
    ));
}

} // verus!
