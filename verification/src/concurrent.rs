//! A shareable store: the same routing and shards, behind one lock per shard.
//!
//! A store accessed by a pool of workers must serialize mutations of the same
//! shard while letting operations on different shards proceed in parallel. One
//! store-wide lock would serialize all traffic and defeat the purpose of
//! sharding, so this manager owns one reader-writer lock per shard, and an
//! operation acquires only the lock of the shard its key routes to.
//!
//! Every operation takes `&self`, so between two calls other workers may have
//! changed the locked shard; no contract here can pin a result to an earlier
//! write. What is verified: routing (exact, the same pure function as
//! [`crate::shard_manager::ShardManager`]'s), that each operation touches only
//! the routed shard's lock, that every shard a lock guards stays well-formed,
//! and that each operation's work on the locked shard is exactly one call of
//! the corresponding verified [`Shard`] operation, whose contract says what it
//! does to that shard. Functional, sequential behaviour is specified and
//! proved on [`crate::shard_manager::ShardManager`].

use vstd::prelude::*;

verus! {

use vstd::rwlock::RwLock;
use vstd::rwlock::RwLockPredicate;
use crate::shard::Shard;
use crate::shard_manager::shard_index_for;
use crate::shard_manager::spec_shard_index;

/// The invariant each lock enforces on the shard it guards: well-formedness.
pub struct ShardPred {}

impl RwLockPredicate<Shard> for ShardPred {
    open spec fn inv(self, s: Shard) -> bool {
        s.wf()
    }
}

/// Routes keys to shards and delegates get/set/delete to the routed shard,
/// serializing access per shard: safe to share among concurrent workers.
pub struct ConcurrentShardManager {
    locks: Vec<RwLock<Shard, ShardPred>>,
}

impl ConcurrentShardManager {
    /// Internal invariant: at least one shard (routing modulo zero shards is
    /// undefined). Each lock's own invariant keeps its shard well-formed.
    pub closed spec fn wf(&self) -> bool {
        self.locks@.len() >= 1
    }

    /// The number of shards, fixed at construction.
    pub closed spec fn spec_shard_count(&self) -> int {
        self.locks@.len() as int
    }

    /// Creates a manager with `shard_count` independent, empty shards, each
    /// behind its own lock. Zero shards is invalid and disallowed up front.
    pub fn new(shard_count: usize) -> (r: ConcurrentShardManager)
        requires
            shard_count >= 1,
        ensures
            r.wf(),
            r.spec_shard_count() == shard_count,
    {
        let mut locks: Vec<RwLock<Shard, ShardPred>> = Vec::with_capacity(shard_count);
        let mut i: usize = 0;
        while i < shard_count
            invariant
                i <= shard_count,
                locks@.len() == i,
            decreases shard_count - i,
        {
            let shard = Shard::new();
            let ghost pred = ShardPred {};
            locks.push(RwLock::new(shard, Ghost(pred)));
            i += 1;
        }
        ConcurrentShardManager { locks }
    }

    /// The number of shards, fixed at construction.
    pub fn shard_count(&self) -> (r: usize)
        ensures
            r == self.spec_shard_count(),
    {
        self.locks.len()
    }

    /// Pure routing query: the index of the shard that owns `key`. Identical
    /// to the sequential manager's routing, key for key.
    pub fn get_shard_index(&self, key: &str) -> (r: usize)
        requires
            self.wf(),
        ensures
            r == spec_shard_index(key@, self.spec_shard_count()),
            r < self.spec_shard_count(),
    {
        shard_index_for(key, self.locks.len())
    }

    /// Returns the value the routed shard binds to `key` at the moment its
    /// lock is read-held. Takes no lock but the routed shard's.
    pub fn get(&self, key: &str) -> (r: Option<String>)
        requires
            self.wf(),
    {
        let shard_index = self.get_shard_index(key);
        let read_handle = self.locks[shard_index].acquire_read();
        let r = read_handle.borrow().get(key);
        read_handle.release_read();
        r
    }

    /// Inserts `value` under `key` in the routed shard while its lock is
    /// write-held, and reports which shard absorbed the write. Takes no lock
    /// but the routed shard's.
    pub fn set(&self, key: String, value: String) -> (r: usize)
        requires
            self.wf(),
        ensures
            r == spec_shard_index(key@, self.spec_shard_count()),
            r < self.spec_shard_count(),
    {
        let shard_index = self.get_shard_index(key.as_str());
        let (mut shard, write_handle) = self.locks[shard_index].acquire_write();
        shard.set(key, value);
        write_handle.release_write(shard);
        shard_index
    }

    /// Removes `key` from the routed shard while its lock is write-held and
    /// returns the value that was bound to it there, if any. Takes no lock but
    /// the routed shard's.
    pub fn delete(&self, key: &str) -> (r: Option<String>)
        requires
            self.wf(),
    {
        let shard_index = self.get_shard_index(key);
        let (mut shard, write_handle) = self.locks[shard_index].acquire_write();
        let r = shard.delete(key);
        write_handle.release_write(shard);
        r
    }
}

} // verus!
