//! A sharded, in-memory key-value store.
//!
//! The store maps string keys to string values. Keys are partitioned across a
//! fixed number of independent [`shard::Shard`]s; [`shard_manager::ShardManager`]
//! routes every key deterministically to exactly one shard by hashing the key's
//! UTF-8 bytes and reducing the hash modulo the shard count, then delegates
//! get/set/delete to that shard.
//!
//! The shard count is fixed at construction and never changes. Changing it
//! would redistribute essentially all keys: this is plain modulo sharding, not
//! a consistent-hashing ring, and no migration path exists. That is a known
//! limitation, not an oversight.

pub mod concurrent;
pub mod shard;
pub mod shard_manager;
