use hashmaprs::concurrent::ConcurrentShardManager;
use hashmaprs::shard_manager::shard_index_for;
use hashmaprs::shard_manager::ShardManager;

#[test]
fn test_routing_is_deterministic_within_one_manager() {
    let manager = ShardManager::new(4);
    let first = manager.get_shard_index("some_key");
    for _ in 0..10 {
        assert_eq!(manager.get_shard_index("some_key"), first);
    }
    assert!(first < 4);
}

#[test]
fn test_routing_is_stable_across_managers_with_same_count() {
    let mut a = ShardManager::new(8);
    let mut b = ShardManager::new(8);
    let keys = ["", "key1", "key2", "another key", "k"];
    for key in keys {
        assert_eq!(a.get_shard_index(key), b.get_shard_index(key));
        let ia = a.set(key.to_string(), format!("v:{}", key));
        let ib = b.set(key.to_string(), format!("v:{}", key));
        assert_eq!(ia, ib);
    }
    for key in keys {
        assert_eq!(a.get(key), b.get(key));
    }
}

#[test]
fn test_round_trip_set_then_get() {
    let mut manager = ShardManager::new(4);
    let pairs = [("k1", "v1"), ("k2", "v2"), ("", "empty key"), ("k3", "")];
    for (k, v) in pairs {
        manager.set(k.to_string(), v.to_string());
        assert_eq!(manager.get(k), Some(v.to_string()));
    }
}

#[test]
fn test_overwrite_last_write_wins() {
    let mut manager = ShardManager::new(4);
    manager.set("key".to_string(), "first".to_string());
    manager.set("key".to_string(), "second".to_string());
    assert_eq!(manager.get("key"), Some("second".to_string()));
}

#[test]
fn test_delete_removes_and_reports() {
    let mut manager = ShardManager::new(4);
    manager.set("key".to_string(), "value".to_string());
    assert_eq!(manager.delete("key"), Some("value".to_string()));
    assert_eq!(manager.get("key"), None);
}

#[test]
fn test_delete_of_absent_key_is_a_no_op() {
    let mut manager = ShardManager::new(4);
    manager.set("kept1".to_string(), "v1".to_string());
    manager.set("kept2".to_string(), "v2".to_string());
    assert_eq!(manager.delete("never_set"), None);
    assert_eq!(manager.get("kept1"), Some("v1".to_string()));
    assert_eq!(manager.get("kept2"), Some("v2".to_string()));
    assert_eq!(manager.get("never_set"), None);
}

/// Finds a key that routes to a different shard than `other` does, among 4
/// shards. Routing is deterministic, so the search always ends the same way.
fn key_on_other_shard(other: &str) -> String {
    let taken = shard_index_for(other, 4);
    for i in 0..64 {
        let candidate = format!("probe{}", i);
        if shard_index_for(&candidate, 4) != taken {
            return candidate;
        }
    }
    panic!("no key found that routes away from shard {}", taken);
}

#[test]
fn test_shard_isolation() {
    let mut manager = ShardManager::new(4);
    let near = "anchor";
    let far = key_on_other_shard(near);
    manager.set(far.clone(), "untouched".to_string());

    manager.set(near.to_string(), "w1".to_string());
    manager.set(near.to_string(), "w2".to_string());
    manager.delete(near);
    assert_eq!(manager.get(&far), Some("untouched".to_string()));

    let far_shard = manager.get_shard(&far);
    assert_eq!(far_shard.get(&far), Some("untouched".to_string()));
    assert_eq!(far_shard.get(near), None);
}

#[test]
fn test_concurrent_manager_routes_like_sequential() {
    let shared = ConcurrentShardManager::new(4);
    let sequential = ShardManager::new(4);
    for key in ["", "key1", "key2", "abc"] {
        assert_eq!(shared.get_shard_index(key), sequential.get_shard_index(key));
    }
    assert_eq!(shared.shard_count(), 4);
}

#[test]
fn test_concurrent_manager_round_trip() {
    let shared = ConcurrentShardManager::new(4);
    let reported = shared.set("key1".to_string(), "value1".to_string());
    assert_eq!(reported, shared.get_shard_index("key1"));
    assert_eq!(shared.get("key1"), Some("value1".to_string()));
    assert_eq!(shared.delete("key1"), Some("value1".to_string()));
    assert_eq!(shared.get("key1"), None);
    assert_eq!(shared.delete("key1"), None);
}

#[test]
fn test_end_to_end_scenario() {
    let mut manager = ShardManager::new(4);
    let i = manager.set("key1".to_string(), "value1".to_string());
    assert!(i < 4);
    assert_eq!(manager.get("key1"), Some("value1".to_string()));
    assert_eq!(manager.delete("key1"), Some("value1".to_string()));
    assert_eq!(manager.get("key1"), None);
    assert_eq!(manager.get("never_set"), None);
}
