use hashmaprs::shard_manager::ShardManager;

#[test]
fn test_shard_manager_new() {
    let shard_count = 4;
    let shard_manager = ShardManager::new(shard_count);
    assert_eq!(shard_manager.shard_count(), shard_count);
}

#[test]
fn test_shard_manager_set_and_get() {
    let mut shard_manager = ShardManager::new(4);
    shard_manager.set("key1".to_string(), "value1".to_string());
    assert_eq!(shard_manager.get("key1"), Some("value1".to_string()));
}

#[test]
fn test_shard_manager_get_non_existent() {
    let shard_manager = ShardManager::new(4);
    assert_eq!(shard_manager.get("non_existent_key"), None);
}

#[test]
fn test_shard_manager_delete() {
    let mut shard_manager = ShardManager::new(4);
    shard_manager.set("key1".to_string(), "value1".to_string());
    let deleted_value = shard_manager.delete("key1");
    assert_eq!(deleted_value, Some("value1".to_string()));
    assert_eq!(shard_manager.get("key1"), None);
}

#[test]
fn test_shard_manager_delete_non_existent() {
    let mut shard_manager = ShardManager::new(4);
    let deleted_value = shard_manager.delete("non_existent_key");
    assert_eq!(deleted_value, None);
}

#[test]
fn test_shard_manager_consistent_hashing() {
    let mut shard_manager = ShardManager::new(4);
    let key = "consistent_key";
    let value = "consistent_value";
    shard_manager.set(key.to_string(), value.to_string());

    let shard_index = (ShardManager::hash(key) % 4) as usize;
    assert_eq!(shard_manager.get_shard_index(key), shard_index);
    assert_eq!(shard_manager.get_shard(key).get(key), Some(value.to_string()));
}

#[test]
fn test_set_reports_routed_shard() {
    let mut shard_manager = ShardManager::new(4);
    let expected = shard_manager.get_shard_index("key1");
    let reported = shard_manager.set("key1".to_string(), "value1".to_string());
    assert_eq!(reported, expected);
    assert!(reported < 4);
}
