use hashmaprs::shard::Shard;

#[test]
fn test_shard_new() {
    let shard = Shard::new();
    assert!(shard.is_empty());
}

#[test]
fn test_shard_set_and_get() {
    let mut shard = Shard::new();
    shard.set("key1".to_string(), "value1".to_string());
    assert_eq!(shard.get("key1"), Some("value1".to_string()));
}

#[test]
fn test_shard_get_non_existent() {
    let shard = Shard::new();
    assert_eq!(shard.get("non_existent_key"), None);
}

#[test]
fn test_shard_delete() {
    let mut shard = Shard::new();
    shard.set("key1".to_string(), "value1".to_string());
    let deleted_value = shard.delete("key1");
    assert_eq!(deleted_value, Some("value1".to_string()));
    assert_eq!(shard.get("key1"), None);
}

#[test]
fn test_shard_delete_non_existent() {
    let mut shard = Shard::new();
    let deleted_value = shard.delete("non_existent_key");
    assert_eq!(deleted_value, None);
}

#[test]
fn test_shard_overwrite_keeps_last_value() {
    let mut shard = Shard::new();
    shard.set("key1".to_string(), "first".to_string());
    shard.set("key1".to_string(), "second".to_string());
    assert_eq!(shard.get("key1"), Some("second".to_string()));
}

#[test]
fn test_shard_empty_string_key_and_value() {
    let mut shard = Shard::new();
    shard.set(String::new(), String::new());
    assert_eq!(shard.get(""), Some(String::new()));
    assert_eq!(shard.delete(""), Some(String::new()));
    assert_eq!(shard.get(""), None);
}

#[test]
fn test_shard_distinct_keys_coexist() {
    let mut shard = Shard::new();
    shard.set("a".to_string(), "1".to_string());
    shard.set("b".to_string(), "2".to_string());
    assert_eq!(shard.get("a"), Some("1".to_string()));
    assert_eq!(shard.get("b"), Some("2".to_string()));
    assert_eq!(shard.delete("a"), Some("1".to_string()));
    assert_eq!(shard.get("b"), Some("2".to_string()));
    assert!(!shard.is_empty());
}
