//! The keyspace: writes, reads, deadlines, lists and the type rules.
use respkv::store::{DataType, Store};

fn b(s: &str) -> Vec<u8> {
    s.as_bytes().to_vec()
}

fn store_with_string(key: &str, value: &str) -> Store {
    let mut store = Store::new();
    store.set_string(b(key), b(value));
    store
}

fn store_with_list(key: &str, values: Vec<&str>) -> Store {
    let mut store = Store::new();
    for value in values {
        store.rpush(b(key), b(value), 0);
    }
    store
}

#[test]
fn test_set_and_get() {
    let mut store = Store::new();
    store.set_string(b("key1"), b("value1"));
    assert_eq!(store.get_string(b"key1", 0), Some(b("value1")));
}

#[test]
fn test_get_nonexistent() {
    let store = Store::new();
    assert_eq!(store.get_string(b"nonexistent", 0), None);
}

#[test]
fn test_overwrite() {
    let mut store = Store::new();
    store.set_string(b("key1"), b("value1"));
    store.set_string(b("key1"), b("value2"));
    assert_eq!(store.get_string(b"key1", 0), Some(b("value2")));
}

#[test]
fn test_delete() {
    let mut store = Store::new();
    store.set_string(b("key1"), b("value1"));
    assert!(store.delete(b"key1", 0));
    assert!(store.get_string(b"key1", 0).is_none());
    assert!(!store.delete(b"key1", 0));
}

#[test]
fn test_exists() {
    let mut store = Store::new();
    assert!(!store.key_exists(b"key1", 0));
    store.set_string(b("key1"), b("value1"));
    assert!(store.key_exists(b"key1", 0));
    store.delete(b"key1", 0);
    assert!(!store.key_exists(b"key1", 0));
}

#[test]
fn test_expiration() {
    let mut store = Store::new();
    store.set_string_with_expiration(b("key1"), b("value1"), 100);
    assert_eq!(store.get_string(b"key1", 0), Some(b("value1")));
    assert_eq!(store.get_string(b"key1", 150), None);
}

#[test]
fn test_expiration_with_exists() {
    let mut store = Store::new();
    store.set_string_with_expiration(b("key1"), b("value1"), 100);
    assert!(store.key_exists(b"key1", 0));
    assert!(!store.key_exists(b"key1", 150));
}

#[test]
fn test_cleanup_expired() {
    let mut store = Store::new();
    store.set_string_with_expiration(b("key1"), b("value1"), 50);
    store.set_string_with_expiration(b("key2"), b("value2"), 50);
    store.set_string(b("key3"), b("value3"));
    let removed = store.cleanup_expired(100);
    assert_eq!(removed, 2);
    assert_eq!(store.get_string(b"key3", 100), Some(b("value3")));
}

#[test]
fn test_len() {
    let mut store = Store::new();
    assert_eq!(store.len(0), 0);
    store.set_string(b("key1"), b("value1"));
    assert_eq!(store.len(0), 1);
    store.set_string(b("key2"), b("value2"));
    assert_eq!(store.len(0), 2);
}

#[test]
fn test_is_empty() {
    let mut store = Store::new();
    assert!(store.is_empty(0));
    store.set_string(b("key1"), b("value1"));
    assert!(!store.is_empty(0));
}

#[test]
fn test_clear() {
    let mut store = Store::new();
    store.set_string(b("key1"), b("value1"));
    store.set_string(b("key2"), b("value2"));
    store.clear();
    assert!(store.is_empty(0));
    assert_eq!(store.get_string(b"key1", 0), None);
}

#[test]
fn test_overwrite_removes_expiration() {
    let mut store = Store::new();
    store.set_string_with_expiration(b("key1"), b("value1"), 100);
    store.set_string(b("key1"), b("value2"));
    assert_eq!(store.get_string(b"key1", 150), Some(b("value2")));
}

#[test]
fn test_rpush_creates_list() {
    let mut store = Store::new();
    let len = store.rpush(b("mylist"), b("first"), 0);
    assert_eq!(len, 1);
}

#[test]
fn test_rpush_appends_to_list() {
    let mut store = store_with_list("mylist", vec!["first", "second"]);
    let len = store.rpush(b("mylist"), b("third"), 0);
    assert_eq!(len, 3);
}

#[test]
fn test_rpop_removes_last_element() {
    let mut store = store_with_list("mylist", vec!["first", "second", "third"]);
    assert_eq!(store.rpop(b"mylist", 0), Some(b("third")));
    assert_eq!(store.rpop(b"mylist", 0), Some(b("second")));
    assert_eq!(store.rpop(b"mylist", 0), Some(b("first")));
}

#[test]
fn test_rpop_empty_list() {
    let mut store = store_with_list("mylist", vec!["only"]);
    store.rpop(b"mylist", 0);
    assert_eq!(store.rpop(b"mylist", 0), None);
}

#[test]
fn store_test_rpop_nonexistent_key() {
    let mut store = Store::new();
    assert_eq!(store.rpop(b"nonexistent", 0), None);
}

#[test]
fn test_llen_returns_length() {
    let store = store_with_list("mylist", vec!["a", "b", "c"]);
    assert_eq!(store.llen(b"mylist", 0), 3);
}

#[test]
fn test_llen_nonexistent_key() {
    let store = Store::new();
    assert_eq!(store.llen(b"nonexistent", 0), 0);
}

#[test]
fn test_lrange_full_list() {
    let store = store_with_list("mylist", vec!["a", "b", "c", "d"]);
    let result = store.lrange(b"mylist", 0, -1, 0);
    assert_eq!(result, vec![b("a"), b("b"), b("c"), b("d")]);
}

#[test]
fn test_lrange_partial() {
    let store = store_with_list("mylist", vec!["a", "b", "c", "d", "e"]);
    let result = store.lrange(b"mylist", 1, 3, 0);
    assert_eq!(result, vec![b("b"), b("c"), b("d")]);
}

#[test]
fn test_lrange_negative_indices() {
    let store = store_with_list("mylist", vec!["a", "b", "c", "d"]);
    let result = store.lrange(b"mylist", -3, -1, 0);
    assert_eq!(result, vec![b("b"), b("c"), b("d")]);
}

#[test]
fn test_lrange_out_of_bounds() {
    let store = store_with_list("mylist", vec!["a", "b"]);
    let result = store.lrange(b"mylist", 5, 10, 0);
    assert_eq!(result, Vec::<Vec<u8>>::new());
}

#[test]
fn test_lrange_stop_before_start_after_normalization() {
    let store = store_with_list("mylist", vec!["a", "b", "c"]);
    let result = store.lrange(b"mylist", 0, -5, 0);
    assert_eq!(result, Vec::<Vec<u8>>::new());
}

#[test]
fn test_type_separation_string_to_list() {
    let mut store = store_with_string("mykey", "stringvalue");
    assert_eq!(store.get_string(b"mykey", 0), Some(b("stringvalue")));
    store.rpush(b("mykey"), b("listvalue"), 0);
    assert_eq!(store.get_string(b"mykey", 0), None);
    assert_eq!(store.llen(b"mykey", 0), 1);
}

#[test]
fn test_type_separation_list_to_string() {
    let mut store = store_with_list("mykey", vec!["a", "b"]);
    assert_eq!(store.llen(b"mykey", 0), 2);
    store.set_string(b("mykey"), b("newstring"));
    assert_eq!(store.get_string(b"mykey", 0), Some(b("newstring")));
    assert_eq!(store.llen(b"mykey", 0), 0);
}

#[test]
fn test_get_string_on_list_returns_none() {
    let store = store_with_list("listkey", vec!["value"]);
    assert_eq!(store.get_string(b"listkey", 0), None);
}

#[test]
fn test_rpop_on_string_returns_none() {
    let mut store = store_with_string("stringkey", "value");
    assert_eq!(store.rpop(b"stringkey", 0), None);
}

#[test]
fn test_llen_on_string_returns_zero() {
    let store = store_with_string("stringkey", "value");
    assert_eq!(store.llen(b"stringkey", 0), 0);
}

#[test]
fn test_list_expiration() {
    let mut store = Store::new();
    store.put(b("templist"), DataType::List(vec![b("value")]), Some(50));
    assert_eq!(store.llen(b"templist", 0), 1);
    assert_eq!(store.llen(b"templist", 100), 0);
    assert_eq!(store.rpop(b"templist", 100), None);
}

#[test]
fn test_keys_glob() {
    let mut store = Store::new();
    store.set_string(b("foo"), b("bar"));
    store.set_string(b("food"), b("baz"));
    store.set_string(b("other"), b("x"));
    assert_eq!(store.keys(b"*", 0), vec![b("foo"), b("food"), b("other")]);
    assert_eq!(store.keys(b"foo*", 0), vec![b("foo"), b("food")]);
    assert_eq!(store.keys(b"food", 0), vec![b("food")]);
}

#[test]
fn test_keys_skips_expired() {
    let mut store = Store::new();
    store.set_string_with_expiration(b("dying"), b("x"), 10);
    store.set_string(b("living"), b("y"));
    assert_eq!(store.keys(b"*", 50), vec![b("living")]);
}

#[test]
fn test_delete_expired_key_reports_false() {
    // an expired key is indistinguishable from an absent one, so deleting
    // it reports false, though the entry itself is removed
    let mut store = Store::new();
    store.set_string_with_expiration(b("dying"), b("x"), 10);
    assert!(!store.delete(b"dying", 50));
    assert_eq!(store.len(50), 0);
    store.set_string_with_expiration(b("living"), b("x"), 10);
    assert!(store.delete(b"living", 5));
}
