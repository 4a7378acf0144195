use gemcaps::cache::Cache;
use gemcaps::gemini::Request;

fn key(uri: &str) -> Request {
    Request::new(format!("gemini://{}\r\n", uri)).unwrap()
}

#[test]
fn test_insert() {
    let mut cache = Cache::new();
    cache.insert(key("host/foo"), b"bar".to_vec(), 5000, 0);
    assert_eq!(cache.contains_key(&key("host/foo")), true);
    assert_eq!(cache.get(&key("host/foo")).unwrap(), &b"bar".to_vec());
}

#[test]
fn test_clear() {
    let mut cache = Cache::new();
    cache.insert(key("host/foo"), b"bar".to_vec(), 5000, 0);
    assert_eq!(cache.is_empty(), false);
    assert_eq!(cache.len(), 1);
    cache.clear();
    assert_eq!(cache.is_empty(), true);
    assert_eq!(cache.len(), 0);
}

#[test]
fn test_cleanup() {
    let mut cache = Cache::new();
    cache.insert(key("host/foo"), b"bar".to_vec(), 0, 1000);
    cache.insert(key("host/bar"), b"cheese".to_vec(), 5000, 1000);
    assert_eq!(cache.is_empty(), false);
    assert_eq!(cache.len(), 2);
    assert_eq!(cache.clean_up(1100), 1);
    assert_eq!(cache.is_empty(), false);
    assert_eq!(cache.len(), 1);
    assert!(cache.get(&key("host/foo")).is_none());
    assert!(cache.get(&key("host/bar")).is_some());
}

#[test]
fn test_replace() {
    let mut cache = Cache::new();
    cache.insert(key("host/foo"), b"bar".to_vec(), 0, 1000);
    cache.insert(key("host/bar"), b"cheese".to_vec(), 5000, 1000);
    // the second insert for the same key replaces the value and resets the
    // expiry, so a sweep past the old expiry removes nothing
    cache.insert(key("host/foo"), b"yeet".to_vec(), 5000, 1000);
    assert_eq!(cache.is_empty(), false);
    assert_eq!(cache.len(), 2);
    assert_eq!(cache.clean_up(1100), 0);
    assert_eq!(cache.len(), 2);
    assert_eq!(cache.get(&key("host/foo")).unwrap(), &b"yeet".to_vec());
}

#[test]
fn test_remove() {
    let mut cache = Cache::new();
    cache.insert(key("host/foo"), b"bar".to_vec(), 5000, 1000);
    cache.insert(key("host/bar"), b"cheese".to_vec(), 5000, 1000);
    assert_eq!(cache.is_empty(), false);
    assert_eq!(cache.len(), 2);
    cache.remove(&key("host/foo"));
    assert_eq!(cache.is_empty(), false);
    assert_eq!(cache.len(), 1);
    // a sweep that would have found the removed entry must not observe it
    assert_eq!(cache.clean_up(9000), 1);
    assert!(cache.get(&key("host/foo")).is_none());
    assert!(cache.get(&key("host/bar")).is_none());
}
