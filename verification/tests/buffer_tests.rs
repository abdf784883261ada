use mediarepo::buffer::{BufferMode, BufferState, OnceBuffer, MAX_BUFFER_LIFETIME};

#[test]
fn once_buffer_new_keeps_its_parts() {
    let buffer = OnceBuffer::new("text/plain".to_string(), vec![1, 2, 3]);
    assert_eq!(buffer.mime, "text/plain");
    assert_eq!(buffer.buf, vec![1, 2, 3]);
}

#[test]
fn a_one_shot_entry_is_read_once() {
    let mut cache = BufferState::new();
    cache.put("k1".to_string(), "text/plain".to_string(), b"b".to_vec(), BufferMode::OneShot, 0);
    assert!(cache.contains("k1"));
    let first = cache.get("k1").unwrap();
    assert_eq!(first.mime, "text/plain");
    assert_eq!(first.buf, b"b".to_vec());
    assert!(cache.get("k1").is_none());
    assert!(!cache.contains("k1"));
    assert_eq!(cache.len(), 0);
}

#[test]
fn a_persistent_entry_survives_reads_until_swept_after_the_ttl() {
    let mut cache = BufferState::new();
    cache.put("k".to_string(), "image/png".to_string(), vec![9], BufferMode::Persistent, 1_000);
    assert_eq!(cache.get("k").unwrap().buf, vec![9]);
    assert_eq!(cache.get("k").unwrap().buf, vec![9]);
    cache.sweep(1_500, 1_000);
    assert_eq!(cache.get("k").unwrap().mime, "image/png");
    cache.sweep(2_000, 1_000);
    assert!(cache.contains("k"));
    cache.sweep(2_001, 1_000);
    assert!(cache.get("k").is_none());
}

#[test]
fn sweep_leaves_one_shot_entries_alone() {
    let mut cache = BufferState::new();
    cache.put("once".to_string(), "a/b".to_string(), vec![1], BufferMode::OneShot, 0);
    cache.put("old".to_string(), "a/b".to_string(), vec![2], BufferMode::Persistent, 0);
    cache.put("young".to_string(), "a/b".to_string(), vec![3], BufferMode::Persistent, 90);
    cache.put("older".to_string(), "a/b".to_string(), vec![4], BufferMode::Persistent, -5);
    assert_eq!(cache.len(), 4);
    cache.sweep(100, 50);
    assert_eq!(cache.len(), 2);
    assert!(cache.contains("once"));
    assert!(cache.contains("young"));
    assert!(!cache.contains("old"));
    assert!(!cache.contains("older"));
    cache.sweep(100, 50);
    assert_eq!(cache.len(), 2);
}

#[test]
fn sweep_keeps_entries_created_after_now() {
    let mut cache = BufferState::new();
    cache.put("k".to_string(), "a/b".to_string(), vec![1], BufferMode::Persistent, 500);
    cache.sweep(100, 0);
    assert!(cache.contains("k"));
    cache.sweep(i64::MAX, 10);
    assert!(!cache.contains("k"));
}

#[test]
fn sweep_handles_the_widest_time_span() {
    let mut cache = BufferState::new();
    cache.put("k".to_string(), "a/b".to_string(), vec![1], BufferMode::Persistent, i64::MIN);
    cache.sweep(i64::MAX, i64::MAX);
    assert!(!cache.contains("k"));
}

#[test]
fn put_overwrites_an_entry_with_the_same_key() {
    let mut cache = BufferState::new();
    cache.put("k".to_string(), "a/b".to_string(), vec![1], BufferMode::Persistent, 0);
    cache.put("k".to_string(), "c/d".to_string(), vec![2], BufferMode::OneShot, 10);
    assert_eq!(cache.len(), 1);
    let entry = cache.get("k").unwrap();
    assert_eq!(entry.mime, "c/d");
    assert_eq!(entry.buf, vec![2]);
    assert!(cache.get("k").is_none());
}

#[test]
fn an_unknown_key_reads_as_absent() {
    let mut cache = BufferState::new();
    assert!(cache.get("missing").is_none());
    cache.put("a".to_string(), "a/b".to_string(), vec![1], BufferMode::Persistent, 0);
    assert!(cache.get("b").is_none());
    assert!(cache.get("").is_none());
    assert_eq!(cache.len(), 1);
}

#[test]
fn kept_entries_are_cleared_after_the_buffer_lifetime() {
    assert_eq!(MAX_BUFFER_LIFETIME, 30_000);
    let mut cache = BufferState::new();
    cache.add_entry("k".to_string(), "a/b".to_string(), vec![1], 1_000);
    cache.put("once".to_string(), "a/b".to_string(), vec![2], BufferMode::OneShot, 1_000);
    assert_eq!(cache.get("k").unwrap().buf, vec![1]);
    cache.clear_expired(31_000);
    assert!(cache.contains("k"));
    cache.clear_expired(31_001);
    assert!(!cache.contains("k"));
    assert!(cache.contains("once"));
}
