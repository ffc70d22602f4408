use mles::cache::{CompressionCache, MAX_FILE_SIZE, MB};
use std::sync::Arc;

#[test]
fn test_cache_operations() {
    let mut cache = CompressionCache::new(10);
    cache.insert("file1.js", "br", vec![1, 2, 3]);
    let data = cache.get("file1.js", "br").unwrap();
    assert_eq!(*data, vec![1, 2, 3]);
    let data2 = Arc::clone(&data);
    assert_eq!(*data2, vec![1, 2, 3]);
}

#[test]
fn test_lru_eviction() {
    let mut cache = CompressionCache::new(1);
    let large_data = vec![0u8; 500_000];
    cache.insert("file1", "br", large_data.clone());
    cache.insert("file2", "br", large_data.clone());
    assert!(cache.get("file1", "br").is_some());
    assert!(cache.get("file2", "br").is_some());
    cache.get("file1", "br");
    cache.insert("file3", "br", large_data);
    assert!(cache.get("file1", "br").is_some());
    assert!(cache.get("file2", "br").is_none());
    assert!(cache.get("file3", "br").is_some());
}

#[test]
fn test_update_existing() {
    let mut cache = CompressionCache::new(10);
    cache.insert("a", "br", vec![1, 2, 3]);
    cache.insert("a", "br", vec![4, 5, 6, 7]);
    let data = cache.get("a", "br").unwrap();
    assert_eq!(*data, vec![4, 5, 6, 7]);
    assert_eq!(cache.len(), 1);
}

#[test]
fn test_max_file_size() {
    let mut cache = CompressionCache::new(10);
    let huge_data = vec![0u8; 2_000_000];
    cache.insert("huge", "br", huge_data);
    assert!(cache.get("huge", "br").is_none());
    assert_eq!(cache.len(), 0);
}

#[test]
fn test_access_updates_lru() {
    let mut cache = CompressionCache::new(1);
    let data = vec![0u8; 400_000];
    cache.insert("a", "br", data.clone());
    cache.insert("b", "br", data.clone());
    cache.get("a", "br");
    cache.insert("c", "br", data);
    assert!(cache.get("a", "br").is_some());
    assert!(cache.get("b", "br").is_none());
    assert!(cache.get("c", "br").is_some());
}

#[test]
fn cache_read_after_write_and_size() {
    let mut cache = CompressionCache::new(2);
    cache.insert("x", "zstd", vec![7; 10]);
    assert_eq!(cache.current_size(), 10);
    assert_eq!(cache.get("x", "zstd").map(|d| d.len()), Some(10));
    // the coding is part of the key
    assert!(cache.get("x", "br").is_none());
}

#[test]
fn cache_file_of_exactly_max_size_is_kept() {
    let mut cache = CompressionCache::new(2);
    cache.insert("m", "br", vec![1; MAX_FILE_SIZE]);
    assert_eq!(cache.len(), 1);
    assert_eq!(cache.current_size(), MAX_FILE_SIZE);
}

#[test]
fn cache_clear_empties() {
    let mut cache = CompressionCache::new(1);
    cache.insert("a", "br", vec![1]);
    cache.clear();
    assert_eq!(cache.len(), 0);
    assert_eq!(cache.current_size(), 0);
    assert!(cache.get("a", "br").is_none());
}

#[test]
fn cache_size_stays_within_max() {
    let mut cache = CompressionCache::new(1);
    for i in 0..10u8 {
        let name = format!("f{}", i);
        cache.insert(&name, "br", vec![i; 300_000]);
        assert!(cache.current_size() <= 1_048_576);
    }
}

#[test]
fn cache_fills_exactly_to_its_limit() {
    let mut cache = CompressionCache::new(2);
    cache.insert("a", "br", vec![1u8; MAX_FILE_SIZE]);
    cache.insert("b", "br", vec![2u8; MAX_FILE_SIZE]);
    assert_eq!(cache.current_size(), 2 * MB);
    assert_eq!(cache.get("a", "br").map(|d| d.len()), Some(MAX_FILE_SIZE));
    // one more byte does not fit: the least recently used file leaves
    cache.insert("c", "br", vec![3u8; 1]);
    assert_eq!(cache.current_size(), MB + 1);
    assert!(cache.get("b", "br").is_none());
}
