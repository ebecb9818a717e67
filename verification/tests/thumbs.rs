use gamesync::thumbs::{LruImageCache, DEFAULT_BUDGET_BYTES, MIN_BUDGET_BYTES};

const MIB: usize = 1024 * 1024;

fn loaded(cache: &mut LruImageCache, key: u64, bytes: usize) -> Vec<u64> {
    cache.start_loading(key);
    cache.account(key, bytes)
}

#[test]
fn budgets_below_the_minimum_are_raised() {
    assert_eq!(MIN_BUDGET_BYTES, 64 * MIB);
    assert_eq!(DEFAULT_BUDGET_BYTES, 512 * MIB);
    let mut small = LruImageCache::new(0);
    assert!(loaded(&mut small, 1, 60 * MIB).is_empty());
    assert!(loaded(&mut small, 2, 4 * MIB).is_empty());
    assert_eq!(loaded(&mut small, 3, MIB), vec![1]);
}

#[test]
fn loading_thumbnails_count_once_their_size_is_known() {
    let mut cache = LruImageCache::new(DEFAULT_BUDGET_BYTES);
    cache.start_loading(7);
    assert!(cache.contains(7));
    assert!(!cache.accounted(7));
    assert_eq!(cache.bytes(), 0);
    assert!(cache.account(7, 10 * MIB).is_empty());
    assert!(cache.accounted(7));
    assert_eq!(cache.bytes(), 10 * MIB);
    assert!(cache.account(7, 20 * MIB).is_empty());
    assert_eq!(cache.bytes(), 10 * MIB);
    assert!(cache.account(8, 20 * MIB).is_empty());
    assert!(!cache.contains(8));
}

#[test]
fn the_least_recently_used_thumbnail_leaves_first() {
    let mut cache = LruImageCache::new(MIN_BUDGET_BYTES);
    assert!(loaded(&mut cache, 1, 30 * MIB).is_empty());
    assert!(loaded(&mut cache, 2, 30 * MIB).is_empty());
    assert_eq!(loaded(&mut cache, 3, 30 * MIB), vec![1]);
    assert!(!cache.contains(1));
    assert_eq!(cache.bytes(), 60 * MIB);
    cache.touch(2);
    assert_eq!(loaded(&mut cache, 4, 30 * MIB), vec![3]);
    assert!(cache.contains(2));
    assert!(cache.contains(4));
}

#[test]
fn an_oversized_thumbnail_stays_alone() {
    let mut cache = LruImageCache::new(MIN_BUDGET_BYTES);
    assert!(loaded(&mut cache, 1, 10 * MIB).is_empty());
    assert_eq!(loaded(&mut cache, 2, 100 * MIB), vec![1]);
    assert!(cache.contains(2));
    assert_eq!(cache.bytes(), 100 * MIB);
}

#[test]
fn clearing_forgets_everything() {
    let mut cache = LruImageCache::new(DEFAULT_BUDGET_BYTES);
    loaded(&mut cache, 1, MIB);
    cache.start_loading(2);
    cache.clear();
    assert_eq!(cache.bytes(), 0);
    assert!(!cache.contains(1));
    assert!(!cache.contains(2));
    cache.touch(1);
    assert!(!cache.contains(1));
}

#[test]
fn thumbnails_still_loading_are_not_evicted() {
    let mut cache = LruImageCache::new(MIN_BUDGET_BYTES);
    cache.start_loading(1);
    cache.start_loading(2);
    assert!(cache.account(2, 100_000_000).is_empty());
    assert!(cache.contains(1));
    assert!(!cache.accounted(1));
    assert_eq!(cache.bytes(), 100_000_000);
    assert_eq!(loaded(&mut cache, 3, MIB), vec![2]);
    assert!(cache.contains(1));
    assert_eq!(cache.bytes(), MIB);
}
