//! Freelist bookkeeping and counters of the caching allocator.

use ferro::allocator::{AllocStats, BinPool, MAX_PER_BIN};

fn stats(requests: u64, hits: u64, driver_allocs: u64, recycled: u64, released: u64) -> AllocStats {
    AllocStats { requests, hits, driver_allocs, recycled, released }
}

#[test]
fn misses_then_hits_after_warm_up() {
    let mut pool: BinPool<&str> = BinPool::new(true);
    assert!(pool.is_enabled());
    assert_eq!(pool.request(4), None);
    assert_eq!(pool.recycle(4, "a"), None);
    assert_eq!(pool.pooled(), 1);
    // The steady state re-requests the same shape: served from the bin.
    assert_eq!(pool.request(4), Some("a"));
    assert_eq!(pool.pooled(), 0);
    assert_eq!(pool.request(4), None);
    assert_eq!(pool.stats(), stats(3, 1, 2, 1, 0));
    let s = pool.stats();
    assert_eq!(s.requests, s.hits + s.driver_allocs);
}

#[test]
fn bins_are_exact_length_and_last_in_first_out() {
    let mut pool: BinPool<u32> = BinPool::new(true);
    assert_eq!(pool.recycle(4, 1), None);
    assert_eq!(pool.recycle(4, 2), None);
    assert_eq!(pool.recycle(0, 3), None);
    assert_eq!(pool.request(5), None);
    assert_eq!(pool.request(4), Some(2));
    assert_eq!(pool.request(4), Some(1));
    // Zero-length slices are binned like any other.
    assert_eq!(pool.request(0), Some(3));
    assert_eq!(pool.stats(), stats(4, 3, 1, 3, 0));
}

#[test]
fn full_bins_release_to_the_driver() {
    let mut pool: BinPool<usize> = BinPool::new(true);
    for i in 0..MAX_PER_BIN {
        assert_eq!(pool.recycle(8, i), None);
    }
    assert_eq!(pool.recycle(8, 99), Some(99));
    assert_eq!(pool.pooled(), MAX_PER_BIN);
    assert_eq!(pool.recycle(9, 7), None);
    assert_eq!(pool.pooled(), MAX_PER_BIN + 1);
    assert_eq!(pool.stats(), stats(0, 0, 0, 65, 1));
}

#[test]
fn passthrough_never_pools() {
    let mut pool: BinPool<&str> = BinPool::new(false);
    assert!(!pool.is_enabled());
    assert_eq!(pool.recycle(4, "a"), Some("a"));
    assert_eq!(pool.request(4), None);
    assert_eq!(pool.pooled(), 0);
    assert_eq!(pool.stats(), stats(1, 0, 1, 0, 1));
    assert!(!pool.retry_after_failure());
}

#[test]
fn clearing_and_failure_retries_drop_the_pool_but_keep_counters() {
    let mut pool: BinPool<u8> = BinPool::new(true);
    pool.recycle(1, 1);
    pool.recycle(2, 2);
    let before = pool.stats();
    pool.clear();
    assert_eq!(pool.pooled(), 0);
    assert_eq!(pool.stats(), before);
    assert_eq!(pool.request(1), None);
    pool.recycle(3, 3);
    assert!(pool.retry_after_failure());
    assert_eq!(pool.pooled(), 0);
    assert_eq!(pool.request(3), None);
}

#[test]
fn stats_since_is_the_per_interval_delta() {
    let earlier = stats(10, 4, 6, 3, 1);
    let later = stats(15, 8, 7, 9, 2);
    assert_eq!(later.since(&earlier), stats(5, 4, 1, 6, 1));
    assert_eq!(later.since(&later), stats(0, 0, 0, 0, 0));
}
