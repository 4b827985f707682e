use blockio_sim::cache::{Buffer, LfuCache};
use blockio_sim::error::ConfigError;
use std::collections::VecDeque;

fn sectors(segment: &VecDeque<Buffer>) -> Vec<u32> {
    segment.iter().map(|buffer| buffer.sector).collect()
}

fn counter(cache: &LfuCache, sector: u32) -> Option<u32> {
    cache
        .left()
        .iter()
        .chain(cache.middle().iter())
        .chain(cache.right().iter())
        .find(|buffer| buffer.sector == sector)
        .map(|buffer| buffer.counter)
}

fn resident(cache: &LfuCache) -> Vec<u32> {
    let mut all = sectors(cache.left());
    all.extend(sectors(cache.middle()));
    all.extend(sectors(cache.right()));
    all
}

#[test]
fn cache_new_is_empty() {
    let cache = LfuCache::new(6, 2, 2).unwrap();
    assert!(cache.left().is_empty());
    assert!(cache.middle().is_empty());
    assert!(cache.right().is_empty());
    assert_eq!(cache.total_buffers(), 6);
    assert_eq!(cache.left_max(), 2);
    assert_eq!(cache.middle_max(), 2);
    assert!(!cache.contains(10));
}

#[test]
fn cache_new_rejects_segments_beyond_total() {
    assert_eq!(LfuCache::new(3, 2, 2).err(), Some(ConfigError::SegmentsExceedTotal));
    assert_eq!(LfuCache::new(0, 1, 0).err(), Some(ConfigError::SegmentsExceedTotal));
    assert_eq!(LfuCache::new(0, 0, 1).err(), Some(ConfigError::SegmentsExceedTotal));
    assert_eq!(
        LfuCache::new(10, usize::MAX, usize::MAX).err(),
        Some(ConfigError::SegmentsExceedTotal)
    );
}

#[test]
fn cache_new_accepts_segments_that_fill_the_total() {
    assert!(LfuCache::new(4, 2, 2).is_ok());
    assert!(LfuCache::new(0, 0, 0).is_ok());
    assert!(LfuCache::new(usize::MAX, usize::MAX, 0).is_ok());
}

#[test]
fn cache_trace_promotes_and_cascades() {
    let mut cache = LfuCache::new(6, 2, 2).unwrap();
    cache.access(10);
    cache.access(20);
    assert_eq!(sectors(cache.left()), vec![20, 10]);
    assert!(cache.middle().is_empty());

    cache.access(30);
    assert_eq!(sectors(cache.left()), vec![30, 20]);
    assert_eq!(sectors(cache.middle()), vec![10]);

    cache.access(10);
    assert_eq!(sectors(cache.left()), vec![10, 30]);
    assert_eq!(sectors(cache.middle()), vec![20]);
    assert!(cache.right().is_empty());
    assert_eq!(counter(&cache, 10), Some(2));
    assert_eq!(counter(&cache, 30), Some(1));
    assert_eq!(counter(&cache, 20), Some(1));
}

#[test]
fn cache_hit_in_left_counts_in_place() {
    let mut cache = LfuCache::new(6, 2, 2).unwrap();
    cache.access(10);
    cache.access(20);
    cache.access(10);
    cache.access(10);
    assert_eq!(sectors(cache.left()), vec![20, 10]);
    assert_eq!(counter(&cache, 10), Some(3));
    assert_eq!(counter(&cache, 20), Some(1));
}

#[test]
fn cache_hit_in_right_promotes_to_left() {
    let mut cache = LfuCache::new(6, 2, 2).unwrap();
    for sector in [1, 2, 3, 4, 5] {
        cache.access(sector);
    }
    assert_eq!(sectors(cache.left()), vec![5, 4]);
    assert_eq!(sectors(cache.middle()), vec![3, 2]);
    assert_eq!(sectors(cache.right()), vec![1]);

    cache.access(1);
    assert_eq!(sectors(cache.left()), vec![1, 5]);
    assert_eq!(sectors(cache.middle()), vec![4, 3]);
    assert_eq!(sectors(cache.right()), vec![2]);
    assert_eq!(counter(&cache, 1), Some(2));
}

#[test]
fn cache_evicts_lowest_counter_from_right() {
    let mut cache = LfuCache::new(4, 1, 1).unwrap();
    // Sector 1 is accessed twice while it is hot, then pushed down to the cold segment.
    cache.access(1);
    cache.access(1);
    cache.access(2);
    cache.access(3);
    cache.access(4);
    assert_eq!(sectors(cache.left()), vec![4]);
    assert_eq!(sectors(cache.middle()), vec![3]);
    assert_eq!(sectors(cache.right()), vec![2, 1]);

    // Sector 3 arrives in the cold segment; of the counts 1 (sector 3), 1 (sector 2)
    // and 2 (sector 1) the lowest count on the lowest sector leaves: sector 2.
    cache.access(5);
    assert_eq!(sectors(cache.left()), vec![5]);
    assert_eq!(sectors(cache.middle()), vec![4]);
    assert_eq!(sectors(cache.right()), vec![3, 1]);
    assert!(!cache.contains(2));
    assert!(cache.contains(1));
}

#[test]
fn cache_eviction_breaks_ties_by_lowest_sector() {
    let mut cache = LfuCache::new(3, 1, 1).unwrap();
    cache.access(9);
    cache.access(7);
    cache.access(8);
    assert_eq!(sectors(cache.right()), vec![9]);
    // Sector 7 arrives beside sector 9, both counted once: 7 leaves.
    cache.access(5);
    assert_eq!(sectors(cache.left()), vec![5]);
    assert_eq!(sectors(cache.middle()), vec![8]);
    assert_eq!(sectors(cache.right()), vec![9]);
    assert!(!cache.contains(7));
}

#[test]
fn cache_with_no_cold_segment_evicts_at_once() {
    let mut cache = LfuCache::new(2, 1, 1).unwrap();
    cache.access(1);
    cache.access(2);
    cache.access(3);
    assert_eq!(sectors(cache.left()), vec![3]);
    assert_eq!(sectors(cache.middle()), vec![2]);
    assert!(cache.right().is_empty());
    assert!(!cache.contains(1));
}

#[test]
fn cache_of_nothing_holds_nothing() {
    let mut cache = LfuCache::new(0, 0, 0).unwrap();
    cache.access(1);
    cache.access(1);
    assert!(resident(&cache).is_empty());
    assert!(!cache.contains(1));
}

#[test]
fn cache_with_no_hot_segment_passes_buffers_on() {
    let mut cache = LfuCache::new(2, 0, 1).unwrap();
    cache.access(1);
    assert!(cache.left().is_empty());
    assert_eq!(sectors(cache.middle()), vec![1]);
    cache.access(2);
    assert_eq!(sectors(cache.middle()), vec![2]);
    assert_eq!(sectors(cache.right()), vec![1]);
    cache.access(1);
    assert_eq!(sectors(cache.middle()), vec![1]);
    assert_eq!(sectors(cache.right()), vec![2]);
    assert_eq!(counter(&cache, 1), Some(2));
}

#[test]
fn cache_contains_scans_all_segments() {
    let mut cache = LfuCache::new(6, 2, 2).unwrap();
    for sector in [1, 2, 3, 4, 5] {
        cache.access(sector);
    }
    for sector in [1, 2, 3, 4, 5] {
        assert!(cache.contains(sector));
    }
    assert!(!cache.contains(6));
    assert!(!cache.contains(0));
}

#[test]
fn cache_never_overfills_and_never_duplicates() {
    let mut cache = LfuCache::new(5, 2, 1).unwrap();
    let mut sector: u32 = 1;
    for _ in 0..500 {
        sector = (sector * 37 + 11) % 23;
        cache.access(sector);
        assert!(cache.left().len() <= 2);
        assert!(cache.middle().len() <= 1);
        assert!(cache.right().len() <= 2);
        let mut all = resident(&cache);
        assert!(all.len() <= 5);
        let before = all.len();
        all.sort();
        all.dedup();
        assert_eq!(all.len(), before);
        assert!(cache.contains(sector));
    }
}

#[test]
fn cache_evicted_buffer_is_the_coldest_of_right() {
    let mut cache = LfuCache::new(6, 1, 1).unwrap();
    let right_max = 4;
    let mut sector: u32 = 3;
    let mut evictions = 0;
    let mut decided_by_counter = 0;
    for step in 0..600 {
        sector = (sector * 29 + 7) % 31;
        if cache.contains(sector) {
            cache.access(sector);
            continue;
        }
        if step % 3 == 0 {
            // A second access while the sector is hot raises its count.
            cache.access(sector);
            cache.access(sector);
            continue;
        }
        // A miss pushes the back of the warm segment on to the cold segment.
        let mut crowd: Vec<Buffer> = cache.middle().back().copied().into_iter().collect();
        crowd.extend(cache.right().iter().copied());
        let hot_and_warm_full = cache.left().len() == 1 && cache.middle().len() == 1;
        cache.access(sector);
        let kept: Vec<Buffer> = cache.right().iter().copied().collect();
        if hot_and_warm_full && crowd.len() > right_max {
            let gone: Vec<Buffer> =
                crowd.iter().copied().filter(|buffer| !kept.contains(buffer)).collect();
            assert_eq!(gone.len(), 1);
            assert_eq!(kept.len(), right_max);
            for other in &kept {
                assert!((gone[0].counter, gone[0].sector) < (other.counter, other.sector));
            }
            evictions += 1;
            if kept.iter().any(|other| other.sector < gone[0].sector) {
                decided_by_counter += 1;
            }
        } else if hot_and_warm_full {
            assert_eq!(kept, crowd);
        }
    }
    assert!(evictions > 10);
    assert!(decided_by_counter > 0);
}
