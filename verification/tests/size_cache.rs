use buffa::size_cache::INLINE_CAP;
use buffa::{SizeCache, SizeCachePool, MAX_MESSAGE_BYTES};

#[test]
fn empty_cache_is_default() {
    let c = SizeCache::new();
    assert_eq!(c.len(), 0);
    assert_eq!(c.cursor(), 0);
    assert!(c.spill().is_empty());
}

#[test]
fn default_cache_is_empty() {
    let c = SizeCache::default();
    assert_eq!(c.len(), 0);
    assert_eq!(c.cursor(), 0);
    assert!(c.spill().is_empty());
}

#[test]
fn spill_past_inline_cap_preserves_order() {
    const N: usize = INLINE_CAP * 2 + 5;
    let mut c = SizeCache::new();
    let slots: Vec<usize> = (0..N).map(|_| c.reserve()).collect();
    // Fill in reverse to prove set() addresses by slot index, not push order.
    for (i, &s) in slots.iter().enumerate().rev() {
        c.set(s, i as u32 * 7);
    }
    assert_eq!(c.spill().len(), N - INLINE_CAP);
    for i in 0..N {
        assert_eq!(c.consume_next(), i as u32 * 7);
    }
}

#[test]
fn boundary_at_inline_cap() {
    let mut c = SizeCache::new();
    for i in 0..INLINE_CAP {
        let s = c.reserve();
        c.set(s, i as u32);
    }
    assert!(c.spill().is_empty(), "no spill at exactly INLINE_CAP");
    let s = c.reserve();
    c.set(s, 999);
    assert_eq!(c.spill().len(), 1);
    for i in 0..INLINE_CAP {
        assert_eq!(c.consume_next(), i as u32);
    }
    assert_eq!(c.consume_next(), 999);
}

#[test]
fn reserve_set_next_roundtrip() {
    let mut c = SizeCache::new();
    let s0 = c.reserve();
    let s1 = c.reserve();
    c.set(s0, 10);
    c.set(s1, 20);
    assert_eq!(c.consume_next(), 10);
    assert_eq!(c.consume_next(), 20);
}

#[test]
fn preorder_reservation_with_nested_recursion() {
    // Root has children [A, B]; A has child X. Entry order: A, X, B.
    let mut c = SizeCache::new();
    let slot_a = c.reserve();
    let slot_x = c.reserve();
    c.set(slot_x, 5);
    c.set(slot_a, 7);
    let slot_b = c.reserve();
    c.set(slot_b, 3);

    assert_eq!(c.consume_next(), 7); // A's length prefix
    assert_eq!(c.consume_next(), 5); // X's length prefix, inside A
    assert_eq!(c.consume_next(), 3); // B's length prefix
}

#[test]
fn clear_resets_and_retains_capacity() {
    let mut c = SizeCache::new();
    for _ in 0..(INLINE_CAP + 4) {
        c.reserve();
    }
    let cap = c.spill().capacity();
    assert!(cap >= 4);
    c.clear();
    assert_eq!(c.len(), 0);
    assert_eq!(c.cursor(), 0);
    assert!(c.spill().capacity() >= cap);
    // Reusable after clear:
    let s = c.reserve();
    c.set(s, 99);
    assert_eq!(c.consume_next(), 99);
}

#[test]
fn reserve_without_set_yields_zero() {
    let mut c = SizeCache::new();
    let _ = c.reserve();
    assert_eq!(c.consume_next(), 0);
}

#[test]
fn clear_then_reserve_without_set_yields_zero() {
    let mut c = SizeCache::new();
    for i in 0..(INLINE_CAP + 3) {
        let s = c.reserve();
        c.set(s, (i + 100) as u32);
    }
    c.clear();
    // After clear, a fresh reserve() must overwrite stale inline data.
    let _ = c.reserve();
    assert_eq!(c.consume_next(), 0);
}

#[test]
fn miri_soundness_interleaved_reserve_set_consume() {
    let mut c = SizeCache::new();
    // Two full inline tiers' worth, crossing the spill boundary.
    let n = INLINE_CAP * 2 + 3;
    let slots: Vec<usize> = (0..n).map(|_| c.reserve()).collect();
    // Fill out of order (reverse) to decouple set order from reserve order.
    for (i, &s) in slots.iter().enumerate().rev() {
        c.set(s, (i as u32).wrapping_mul(3).wrapping_add(1));
    }
    for i in 0..n {
        assert_eq!(c.consume_next(), (i as u32).wrapping_mul(3).wrapping_add(1));
    }
    // Reuse: a shorter run must not read the stale tail.
    c.clear();
    let a = c.reserve();
    let b = c.reserve();
    c.set(b, 20);
    assert_eq!(c.consume_next(), 0);
    assert_eq!(c.consume_next(), 20);
    let _ = a;
}

/// Drive a cache from the pool through enough reserves to force a spill,
/// fill the slots, then return it.
fn spill_and_return(pool: &mut SizeCachePool, slots: usize) {
    let mut c = pool.acquire();
    for i in 0..slots {
        let s = c.reserve();
        c.set(s, i as u32);
    }
    pool.release(c);
}

#[test]
fn with_spill_buffer_clears_and_retains_capacity() {
    let mut donor = Vec::with_capacity(40);
    donor.extend_from_slice(&[7, 7, 7]);
    let cap = donor.capacity();
    let c = SizeCache::with_spill_buffer(donor);
    assert_eq!(c.len(), 0);
    assert!(c.spill().is_empty());
    assert!(c.spill().capacity() >= cap, "retains donor capacity");
}

#[test]
fn into_spill_buffer_roundtrips_through_with_spill_buffer() {
    let mut c = SizeCache::new();
    for _ in 0..(INLINE_CAP + 5) {
        c.reserve();
    }
    let buf = c.into_spill_buffer();
    let grown = buf.capacity();
    assert!(grown >= 5);
    let c2 = SizeCache::with_spill_buffer(buf);
    assert!(c2.spill().capacity() >= grown, "allocation reused");
    assert_eq!(c2.len(), 0);
}

#[test]
fn pool_reuses_spill_allocation() {
    let mut pool = SizeCachePool::new(4, 1024);
    spill_and_return(&mut pool, INLINE_CAP + 5);
    assert_eq!(pool.free().len(), 1, "spilled buffer retained");
    let grown = pool.free()[0].capacity();
    // Next acquire hands back the grown buffer.
    let c = pool.acquire();
    assert!(c.spill().capacity() >= grown, "spill capacity reused");
    assert_eq!(c.len(), 0);
}

#[test]
fn pool_does_not_retain_non_spilling_caches() {
    let mut pool = SizeCachePool::new(4, 1024);
    let mut c = pool.acquire();
    let s = c.reserve(); // stays inline, no heap buffer
    c.set(s, 1);
    pool.release(c);
    assert!(pool.free().is_empty(), "empty (cap 0) buffers are not pooled");
}

#[test]
fn pool_respects_max_buffers() {
    let mut pool = SizeCachePool::new(1, 1024);
    for _ in 0..3 {
        spill_and_return(&mut pool, INLINE_CAP + 2);
    }
    assert!(pool.free().len() <= 1, "free-list bounded by max_buffers");
}

#[test]
fn pool_shrinks_oversized_buffer_on_return() {
    let mut pool = SizeCachePool::new(4, 8);
    spill_and_return(&mut pool, INLINE_CAP + 100);
    assert!(
        pool.free()[0].capacity() <= 8,
        "oversized buffer shrunk to cap"
    );
}

#[test]
fn pool_acquire_release_default_is_empty() {
    let mut pool = SizeCachePool::new(2, 64);
    let c = pool.acquire(); // empty pool -> fresh cache
    assert_eq!(c.len(), 0);
    pool.release(c); // never spilled -> dropped
    assert!(pool.free().is_empty());
}

#[test]
fn pool_sequential_caps_buffers_at_one() {
    let mut pool = SizeCachePool::sequential(1024);
    assert_eq!(pool.max_buffers(), 1);
    for _ in 0..3 {
        spill_and_return(&mut pool, INLINE_CAP + 2);
    }
    assert_eq!(pool.free().len(), 1, "sequential retains exactly one buffer");
}

#[test]
fn pool_max_capacity_zero_disables_retention() {
    let mut pool = SizeCachePool::new(4, 0);
    // Even a spilled buffer shrinks to 0 and must not be parked empty.
    spill_and_return(&mut pool, INLINE_CAP + 50);
    assert!(
        pool.free().is_empty(),
        "max_capacity 0 retains no (zero-capacity) buffers"
    );
    // And the pool still yields a usable cache.
    let mut c = pool.acquire();
    let s = c.reserve();
    c.set(s, 9);
    assert_eq!(c.consume_next(), 9);
}

#[test]
fn release_keeps_what_has_an_allocation() {
    let mut pool = SizeCachePool::new(1, 8);
    pool.release(SizeCache::with_spill_buffer(Vec::new()));
    assert!(pool.free().is_empty(), "nothing to offer");
    let lent = SizeCache::with_spill_buffer(Vec::with_capacity(4));
    assert!(lent.is_allocated());
    pool.release(lent);
    assert_eq!(pool.free().len(), 1, "a lent buffer is kept though nothing spilled");
    assert!(pool.free()[0].capacity() >= 4);
    pool.release(SizeCache::with_spill_buffer(vec![1, 2, 3]));
    assert_eq!(pool.free().len(), 1, "full");
    assert!(pool.free()[0].is_empty());
}

#[test]
fn allocation_is_tracked() {
    let mut c = SizeCache::new();
    for _ in 0..INLINE_CAP {
        c.reserve();
        assert!(!c.is_allocated());
    }
    c.reserve();
    assert!(c.is_allocated());
    c.clear();
    assert!(c.is_allocated());
    assert!(c.spill().capacity() > 0);
}

#[test]
fn consume_next_allows_exactly_max_message_bytes() {
    let mut c = SizeCache::new();
    let s = c.reserve();
    c.set(s, MAX_MESSAGE_BYTES);
    assert_eq!(c.consume_next(), MAX_MESSAGE_BYTES);
}

#[test]
fn clear_empties_spill_and_reuse_reads_back_new_values() {
    let mut c = SizeCache::new();
    for _ in 0..INLINE_CAP + 2 {
        let s = c.reserve();
        c.set(s, 111);
    }
    c.clear();
    assert!(c.spill().is_empty());
    for _ in 0..INLINE_CAP + 2 {
        let s = c.reserve();
        c.set(s, 222);
    }
    assert_eq!(c.spill().len(), 2);
    for _ in 0..INLINE_CAP + 2 {
        assert_eq!(c.consume_next(), 222);
    }
}

#[test]
fn spill_len_tracks_len_past_inline_cap() {
    let mut c = SizeCache::new();
    for i in 0..INLINE_CAP + 2 {
        let idx = c.reserve();
        assert_eq!(idx, i);
        assert_eq!(c.len() as usize, i + 1);
        assert_eq!(c.spill().len(), (i + 1).saturating_sub(INLINE_CAP));
    }
    // The last reserved slot is in the spill tier and `set` reaches it.
    c.set(INLINE_CAP + 1, 99);
    for _ in 0..=INLINE_CAP {
        let _ = c.consume_next();
    }
    assert_eq!(c.consume_next(), 99);
}

#[test]
fn record_submessage_counts_prefix_and_body() {
    let mut c = SizeCache::new();
    let s = c.reserve();
    assert_eq!(c.record_submessage(s, 0), 1);
    assert_eq!(c.record_submessage(s, 127), 128);
    assert_eq!(c.record_submessage(s, 128), 130);
    assert_eq!(c.record_submessage(s, u32::MAX), u32::MAX as u64 + 5);
    assert_eq!(c.consume_next(), u32::MAX);
}

#[test]
fn dump_shows_slots_in_use() {
    let mut c = SizeCache::new();
    for i in 0..INLINE_CAP + 1 {
        let s = c.reserve();
        c.set(s, i as u32);
    }
    c.consume_next();
    let dump = c.dump();
    assert_eq!(dump.len, 17);
    assert_eq!(dump.cursor, 1);
    assert_eq!(dump.inline, (0..16).collect::<Vec<u32>>());
    assert_eq!(dump.spill, vec![16]);
    c.clear();
    assert!(c.dump().inline.is_empty());
}
