//! Buddy allocator behaviour.

use earlyboot::heap::buddy::Buddy;
use earlyboot::heap::{enable_heap, heap_allocate, AllocProxy};

#[test]
fn allocate_from_empty_pools_fails() {
    let mut b = Buddy::new();
    assert_eq!(b.allocate(7), 0);
    assert_eq!(b.allocate(30), 0);
}

#[test]
fn add_then_allocate_returns_aligned_nonzero_blocks() {
    let mut b = Buddy::new();
    b.add(0x100000, 0x100000);
    let p1 = b.allocate(7);
    assert_ne!(p1, 0);
    assert_eq!(p1 % 128, 0);
    let p2 = b.allocate(12);
    assert_ne!(p2, 0);
    assert_eq!(p2 % 4096, 0);
    // live allocations never overlap
    assert!(p1 + 128 <= p2 || p2 + 4096 <= p1);
}

#[test]
fn alloc_free_round_trip_restores_the_pool() {
    let mut b = Buddy::new();
    b.add(0x100000, 0x100000);
    let p = b.allocate(7);
    assert_ne!(p, 0);
    b.free(p, 7);
    let again = b.allocate(7);
    assert_eq!(p, again);
}

#[test]
fn freeing_both_buddies_coalesces_them() {
    // the scenario: free an order-7 block, then its buddy 128 bytes up;
    // one order-8 block at the lower address results
    let mut b = Buddy::new();
    let a: u64 = 0x4000;
    b.free(a, 7);
    b.free(a + 128, 7);
    // an order-8 request is served by the coalesced block without any
    // order-8 memory ever being donated
    assert_eq!(b.allocate(8), a);
    assert_eq!(b.allocate(7), 0);
}

#[test]
fn coalescing_cascades_upwards() {
    let mut b = Buddy::new();
    let a: u64 = 0x8000;
    b.free(a, 7);
    b.free(a + 256, 7);
    b.free(a + 384, 7);
    b.free(a + 128, 7);
    assert_eq!(b.allocate(9), a);
}

#[test]
fn add_discards_misaligned_fragments() {
    let mut b = Buddy::new();
    // 100 bytes below the minimum block never become allocatable
    b.add(0x2010, 100);
    assert_eq!(b.allocate(7), 0);
}

#[test]
fn add_aligns_the_low_end() {
    let mut b = Buddy::new();
    // [0x1070, 0x1200): the low end moves up to 0x1080, leaving one
    // order-7 block there and one order-8 block at 0x1100
    b.add(0x1070, 0x190);
    assert_eq!(b.allocate(7), 0x1080);
    assert_eq!(b.allocate(8), 0x1100);
    assert_eq!(b.allocate(7), 0);
}

#[test]
fn requests_below_the_minimum_order_are_rounded_up() {
    let mut b = Buddy::new();
    b.free(0x2000, 7);
    let p = b.allocate(0);
    assert_eq!(p, 0x2000);
}

#[test]
fn debug_free_flag_follows_the_option() {
    let mut b = Buddy::new();
    assert!(!b.heap_debug_free_enabled());
    b.heap_debug_free("off");
    assert!(!b.heap_debug_free_enabled());
    b.heap_debug_free("on");
    assert!(b.heap_debug_free_enabled());
}

#[test]
fn heap_allocate_rounds_to_the_covering_order() {
    let mut proxy = AllocProxy::new();
    assert!(!proxy.is_enabled());
    enable_heap(&mut proxy);
    assert!(proxy.is_enabled());
    let mut b = Buddy::new();
    b.add(0x100000, 0x100000);
    // 200 bytes fit an order-8 block: the result is 256-byte aligned
    let p = heap_allocate(&proxy, &mut b, 200, 8);
    assert_ne!(p, 0);
    assert_eq!(p % 256, 0);
    // alignment dominates size when larger
    let q = heap_allocate(&proxy, &mut b, 16, 4096);
    assert_ne!(q, 0);
    assert_eq!(q % 4096, 0);
}
