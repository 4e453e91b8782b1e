//! The region ledger and the donation of memory to the heap.

use earlyboot::boot::mark_image_mem;
use earlyboot::boot::vspace::Init;
use earlyboot::cpu::features::{FeatureBits, Features};
use earlyboot::heap::buddy::Buddy;
use earlyboot::heap::{
    add_boot_mem, add_mem, add_mem_owned, add_mem_physical, add_used_mem, enable_high_mem,
    RegionLedger, StoredMemRegion,
};
use earlyboot::util::MemRange;
use earlyboot::vspace::kernel::make_kernel_address_space;
use earlyboot::vspace::{KERNEL_BASE, KERNEL_IMAGE_BASE};

fn all_features() -> Features {
    let bits = FeatureBits {
        long_mode: true,
        fpu: true,
        tsc: true,
        msr: true,
        apic: true,
        pat: true,
        pge: true,
        page1gb: true,
        nxe: true,
    };
    Features::evaluate(&bits).unwrap()
}

#[test]
fn ledger_is_append_only_and_bounded() {
    let mut ledger = RegionLedger::new();
    for i in 0..8u64 {
        let base = 0x100000 * (i + 1);
        assert!(add_boot_mem(&mut ledger, MemRange { start: base, end: base + 0x1000 }));
    }
    assert_eq!(ledger.regions.len(), 8);
    assert!(!add_used_mem(&mut ledger, MemRange { start: 0x10, end: 0x20 }));
    assert_eq!(ledger.regions.len(), 8);
}

#[test]
fn mark_image_mem_records_used_and_boot() {
    let mut ledger = RegionLedger::new();
    let image = MemRange { start: KERNEL_IMAGE_BASE + 0x100000, end: KERNEL_IMAGE_BASE + 0x200000 };
    let boot = MemRange { start: KERNEL_IMAGE_BASE + 0x1000, end: KERNEL_IMAGE_BASE + 0x100000 };
    assert!(mark_image_mem(&mut ledger, image, boot));
    assert_eq!(ledger.regions.len(), 2);
    assert_eq!(ledger.regions[0], StoredMemRegion::USED(image));
    assert_eq!(ledger.regions[1], StoredMemRegion::BOOT(boot));
}

#[test]
fn add_mem_skips_used_regions() {
    // the donated window minus a used hole reaches the allocator
    let mut ledger = RegionLedger::new();
    let used = MemRange { start: KERNEL_BASE + 0x200000, end: KERNEL_BASE + 0x300000 };
    assert!(add_used_mem(&mut ledger, used));
    let mut heap = Buddy::new();
    let range = MemRange { start: KERNEL_BASE + 0x100000, end: KERNEL_BASE + 0x400000 };
    assert!(add_mem(&Init, range, &ledger, &mut heap));
    // the two megabyte-sized pieces around the hole are allocatable
    let p1 = heap.allocate(20);
    assert_eq!(p1, KERNEL_BASE + 0x100000);
    let p2 = heap.allocate(20);
    assert_eq!(p2, KERNEL_BASE + 0x300000);
    assert_eq!(heap.allocate(20), 0);
}

#[test]
fn add_mem_rejects_ranges_outside_the_window() {
    let ledger = RegionLedger::new();
    let mut heap = Buddy::new();
    // far below the kernel window: the initial translation rejects it
    let range = MemRange { start: 0x100000, end: 0x200000 };
    assert!(!add_mem(&Init, range, &ledger, &mut heap));
}

#[test]
fn add_mem_owned_donates_directly() {
    let mut heap = Buddy::new();
    add_mem_owned(&mut heap, MemRange { start: 0x100000, end: 0x140000 });
    assert_eq!(heap.allocate(18), 0x100000);
}

#[test]
fn high_memory_is_deferred_and_drained_after_activation() {
    // a region entirely above 4 GiB is not reachable through the initial
    // window: it is recorded as high and the heap receives nothing
    let mut ledger = RegionLedger::new();
    let mut heap = Buddy::new();
    let phys = MemRange { start: 0x100000000, end: 0x180000000 };
    assert!(add_mem_physical(&Init, phys, &mut ledger, &mut heap));
    assert_eq!(ledger.regions.len(), 1);
    assert_eq!(ledger.regions[0], StoredMemRegion::HIGH(phys));
    assert_eq!(heap.allocate(20), 0);

    // after switching to the final kernel address space the region is
    // reachable, the drain donates it, and allocation succeeds with an
    // address inside the new kernel window
    let features = all_features();
    let kvs = make_kernel_address_space(&Init, &features, 0x100000);
    assert!(enable_high_mem(&kvs, &ledger, &mut heap));
    let p = heap.allocate(20);
    assert_eq!(p, KERNEL_BASE + 0x100000000);
    assert!(p >= KERNEL_BASE);
}

#[test]
fn reachable_physical_memory_goes_straight_to_the_heap() {
    let mut ledger = RegionLedger::new();
    let mut heap = Buddy::new();
    // one megabyte at one megabyte: inside the image back-projection
    let phys = MemRange { start: 0x100000, end: 0x200000 };
    assert!(add_mem_physical(&Init, phys, &mut ledger, &mut heap));
    assert_eq!(ledger.regions.len(), 0);
    assert_eq!(heap.allocate(20), KERNEL_IMAGE_BASE + 0x100000);
}

#[test]
fn boot_flow_wires_cmdline_options_into_the_heap() {
    // the advertised cmdline names an early console and enables the
    // expensive free-path checking
    let decls = vec![
        earlyboot::decls::cmdline_decl(String::from("earlycon")),
        earlyboot::decls::cmdline_decl(String::from("heap_debug_free")),
    ];
    let calls =
        earlyboot::boot::cmdline::process("--earlycon=serial --heap_debug_free=on", &decls);
    assert_eq!(calls.len(), 2);
    assert_eq!(calls[0].option, "earlycon");
    assert_eq!(calls[0].value, "serial");
    let mut heap = Buddy::new();
    for c in &calls {
        if c.option == "heap_debug_free" {
            heap.heap_debug_free(&c.value);
        }
    }
    assert!(heap.heap_debug_free_enabled());

    // the advertised region, minus the recorded image, reaches the buddy
    let mut ledger = RegionLedger::new();
    let image = MemRange { start: KERNEL_BASE + 0x200000, end: KERNEL_BASE + 0x400000 };
    let phys_boot = MemRange { start: KERNEL_BASE + 0x100000, end: KERNEL_BASE + 0x200000 };
    assert!(mark_image_mem(&mut ledger, image, phys_boot));
    let phys = MemRange { start: 0x100000, end: 0x500000 };
    // the low 4 GiB are not reversible through the initial window's
    // physical lookup, so donate the window-mapped virtual range
    let virt = MemRange { start: KERNEL_BASE + phys.start, end: KERNEL_BASE + phys.end };
    assert!(add_mem(&Init, virt, &ledger, &mut heap));
    // the first allocatable megabyte-aligned block lies past the image
    let p = heap.allocate(20);
    assert_eq!(p, KERNEL_BASE + 0x400000);
}
