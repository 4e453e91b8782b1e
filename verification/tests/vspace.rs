//! Translations, page tables and the kernel stack.

use earlyboot::boot::vspace::Init;
use earlyboot::cpu::features::{FeatureBits, Features};
use earlyboot::util::MemRange;
use earlyboot::vspace::kernel::{cr3_value, make_kernel_address_space, KernelVSpace};
use earlyboot::vspace::paging::{
    PAGE_ADDR_MASK, PAGE_GLOBAL, PAGE_NX, PAGE_PAT_LARGE, PAGE_PCD, PAGE_PRESENT, PAGE_PS,
    PAGE_PWT, PAGE_RW, PAGE_US,
};
use earlyboot::vspace::stack::Stack;
use earlyboot::vspace::{Translation, KERNEL_BASE, KERNEL_IMAGE_BASE};

const GB: u64 = 0x40000000;

fn all_features() -> Features {
    let bits = FeatureBits {
        long_mode: true,
        fpu: true,
        tsc: true,
        msr: true,
        apic: true,
        pat: true,
        pge: true,
        page1gb: true,
        nxe: true,
    };
    Features::evaluate(&bits).unwrap()
}

#[test]
fn initial_window_maps_the_default_range_exactly() {
    let t = Init;
    let whole = MemRange { start: KERNEL_BASE, end: KERNEL_BASE + 4 * GB };
    assert_eq!(t.vaddr_to_paddr_range(&whole), Some(MemRange { start: 0, end: 4 * GB }));
    // ranges straddling either boundary have no translation
    let below = MemRange { start: KERNEL_BASE - 0x1000, end: KERNEL_BASE + 0x1000 };
    assert_eq!(t.vaddr_to_paddr_range(&below), None);
    let above = MemRange { start: KERNEL_BASE + 4 * GB - 0x1000, end: KERNEL_BASE + 4 * GB + 0x1000 };
    assert_eq!(t.vaddr_to_paddr_range(&above), None);
}

#[test]
fn initial_window_translates_the_image_window() {
    let t = Init;
    let image = MemRange { start: KERNEL_IMAGE_BASE, end: KERNEL_IMAGE_BASE + GB };
    assert_eq!(t.vaddr_to_paddr_range(&image), Some(MemRange { start: 0, end: GB }));
    assert_eq!(t.vaddr_to_paddr(KERNEL_IMAGE_BASE + 0x5000), Some(0x5000));
    // the reverse direction resolves into the image window alone
    assert_eq!(t.paddr_to_vaddr(0x5000), Some(KERNEL_IMAGE_BASE + 0x5000));
    assert_eq!(t.paddr_to_vaddr_range(&MemRange { start: 2 * GB, end: 2 * GB + 0x1000 }), None);
}

#[test]
fn initial_window_translations_are_stable() {
    let t = Init;
    let r = MemRange { start: KERNEL_BASE + 0x1000, end: KERNEL_BASE + 0x2000 };
    let p = t.vaddr_to_paddr_range(&r).unwrap();
    let v = t.paddr_to_vaddr_range(&p).unwrap();
    let p2 = t.vaddr_to_paddr_range(&v).unwrap();
    assert_eq!(p, p2);
}

#[test]
fn initial_window_rejects_addresses_outside_both_windows() {
    let t = Init;
    assert!(!t.range_valid(&MemRange { start: 0x1000, end: 0x2000 }));
    assert!(t.range_valid(&MemRange { start: KERNEL_BASE, end: KERNEL_BASE + 1 }));
    assert!(t.range_valid(&MemRange { start: KERNEL_IMAGE_BASE, end: KERNEL_IMAGE_BASE + 1 }));
}

#[test]
fn kernel_window_walk_has_the_promised_bits() {
    let features = all_features();
    let kvs = make_kernel_address_space(&Init, &features, 0x100000);
    for v in [
        KERNEL_BASE,
        KERNEL_BASE + 0x12345,
        KERNEL_BASE + 2 * GB,
        KERNEL_BASE + 4 * GB - 1,
    ] {
        let leaf = kvs.root.walk(v).expect("kernel window address must be mapped");
        assert_ne!(leaf & PAGE_PRESENT, 0);
        assert_ne!(leaf & PAGE_PS, 0);
        assert_ne!(leaf & PAGE_RW, 0);
        assert_eq!(leaf & PAGE_US, 0);
        assert_ne!(leaf & PAGE_NX, 0);
        assert_ne!(leaf & PAGE_GLOBAL, 0);
        // each gigabyte maps to the corresponding low physical gigabyte,
        // with write-back memory type
        assert_eq!(leaf & PAGE_ADDR_MASK, ((v - KERNEL_BASE) / GB) * GB);
        assert_eq!(leaf & (PAGE_PWT | PAGE_PCD | PAGE_PAT_LARGE), 0);
    }
    // the image window is executable and maps to physical zero
    let leaf = kvs.root.walk(KERNEL_IMAGE_BASE + 0x1000).expect("image must be mapped");
    assert_eq!(leaf & PAGE_NX, 0);
    assert_ne!(leaf & PAGE_RW, 0);
    assert_eq!(leaf & PAGE_ADDR_MASK, 0);
    assert_eq!(leaf & (PAGE_PWT | PAGE_PCD | PAGE_PAT_LARGE), 0);
    // the dynamic area is not mapped yet
    assert_eq!(kvs.root.walk(KERNEL_IMAGE_BASE + GB + 0x1000), None);
    // below the kernel window nothing is mapped
    assert_eq!(kvs.root.walk(0x1000), None);
}

#[test]
fn kernel_window_without_global_pages_clears_the_global_bit() {
    let bits = FeatureBits {
        long_mode: true,
        fpu: true,
        tsc: true,
        msr: true,
        apic: true,
        pat: true,
        pge: false,
        page1gb: true,
        nxe: false,
    };
    let features = Features::evaluate(&bits).unwrap();
    let kvs = make_kernel_address_space(&Init, &features, 0x100000);
    let leaf = kvs.root.walk(KERNEL_BASE).unwrap();
    assert_eq!(leaf & PAGE_GLOBAL, 0);
    assert_eq!(leaf & PAGE_NX, 0);
}

#[test]
fn new_kernel_stack_guards_its_low_half() {
    let features = all_features();
    let mut kvs = make_kernel_address_space(&Init, &features, 0x100000);
    let stack = Stack::new_kernel(&mut kvs, 0x200000, 0x300000, &features)
        .expect("stack reservation must succeed");
    assert_eq!(stack.guard_size, 0x200000);
    assert_eq!(stack.top_offset, 0x400000);
    assert_eq!(stack.base % 0x200000, 0);
    // every byte of the guard faults, the backed upper half is writable
    for off in [0u64, 1, 0x1000, 0x1fffff] {
        assert_eq!(kvs.root.walk(stack.base + off), None);
    }
    for off in [0x200000u64, 0x234567, 0x3fffff] {
        let leaf = kvs.root.walk(stack.base + off).expect("live stack must be mapped");
        assert_ne!(leaf & PAGE_PRESENT, 0);
        assert_ne!(leaf & PAGE_RW, 0);
        assert_eq!(leaf & PAGE_US, 0);
    }
}

#[test]
fn new_kernel_stack_fails_when_the_reservation_does_not_fit() {
    let features = all_features();
    let mut kvs = make_kernel_address_space(&Init, &features, 0x100000);
    // shrink the free dynamic range below the 4 MiB a stack needs
    kvs.dynamic_free.end = kvs.dynamic_free.start + 0x100000;
    assert!(Stack::new_kernel(&mut kvs, 0x200000, 0x300000, &features).is_none());
    // the dynamic area stays untouched
    assert_eq!(kvs.root.walk(earlyboot::vspace::KERNEL_IMAGE_BASE + GB + 0x1000), None);
}

#[test]
fn kernel_vspace_resolves_high_physical_memory() {
    let kvs = KernelVSpace::new();
    let phys = MemRange { start: 0x100000000, end: 0x180000000 };
    assert_eq!(
        kvs.paddr_to_vaddr_range(&phys),
        Some(MemRange { start: KERNEL_BASE + 0x100000000, end: KERNEL_BASE + 0x180000000 })
    );
}

#[test]
fn cr3_value_tags_the_root_with_the_kernel_pcid() {
    assert_eq!(cr3_value(0x123456789000), 0x123456789001);
    assert_eq!(cr3_value(0x123456789fff), 0x123456789001);
}
