//! CPU feature gating, PAT programming and the bootloader protocol.

use earlyboot::boot::multiboot::v1::{
    parse_info, parse_memory_map, signature_matches, Header, MemoryEntry, MEMORY_AVAILABLE,
    SIGNATURE,
};
use earlyboot::cpu::features::{FeatureBits, Features, Missing, Required};
use earlyboot::cpu::pat::{new_value, Entry, Index};
use earlyboot::cpu::MemoryType;

fn bits_with(pat: bool, long_mode: bool) -> FeatureBits {
    FeatureBits {
        long_mode,
        fpu: true,
        tsc: true,
        msr: true,
        apic: true,
        pat,
        pge: true,
        page1gb: true,
        nxe: true,
    }
}

#[test]
fn required_features_all_present_succeeds() {
    assert!(Required::evaluate(&bits_with(true, true)).is_ok());
    let f = Features::evaluate(&bits_with(true, true)).unwrap();
    assert!(f.page1gb.is_some());
    assert!(f.pge.is_some());
    assert!(f.nxe.is_some());
}

#[test]
fn missing_pat_names_pat() {
    // a CPU without PAT stops the boot before any page table is built
    assert_eq!(Required::evaluate(&bits_with(false, true)).unwrap_err(), Missing::PAT);
    assert_eq!(Features::evaluate(&bits_with(false, true)).unwrap_err(), Missing::PAT);
}

#[test]
fn missing_features_are_reported_in_checking_order() {
    assert_eq!(Required::evaluate(&bits_with(false, false)).unwrap_err(), Missing::LongMode);
    let mut b = bits_with(true, true);
    b.fpu = false;
    b.tsc = false;
    assert_eq!(Required::evaluate(&b).unwrap_err(), Missing::FPU);
}

#[test]
fn pat_value_programs_the_fixed_table() {
    let v = new_value(0xaabb_0000_0000_0000);
    assert_eq!(v & 0xff, 6); // index 0: write back
    assert_eq!((v >> 8) & 0xff, 4); // index 1: write through
    assert_eq!((v >> 16) & 0xff, 7); // index 2: uncacheable
    assert_eq!((v >> 24) & 0xff, 0); // index 3: strong uncacheable
    assert_eq!((v >> 32) & 0xff, 1); // index 4: write combining
    assert_eq!((v >> 40) & 0xff, 5); // index 5: write protect
    assert_eq!((v >> 48) & 0xff, 0xbb); // index 6: preserved
    assert_eq!((v >> 56) & 0xff, 0xaa); // index 7: preserved
    assert_eq!(v, 0xaabb_0501_0007_0406);
}

#[test]
fn pat_indices_follow_the_standard_bit_triple() {
    let wb = Entry(MemoryType::WB).index();
    assert_eq!(wb.index(), 0);
    assert!(!wb.pwt() && !wb.pcd() && !wb.pat());
    let uc = Entry(MemoryType::UC).index();
    assert_eq!(uc.index(), 2);
    assert!(!uc.pwt() && uc.pcd() && !uc.pat());
    let wc = Entry(MemoryType::WC).index();
    assert_eq!(wc.index(), 4);
    assert!(!wc.pwt() && !wc.pcd() && wc.pat());
    let wp = Index(5);
    assert!(wp.pwt() && !wp.pcd() && wp.pat());
    assert_eq!(Entry(MemoryType::WB).value(), 6);
    assert_eq!(Entry(MemoryType::WC).value(), 1);
    assert_eq!(Entry(MemoryType::StrongUC).value(), 0);
}

#[test]
fn header_balances_its_checksum() {
    let h = Header::new();
    assert_eq!(h.magic, 0x1badb002);
    assert_eq!(h.flags, 0);
    assert_eq!(h.magic.wrapping_add(h.flags).wrapping_add(h.checksum), 0);
    assert_eq!(h.checksum, 0xe452_4ffe);
}

#[test]
fn bootloader_signature_is_recognised() {
    assert!(signature_matches(0x2badb002));
    assert_eq!(SIGNATURE, 0x2badb002);
    assert!(!signature_matches(0x1badb002));
    assert!(!signature_matches(0));
}

fn push_u32(v: &mut Vec<u8>, x: u32) {
    v.extend_from_slice(&x.to_le_bytes());
}

#[test]
fn info_block_decodes_its_fixed_fields() {
    let mut b = vec![0u8; 52];
    b[0..4].copy_from_slice(&0x44u32.to_le_bytes()); // flags: cmdline + mmap
    b[16..20].copy_from_slice(&0x9000u32.to_le_bytes()); // cmdline address
    b[44..48].copy_from_slice(&48u32.to_le_bytes()); // mmap length
    b[48..52].copy_from_slice(&0xa000u32.to_le_bytes()); // mmap address
    let info = parse_info(&b).unwrap();
    assert_eq!(info.flags, 0x44);
    assert!(info.has_cmdline());
    assert!(info.has_memory_map());
    assert_eq!(info.cmdline_addr, 0x9000);
    assert_eq!(info.mmap_length, 48);
    assert_eq!(info.mmap_addr, 0xa000);
    assert!(parse_info(&[0u8; 51]).is_none());
}

#[test]
fn memory_map_decodes_its_entries() {
    let mut b: Vec<u8> = Vec::new();
    // first region: one megabyte at one megabyte, available
    push_u32(&mut b, 20);
    push_u32(&mut b, 0x100000);
    push_u32(&mut b, 0);
    push_u32(&mut b, 0x7ee00000);
    push_u32(&mut b, 0);
    push_u32(&mut b, MEMORY_AVAILABLE);
    // second region: two gigabytes above the fourth, reserved
    push_u32(&mut b, 20);
    push_u32(&mut b, 0);
    push_u32(&mut b, 1);
    push_u32(&mut b, 0);
    push_u32(&mut b, 0x80000000);
    push_u32(&mut b, 2);
    let entries = parse_memory_map(&b);
    assert_eq!(entries.len(), 2);
    assert_eq!(
        entries[0],
        MemoryEntry { base_addr: 0x100000, length: 0x7ee00000, mem_type: 1 }
    );
    assert!(entries[0].is_available());
    assert_eq!(entries[1].base_addr, 0x100000000);
    assert_eq!(entries[1].length, 0x8000000000000000);
    assert!(!entries[1].is_available());
}

#[test]
fn second_protocol_header_balances_its_checksum() {
    let h = earlyboot::boot::multiboot::Header2::new();
    assert_eq!(h.magic, 0xe85250d6);
    assert_eq!(h.arch, 0);
    assert_eq!(h.header_length, 24);
    assert_eq!(
        h.magic.wrapping_add(h.arch).wrapping_add(h.header_length).wrapping_add(h.checksum),
        0
    );
    assert_eq!((h.end_tag_type, h.end_tag_flags, h.end_tag_size), (0, 0, 8));
}
