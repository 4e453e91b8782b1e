//! The bootloader-v1 protocol: the header that identifies the kernel to
//! the bootloader, the handoff signature, and the decoding of the
//! information block the bootloader passes.

use vstd::prelude::*;

verus! {

/// The magic the kernel's header carries.
pub const MAGIC: u32 = 0x1BADB002;

/// The signature a conforming bootloader passes in the first argument of
/// the handoff.
pub const SIGNATURE: u32 = 0x2BADB002;

/// The memory-map region type that denotes usable memory.
pub const MEMORY_AVAILABLE: u32 = 1;

/// Whether the first handoff argument identifies the bootloader family.
pub fn signature_matches(sig: u32) -> (r: bool)
    ensures
        r == (sig == SIGNATURE),
{
    sig == SIGNATURE
}

/// The header the bootloader looks for in the kernel image.
#[derive(Clone, Copy, Debug, PartialEq, Eq, Structural)]
pub struct Header {
    pub magic: u32,
    pub flags: u32,
    pub checksum: u32,
    pub header_addr: u32,
    pub load_addr: u32,
    pub load_end_addr: u32,
    pub bss_end_addr: u32,
    pub entry_addr: u32,
    pub mode_type: u32,
    pub width: u32,
    pub height: u32,
    pub depth: u32,
}

/// The sum of every header field the checksum has to balance.
pub open spec fn header_field_sum(h: Header) -> int {
    h.magic + h.flags + h.header_addr + h.load_addr + h.load_end_addr + h.bss_end_addr
        + h.entry_addr + h.mode_type + h.width + h.height + h.depth
}

impl Header {
    /// Fill in the checksum: the value that makes the field sum vanish
    /// modulo the field width.
    pub fn with_checksum(candidate: Header) -> (r: Header)
        ensures
            r.magic == candidate.magic,
            r.flags == candidate.flags,
            r.header_addr == candidate.header_addr,
            r.load_addr == candidate.load_addr,
            r.load_end_addr == candidate.load_end_addr,
            r.bss_end_addr == candidate.bss_end_addr,
            r.entry_addr == candidate.entry_addr,
            r.mode_type == candidate.mode_type,
            r.width == candidate.width,
            r.height == candidate.height,
            r.depth == candidate.depth,
            (header_field_sum(r) + r.checksum) % 0x100000000 == 0,
    {
        let sum: u64 = candidate.magic as u64 + candidate.flags as u64
            + candidate.header_addr as u64 + candidate.load_addr as u64
            + candidate.load_end_addr as u64 + candidate.bss_end_addr as u64
            + candidate.entry_addr as u64 + candidate.mode_type as u64 + candidate.width as u64
            + candidate.height as u64 + candidate.depth as u64;
        let rem: u64 = sum % 0x100000000;
        let checksum: u64 = (0x100000000 - rem) % 0x100000000;
        proof {
            vstd::arithmetic::div_mod::lemma_fundamental_div_mod(sum as int, 0x100000000);
            vstd::arithmetic::div_mod::lemma_fundamental_div_mod(
                (0x100000000 - rem) as int,
                0x100000000,
            );
            let q = sum as int / 0x100000000;
            assert(sum as int + checksum == 0x100000000 * q + rem + checksum);
            if rem == 0 {
                assert(checksum == 0);
            } else {
                assert(checksum == 0x100000000 - rem);
            }
            assert((sum as int + checksum) % 0x100000000 == 0) by {
                if rem == 0 {
                    vstd::arithmetic::div_mod::lemma_mod_multiples_basic(q, 0x100000000);
                    assert(q * 0x100000000 == 0x100000000 * q) by (nonlinear_arith);
                } else {
                    vstd::arithmetic::div_mod::lemma_mod_multiples_basic(q + 1, 0x100000000);
                    assert((q + 1) * 0x100000000 == 0x100000000 * q + 0x100000000) by (
                    nonlinear_arith);
                }
            }
        }
        Header {
            magic: candidate.magic,
            flags: candidate.flags,
            checksum: checksum as u32,
            header_addr: candidate.header_addr,
            load_addr: candidate.load_addr,
            load_end_addr: candidate.load_end_addr,
            bss_end_addr: candidate.bss_end_addr,
            entry_addr: candidate.entry_addr,
            mode_type: candidate.mode_type,
            width: candidate.width,
            height: candidate.height,
            depth: candidate.depth,
        }
    }

    /// The header the kernel advertises: the magic, no flags, and a
    /// checksum that balances the fields.
    pub fn new() -> (r: Header)
        ensures
            r.magic == MAGIC,
            r.flags == 0,
            (header_field_sum(r) + r.checksum) % 0x100000000 == 0,
    {
        Header::with_checksum(
            Header {
                magic: MAGIC,
                flags: 0,
                checksum: 0,
                header_addr: 0,
                load_addr: 0,
                load_end_addr: 0,
                bss_end_addr: 0,
                entry_addr: 0,
                mode_type: 0,
                width: 0,
                height: 0,
                depth: 0,
            },
        )
    }
}

/// The little-endian 32-bit value stored at `off`.
pub open spec fn le_u32(b: Seq<u8>, off: int) -> int {
    b[off] + 0x100 * b[off + 1] + 0x10000 * b[off + 2] + 0x1000000 * b[off + 3]
}

/// Read the little-endian 32-bit value at `off`.
pub fn read_u32(bytes: &[u8], off: usize) -> (r: u32)
    requires
        off + 4 <= bytes@.len(),
    ensures
        r == le_u32(bytes@, off as int),
{
    let b0 = bytes[off] as u32;
    let b1 = bytes[off + 1] as u32;
    let b2 = bytes[off + 2] as u32;
    let b3 = bytes[off + 3] as u32;
    b0 + 0x100 * b1 + 0x10000 * b2 + 0x1000000 * b3
}

/// The fixed fields of the bootloader's information block that this
/// kernel consumes.
#[derive(Clone, Copy, Debug, PartialEq, Eq, Structural)]
pub struct BootInfo {
    pub flags: u32,
    pub cmdline_addr: u32,
    pub mmap_length: u32,
    pub mmap_addr: u32,
}

/// Decode the head of the information block; a block too short to hold
/// the fixed fields is rejected.
pub fn parse_info(bytes: &[u8]) -> (r: Option<BootInfo>)
    ensures
        bytes@.len() < 52 ==> r is None,
        bytes@.len() >= 52 ==> (r matches Some(info) && info.flags == le_u32(bytes@, 0)
            && info.cmdline_addr == le_u32(bytes@, 16) && info.mmap_length == le_u32(bytes@, 44)
            && info.mmap_addr == le_u32(bytes@, 48)),
{
    if bytes.len() < 52 {
        return None;
    }
    Some(
        BootInfo {
            flags: read_u32(bytes, 0),
            cmdline_addr: read_u32(bytes, 16),
            mmap_length: read_u32(bytes, 44),
            mmap_addr: read_u32(bytes, 48),
        },
    )
}

impl BootInfo {
    /// Whether the block advertises a command line.
    pub fn has_cmdline(&self) -> (r: bool)
        ensures
            r == (self.flags & 0x4 != 0),
    {
        self.flags & 0x4 != 0
    }

    /// Whether the block advertises a memory map.
    pub fn has_memory_map(&self) -> (r: bool)
        ensures
            r == (self.flags & 0x40 != 0),
    {
        self.flags & 0x40 != 0
    }
}

/// One region of the bootloader's memory map.
#[derive(Clone, Copy, Debug, PartialEq, Eq, Structural)]
pub struct MemoryEntry {
    pub base_addr: u64,
    pub length: u64,
    pub mem_type: u32,
}

impl MemoryEntry {
    /// Whether the region is usable as free memory.
    pub fn is_available(&self) -> (r: bool)
        ensures
            r == (self.mem_type == MEMORY_AVAILABLE),
    {
        self.mem_type == MEMORY_AVAILABLE
    }
}

/// The memory-map entries encoded from `off` on: each record carries its
/// own size in its first field and the region fields behind it, and the
/// next record starts that size plus four bytes later. A truncated record
/// ends the map.
pub open spec fn mmap_entries(b: Seq<u8>, off: int) -> Seq<MemoryEntry>
    decreases b.len() - off,
{
    if off < 0 || off + 24 > b.len() {
        Seq::empty()
    } else {
        let size = le_u32(b, off);
        let entry = MemoryEntry {
            base_addr: (le_u32(b, off + 4) + 0x100000000 * le_u32(b, off + 8)) as u64,
            length: (le_u32(b, off + 12) + 0x100000000 * le_u32(b, off + 16)) as u64,
            mem_type: le_u32(b, off + 20) as u32,
        };
        if off + size + 4 > b.len() {
            seq![entry]
        } else {
            seq![entry] + mmap_entries(b, off + size + 4)
        }
    }
}

/// Decode the memory map from the raw bytes of the map area.
pub fn parse_memory_map(bytes: &[u8]) -> (r: Vec<MemoryEntry>)
    ensures
        r@ == mmap_entries(bytes@, 0),
{
    let mut entries: Vec<MemoryEntry> = Vec::new();
    let mut off: usize = 0;
    let n = bytes.len();
    proof {
        assert(entries@ + mmap_entries(bytes@, 0) =~= mmap_entries(bytes@, 0));
    }
    loop
        invariant
            off <= n,
            n == bytes@.len(),
            mmap_entries(bytes@, 0) == entries@ + mmap_entries(bytes@, off as int),
        decreases n - off,
    {
        if off > n || n - off < 24 {
            proof {
                assert(mmap_entries(bytes@, off as int) =~= Seq::<MemoryEntry>::empty());
                assert(entries@ + Seq::<MemoryEntry>::empty() =~= entries@);
            }
            return entries;
        }
        let size = read_u32(bytes, off);
        let base_lo = read_u32(bytes, off + 4);
        let base_hi = read_u32(bytes, off + 8);
        let len_lo = read_u32(bytes, off + 12);
        let len_hi = read_u32(bytes, off + 16);
        let mem_type = read_u32(bytes, off + 20);
        let entry = MemoryEntry {
            base_addr: base_lo as u64 + 0x100000000 * base_hi as u64,
            length: len_lo as u64 + 0x100000000 * len_hi as u64,
            mem_type,
        };
        if size as u64 + 4 > (n - off) as u64 {
            // the next record would start beyond the map
            proof {
                assert(mmap_entries(bytes@, off as int) == seq![entry]);
                assert(entries@.push(entry) =~= entries@ + seq![entry]);
            }
            entries.push(entry);
            return entries;
        }
        proof {
            assert(mmap_entries(bytes@, off as int) == seq![entry] + mmap_entries(
                bytes@,
                off + size + 4,
            ));
            assert(entries@.push(entry) + mmap_entries(bytes@, off + size + 4) =~= entries@ + (
            seq![entry] + mmap_entries(bytes@, off + size + 4)));
        }
        entries.push(entry);
        off = off + size as usize + 4;
    }
}

} // verus!
