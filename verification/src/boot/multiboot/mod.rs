//! Bootloader handoff structures.
//!
//! The kernel advertises itself with the v1 header and, concatenated
//! behind it in one aligned blob, the v2 header; the bootloader picks
//! whichever protocol it speaks. Placing the blob in its linker section is
//! the embedding binary's concern.

pub mod v1;

use vstd::prelude::*;

verus! {

/// The magic of the v2 header.
pub const MAGIC2: u32 = 0xe85250d6;

/// The second-protocol header: magic, architecture, length and checksum,
/// followed by the terminating tag.
#[derive(Clone, Copy, Debug, PartialEq, Eq, Structural)]
pub struct Header2 {
    pub magic: u32,
    pub arch: u32,
    pub header_length: u32,
    pub checksum: u32,
    pub end_tag_type: u16,
    pub end_tag_flags: u16,
    pub end_tag_size: u32,
}

impl Header2 {
    /// The header the kernel advertises: zero architecture, its own
    /// length, a checksum that balances the three fields before it, and
    /// the empty end tag.
    pub fn new() -> (r: Header2)
        ensures
            r.magic == MAGIC2,
            r.arch == 0,
            r.header_length == 24,
            (r.magic + r.arch + r.header_length + r.checksum) % 0x100000000 == 0,
            r.end_tag_type == 0,
            r.end_tag_flags == 0,
            r.end_tag_size == 8,
    {
        let checksum: u64 = 0x100000000 - (MAGIC2 as u64 + 24);
        proof {
            assert(MAGIC2 + 24 + checksum == 0x100000000);
            vstd::arithmetic::div_mod::lemma_mod_self_0(0x100000000);
        }
        Header2 {
            magic: MAGIC2,
            arch: 0,
            header_length: 24,
            checksum: checksum as u32,
            end_tag_type: 0,
            end_tag_flags: 0,
            end_tag_size: 8,
        }
    }
}

} // verus!
