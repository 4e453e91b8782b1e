//! Definitions for boot time vspaces.

use crate::util::{range_contains, range_contains_spec, MemRange, GB};
use crate::vspace::{
    kernel_base_default_range, kernel_image_range, Allocation, Translation, VSpace, Window,
    KERNEL_BASE, KERNEL_BASE_DEFAULT_END, KERNEL_IMAGE_BASE, KERNEL_IMAGE_END, KERNEL_PHYS_BASE,
};
use vstd::prelude::*;

verus! {

/// The translation the bootloader hands the kernel: two fixed windows, each
/// mapping linearly to physical memory by subtracting its base.
pub struct Init;

/// The physical range that the image window projects back from: the low
/// gigabyte is expressible both ways, and physical addresses reachable
/// through two virtual aliases disambiguate to the image window.
pub open spec fn image_backing_range() -> MemRange {
    MemRange { start: KERNEL_PHYS_BASE, end: (KERNEL_PHYS_BASE + GB) as u64 }
}

impl Translation for Init {
    open spec fn valid_spec(&self, range: MemRange) -> bool {
        range_contains_spec(kernel_base_default_range(), range) || range_contains_spec(
            kernel_image_range(),
            range,
        )
    }

    open spec fn to_paddr_spec(&self, range: MemRange) -> Option<MemRange> {
        if range_contains_spec(kernel_base_default_range(), range) {
            Some(
                MemRange {
                    start: (range.start - (KERNEL_BASE - KERNEL_PHYS_BASE)) as u64,
                    end: (range.end - (KERNEL_BASE - KERNEL_PHYS_BASE)) as u64,
                },
            )
        } else if range_contains_spec(kernel_image_range(), range) {
            Some(
                MemRange {
                    start: (range.start - (KERNEL_IMAGE_BASE - KERNEL_PHYS_BASE)) as u64,
                    end: (range.end - (KERNEL_IMAGE_BASE - KERNEL_PHYS_BASE)) as u64,
                },
            )
        } else {
            None
        }
    }

    open spec fn to_vaddr_spec(&self, range: MemRange) -> Option<MemRange> {
        if range_contains_spec(image_backing_range(), range) {
            Some(
                MemRange {
                    start: (range.start - KERNEL_PHYS_BASE + KERNEL_IMAGE_BASE) as u64,
                    end: (range.end - KERNEL_PHYS_BASE + KERNEL_IMAGE_BASE) as u64,
                },
            )
        } else {
            None
        }
    }

    proof fn valid_iff_translates(&self, range: MemRange) {
    }

    proof fn lemma_translation_stable(&self, range: MemRange) {
    }

    fn range_valid(&self, range: &MemRange) -> (r: bool) {
        let default_range = MemRange { start: KERNEL_BASE, end: KERNEL_BASE_DEFAULT_END };
        let image_range = MemRange { start: KERNEL_IMAGE_BASE, end: KERNEL_IMAGE_END };
        range_contains(&default_range, range) || range_contains(&image_range, range)
    }

    fn vaddr_to_paddr_range(&self, range: &MemRange) -> (r: Option<MemRange>) {
        let default_range = MemRange { start: KERNEL_BASE, end: KERNEL_BASE_DEFAULT_END };
        let image_range = MemRange { start: KERNEL_IMAGE_BASE, end: KERNEL_IMAGE_END };
        if range_contains(&default_range, range) {
            Some(
                MemRange {
                    start: range.start - (KERNEL_BASE - KERNEL_PHYS_BASE),
                    end: range.end - (KERNEL_BASE - KERNEL_PHYS_BASE),
                },
            )
        } else if range_contains(&image_range, range) {
            Some(
                MemRange {
                    start: range.start - (KERNEL_IMAGE_BASE - KERNEL_PHYS_BASE),
                    end: range.end - (KERNEL_IMAGE_BASE - KERNEL_PHYS_BASE),
                },
            )
        } else {
            None
        }
    }

    fn paddr_to_vaddr_range(&self, range: &MemRange) -> (r: Option<MemRange>) {
        let backing = MemRange { start: KERNEL_PHYS_BASE, end: KERNEL_PHYS_BASE + GB };
        if range_contains(&backing, range) {
            Some(
                MemRange {
                    start: range.start - KERNEL_PHYS_BASE + KERNEL_IMAGE_BASE,
                    end: range.end - KERNEL_PHYS_BASE + KERNEL_IMAGE_BASE,
                },
            )
        } else {
            None
        }
    }
}

impl Allocation for Init {
    open spec fn alloc_result(&self, size: u64, align: u64) -> Option<u64> {
        None
    }

    open spec fn after_alloc(&self, size: u64, align: u64) -> Init {
        Init
    }

    open spec fn reserve_result(&self, size: u64, align: u64) -> Option<u64> {
        None
    }

    open spec fn after_reserve(&self, size: u64, align: u64) -> Init {
        Init
    }

    open spec fn fill_result(&self, base: u64, size: u64) -> Option<u64> {
        None
    }

    open spec fn after_fill(&self, base: u64, size: u64) -> Init {
        Init
    }

    fn allocate(&mut self, size: u64, align: u64) -> (r: Option<u64>) {
        None
    }

    fn reserve(&mut self, size: u64, align: u64) -> (r: Option<u64>) {
        None
    }

    fn fill(&mut self, base: u64, size: u64) -> (r: Option<u64>) {
        None
    }
}

impl VSpace for Init {

}

impl Window for Init {
    open spec fn valid_spec(&self, range: MemRange) -> bool {
        Translation::valid_spec(self, range)
    }

    open spec fn to_paddr_spec(&self, range: MemRange) -> Option<MemRange> {
        Translation::to_paddr_spec(self, range)
    }

    open spec fn to_vaddr_spec(&self, range: MemRange) -> Option<MemRange> {
        Translation::to_vaddr_spec(self, range)
    }

    open spec fn alloc_unused_result(&self, size: u64, align: u64) -> Option<u64> {
        None
    }

    open spec fn after_alloc_unused(&self, size: u64, align: u64) -> Init {
        Init
    }

    fn range_valid(&self, range: &MemRange) -> (r: bool) {
        Translation::range_valid(self, range)
    }

    fn vaddr_to_paddr_range(&self, range: &MemRange) -> (r: Option<MemRange>) {
        Translation::vaddr_to_paddr_range(self, range)
    }

    fn paddr_to_vaddr_range(&self, range: &MemRange) -> (r: Option<MemRange>) {
        Translation::paddr_to_vaddr_range(self, range)
    }

    fn alloc_unused(&mut self, size: u64, align: u64) -> (r: Option<u64>) {
        None
    }
}

impl Init {
    /// Construct the Init vspace window.
    pub fn make() -> (r: Init)
        ensures
            r == Init,
    {
        Init
    }
}

/// The initial kernel window maps its default range onto the first 4 GiB of
/// physical memory, exactly; a virtual range straddling either boundary of
/// the default range has no translation at all.
pub proof fn lemma_initial_window_exact(t: Init)
    ensures
        Translation::to_paddr_spec(&t, kernel_base_default_range()) == Some(
            MemRange { start: 0, end: (4 * GB) as u64 },
        ),
        forall|r: MemRange|
            r.start < KERNEL_BASE && r.end > KERNEL_BASE ==> Translation::to_paddr_spec(&t, r)
                is None,
        forall|r: MemRange|
            r.start < KERNEL_BASE_DEFAULT_END && r.end > KERNEL_BASE_DEFAULT_END
                ==> Translation::to_paddr_spec(&t, r) is None,
{
}

} // verus!
