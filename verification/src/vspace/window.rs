//! A view (window) into a virtual address space.

use crate::util::MemRange;
use vstd::prelude::*;

verus! {

/// A window over a virtual address space.
///
/// Like `Translation` the window understands which virtual ranges are valid
/// and how to convert between them and physical addresses; in addition it
/// can be asked for an unused portion of itself.
pub trait Window: Sized {
    /// Which virtual ranges this window accepts.
    spec fn valid_spec(&self, range: MemRange) -> bool;

    /// The physical range a virtual range converts to, when any.
    spec fn to_paddr_spec(&self, range: MemRange) -> Option<MemRange>;

    /// The virtual range a physical range converts back to, when any.
    spec fn to_vaddr_spec(&self, range: MemRange) -> Option<MemRange>;

    /// What `alloc_unused` returns in this state.
    spec fn alloc_unused_result(&self, size: u64, align: u64) -> Option<u64>;

    /// The state after `alloc_unused`.
    spec fn after_alloc_unused(&self, size: u64, align: u64) -> Self;

    /// Check if a range is valid.
    fn range_valid(&self, range: &MemRange) -> (r: bool)
        ensures
            r == self.valid_spec(*range),
    ;

    /// Convert a virtual address range to a contiguous physical range.
    fn vaddr_to_paddr_range(&self, range: &MemRange) -> (r: Option<MemRange>)
        ensures
            r == self.to_paddr_spec(*range),
    ;

    /// Convert a physical address range to a contiguous virtual range.
    fn paddr_to_vaddr_range(&self, range: &MemRange) -> (r: Option<MemRange>)
        ensures
            r == self.to_vaddr_spec(*range),
    ;

    /// Convert a single virtual address to a physical address.
    fn vaddr_to_paddr(&self, vaddr: u64) -> (r: Option<u64>)
        requires
            vaddr < u64::MAX,
        ensures
            r == match self.to_paddr_spec(MemRange { start: vaddr, end: (vaddr + 1) as u64 }) {
                Some(p) => Some(p.start),
                None => None::<u64>,
            },
    {
        let range = MemRange { start: vaddr, end: vaddr + 1 };
        match self.vaddr_to_paddr_range(&range) {
            Some(p) => Some(p.start),
            None => None,
        }
    }

    /// Convert a single physical address to a virtual address.
    fn paddr_to_vaddr(&self, paddr: u64) -> (r: Option<u64>)
        requires
            paddr < u64::MAX,
        ensures
            r == match self.to_vaddr_spec(MemRange { start: paddr, end: (paddr + 1) as u64 }) {
                Some(v) => Some(v.start),
                None => None::<u64>,
            },
    {
        let range = MemRange { start: paddr, end: paddr + 1 };
        match self.paddr_to_vaddr_range(&range) {
            Some(v) => Some(v.start),
            None => None,
        }
    }

    /// Request an unused portion of the window.
    fn alloc_unused(&mut self, size: u64, align: u64) -> (r: Option<u64>)
        ensures
            r == old(self).alloc_unused_result(size, align),
            *final(self) == old(self).after_alloc_unused(size, align),
    ;
}

} // verus!
