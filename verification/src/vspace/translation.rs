//! Interface for translating between physical and virtual address ranges.

use crate::util::MemRange;
use vstd::prelude::*;

verus! {

/// A partial, directed mapping between virtual and physical address ranges.
///
/// A translation understands which virtual address ranges are valid and how
/// to convert between those ranges and their physical counterparts. The same
/// physical memory may be viewable from several virtual addresses, so
/// converting vaddr -> paddr -> vaddr need not be the identity; conversions
/// are however stable, so chaining them keeps producing the same addresses.
pub trait Translation: Sized {
    /// Which virtual ranges this translation accepts.
    spec fn valid_spec(&self, range: MemRange) -> bool;

    /// The physical range a virtual range converts to, when any.
    spec fn to_paddr_spec(&self, range: MemRange) -> Option<MemRange>;

    /// The virtual range a physical range converts back to, when any.
    spec fn to_vaddr_spec(&self, range: MemRange) -> Option<MemRange>;

    /// A virtual range is valid exactly when it has a physical translation.
    proof fn valid_iff_translates(&self, range: MemRange)
        ensures
            self.valid_spec(range) <==> self.to_paddr_spec(range) is Some,
    ;

    /// Stability of chained conversions: converting a virtual range to
    /// physical, back to virtual and to physical again gives the original
    /// physical range, whenever every step is defined.
    proof fn lemma_translation_stable(&self, range: MemRange)
        ensures
            match self.to_paddr_spec(range) {
                Some(p) => match self.to_vaddr_spec(p) {
                    Some(v) => self.to_paddr_spec(v) == Some(p),
                    None => true,
                },
                None => true,
            },
    ;

    /// Check whether a virtual address range is valid.
    fn range_valid(&self, range: &MemRange) -> (r: bool)
        ensures
            r == self.valid_spec(*range),
    ;

    /// Convert a virtual address range to a contiguous physical range.
    fn vaddr_to_paddr_range(&self, range: &MemRange) -> (r: Option<MemRange>)
        ensures
            r == self.to_paddr_spec(*range),
    ;

    /// Convert a physical address range to a contiguous virtual range.
    fn paddr_to_vaddr_range(&self, range: &MemRange) -> (r: Option<MemRange>)
        ensures
            r == self.to_vaddr_spec(*range),
    ;

    /// Convert a single virtual address to a physical address.
    fn vaddr_to_paddr(&self, vaddr: u64) -> (r: Option<u64>)
        requires
            vaddr < u64::MAX,
        ensures
            r == match self.to_paddr_spec(MemRange { start: vaddr, end: (vaddr + 1) as u64 }) {
                Some(p) => Some(p.start),
                None => None::<u64>,
            },
    {
        let range = MemRange { start: vaddr, end: vaddr + 1 };
        match self.vaddr_to_paddr_range(&range) {
            Some(p) => Some(p.start),
            None => None,
        }
    }

    /// Convert a single physical address to a virtual address.
    fn paddr_to_vaddr(&self, paddr: u64) -> (r: Option<u64>)
        requires
            paddr < u64::MAX,
        ensures
            r == match self.to_vaddr_spec(MemRange { start: paddr, end: (paddr + 1) as u64 }) {
                Some(v) => Some(v.start),
                None => None::<u64>,
            },
    {
        let range = MemRange { start: paddr, end: paddr + 1 };
        match self.paddr_to_vaddr_range(&range) {
            Some(v) => Some(v.start),
            None => None,
        }
    }
}

} // verus!
