//! Boot-time concerns: the initial translation window, command-line
//! processing, bootloader handoff parsing and the boot state.

pub mod cmdline;
pub mod multiboot;
pub mod state;
pub mod vspace;

use crate::heap::{
    add_boot_mem, add_used_mem, ledger_wf, ranges_overlap, region_range, RegionLedger,
    StoredMemRegion, MAX_REGIONS,
};
use crate::util::MemRange;
use vstd::prelude::*;

verus! {

/// Marks the memory the kernel image and the physical boot code occupy.
///
/// The image range is recorded as used for good; the phys-boot range is
/// only used during boot and can be reclaimed later. Reports failure when
/// the ledger is full; the caller treats that as fatal.
pub fn mark_image_mem(ledger: &mut RegionLedger, image: MemRange, phys_boot: MemRange) -> (r:
    bool)
    requires
        ledger_wf(old(ledger).regions@),
        image.wf(),
        phys_boot.wf(),
        forall|i: int|
            0 <= i < old(ledger).regions@.len() && (#[trigger] old(ledger).regions@[i]) is USED
                ==> !ranges_overlap(region_range(old(ledger).regions@[i]), image),
    ensures
        ledger_wf(final(ledger).regions@),
        r == (old(ledger).regions@.len() + 2 <= MAX_REGIONS),
        r ==> final(ledger).regions@ == old(ledger).regions@.push(
            StoredMemRegion::USED(image),
        ).push(StoredMemRegion::BOOT(phys_boot)),
{
    if ledger.regions.len() + 2 > MAX_REGIONS {
        return false;
    }
    let ok = add_used_mem(ledger, image);
    if !ok {
        return false;
    }
    add_boot_mem(ledger, phys_boot)
}

} // verus!
