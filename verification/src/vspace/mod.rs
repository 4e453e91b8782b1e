//! General virtual address-space definitions: the kernel windows, their
//! constants, and the traits a virtual address space offers.

pub mod allocation;
pub mod kernel;
pub mod page;
pub mod paging;
pub mod stack;
pub mod translation;
pub mod window;

use crate::util::GB;
use crate::util::MB;
use crate::util::MemRange;
use vstd::prelude::*;

pub use allocation::Allocation;
pub use translation::Translation;
pub use window::Window;

verus! {

/// Start of the kernel window.
///
/// The first part of the kernel window is the 'low' portion, which eventually
/// includes all but the final 2 GiB of virtual address space. Initially it
/// only contains 4 GiB of mappings.
pub const KERNEL_BASE: u64 = 0xffffff8000000000;

/// End of the default (and initial) part of the kernel window.
///
/// The final kernel window only creates mappings where memory actually
/// exists, except for this range which is guaranteed to always be mapped.
pub const KERNEL_BASE_DEFAULT_END: u64 = KERNEL_BASE + 4 * GB;

/// Start of the kernel image window.
///
/// This is the 'high' portion of the kernel window, the place the kernel is
/// virtually linked and executed from.
pub const KERNEL_IMAGE_BASE: u64 = 0xffffffff80000000;

/// End of the kernel image window: the image is given a single 1 GiB slot.
pub const KERNEL_IMAGE_END: u64 = KERNEL_IMAGE_BASE + GB;

/// Start of the kernel dynamic virtual address range, used for devices,
/// stacks and other non-contiguous allocations.
pub const KERNEL_DYNAMIC_START: u64 = KERNEL_IMAGE_BASE + GB;

/// End of the kernel dynamic range.
///
/// The range is made one byte short of 2 GiB past the image base, effectively
/// forbidding the last page, as the true end would not be representable.
pub const KERNEL_DYNAMIC_END: u64 = KERNEL_IMAGE_BASE + (2 * GB - 1);

/// Physical address that `KERNEL_BASE` and `KERNEL_IMAGE_BASE` map to.
pub const KERNEL_PHYS_BASE: u64 = 0;

/// Physical address the kernel is initially loaded to.
pub const KERNEL_PADDR_LOAD: u64 = MB;

/// Process-context identifier used for all kernel mappings.
pub const KERNEL_PCID: u16 = 1;

/// Default (and initial) virtual range of the kernel window.
pub open spec fn kernel_base_default_range() -> MemRange {
    MemRange { start: KERNEL_BASE, end: KERNEL_BASE_DEFAULT_END }
}

/// Virtual range of the kernel image window.
pub open spec fn kernel_image_range() -> MemRange {
    MemRange { start: KERNEL_IMAGE_BASE, end: KERNEL_IMAGE_END }
}

/// Virtual range of the kernel dynamic area.
pub open spec fn kernel_dynamic_range() -> MemRange {
    MemRange { start: KERNEL_DYNAMIC_START, end: KERNEL_DYNAMIC_END }
}

/// A virtual address space: a translation that can also hand out parts of
/// itself.
pub trait VSpace: Translation + Allocation {

}

} // verus!
