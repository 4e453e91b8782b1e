//! Early-boot memory and address-space bring-up for a small x86-64 kernel.
//!
//! The crate models the boot sequence's hard core: translation between the
//! kernel's virtual windows and physical memory, command-line processing,
//! bootloader handoff parsing, the region ledger, the buddy allocator, CPU
//! feature gating, PAT programming, page-table construction and the kernel
//! stack layout. Hardware access (MSR writes, CR3 loads, port I/O) is left
//! to the surrounding binary; everything here is ordinary computation with
//! verified contracts.

pub mod boot;
pub mod cpu;
pub mod decls;
pub mod heap;
pub mod ip_collections;
pub mod state;
pub mod util;
pub mod vspace;

