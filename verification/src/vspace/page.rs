//! Pages and frames: the three mapping sizes and a typed page.

use crate::cpu::features::Page1GB;
use crate::util::{GB, KB, MB, MemRange};
use core::marker::PhantomData;
use vstd::prelude::*;

verus! {

pub const PAGE_SIZE_4K: u64 = 4 * KB;

pub const PAGE_SIZE_2M: u64 = 2 * MB;

pub const PAGE_SIZE_1G: u64 = GB;

/// A mapping granularity.
pub trait PageLevel {
    /// The page size of this level, for contracts.
    spec fn bytes_spec() -> u64;

    /// The page size of this level.
    fn bytes() -> (r: u64)
        ensures
            r == Self::bytes_spec(),
    ;
}

/// 4 KiB pages.
pub struct Page4K;

/// 2 MiB pages.
pub struct Page2M;

/// 1 GiB pages, only constructible when the CPU supports them.
pub struct Page1G;

impl PageLevel for Page4K {
    open spec fn bytes_spec() -> u64 {
        PAGE_SIZE_4K
    }

    fn bytes() -> u64 {
        PAGE_SIZE_4K
    }
}

impl PageLevel for Page2M {
    open spec fn bytes_spec() -> u64 {
        PAGE_SIZE_2M
    }

    fn bytes() -> u64 {
        PAGE_SIZE_2M
    }
}

impl PageLevel for Page1G {
    open spec fn bytes_spec() -> u64 {
        PAGE_SIZE_1G
    }

    fn bytes() -> u64 {
        PAGE_SIZE_1G
    }
}

/// A page: a frame that has a virtual address.
pub struct Page<S: PageLevel> {
    base: u64,
    phantom: PhantomData<S>,
}

impl<S: PageLevel> Page<S> {
    /// The page's base address, for contracts.
    pub closed spec fn base_spec(&self) -> u64 {
        self.base
    }

    /// The virtual range the page spans.
    pub fn range(&self) -> (r: MemRange)
        requires
            self.base_spec() + S::bytes_spec() <= u64::MAX,
        ensures
            r.start == self.base_spec(),
            r.end == self.base_spec() + S::bytes_spec(),
    {
        let base = self.base;
        MemRange { start: base, end: base + S::bytes() }
    }
}

impl Page<Page1G> {
    /// Declare that a 1 GiB page lives at the given virtual address.
    ///
    /// Nothing is checked beyond the capability: talking about 1 GiB pages
    /// at all requires the CPU feature token.
    pub fn new_unchecked(vaddr: u64, marker: Page1GB) -> (r: Page<Page1G>)
        ensures
            r.base_spec() == vaddr,
    {
        let _ = marker;
        Page { base: vaddr, phantom: PhantomData }
    }
}

} // verus!
