//! Trait that defines allocation of a virtual address space.

use vstd::prelude::*;

verus! {

/// Allocation of portions of a virtual address space.
///
/// Each implementation pins its behaviour down through the `*_result` and
/// `after_*` model functions, so callers of the concrete type know exactly
/// what they receive.
pub trait Allocation: Sized {
    /// What `alloc` returns in this state.
    spec fn alloc_result(&self, size: u64, align: u64) -> Option<u64>;

    /// The state after `alloc`.
    spec fn after_alloc(&self, size: u64, align: u64) -> Self;

    /// What `reserve` returns in this state.
    spec fn reserve_result(&self, size: u64, align: u64) -> Option<u64>;

    /// The state after `reserve`.
    spec fn after_reserve(&self, size: u64, align: u64) -> Self;

    /// What `fill` returns in this state.
    spec fn fill_result(&self, base: u64, size: u64) -> Option<u64>;

    /// The state after `fill`.
    spec fn after_fill(&self, base: u64, size: u64) -> Self;

    /// Allocate a portion of the virtual address space.
    ///
    /// A returned base is the start of a region of `size` bytes aligned to
    /// `align`. Allocation is allowed to fail if `size` and `align` are not
    /// suitable multiples.
    fn allocate(&mut self, size: u64, align: u64) -> (r: Option<u64>)
        requires
            align >= 1,
        ensures
            r == old(self).alloc_result(size, align),
            *final(self) == old(self).after_alloc(size, align),
            r matches Some(b) ==> b % align == 0 && b + size <= u64::MAX,
    ;

    /// Reserve a portion of the virtual address space.
    ///
    /// This only reserves the range: there may not be memory behind it yet,
    /// although there could be memory or intermediate paging structures.
    /// Like `alloc` this is allowed to fail.
    fn reserve(&mut self, size: u64, align: u64) -> (r: Option<u64>)
        requires
            align >= 1,
        ensures
            r == old(self).reserve_result(size, align),
            *final(self) == old(self).after_reserve(size, align),
            r matches Some(b) ==> b % align == 0 && b + size <= u64::MAX,
    ;

    /// Fill in memory behind a range previously handed out by `reserve`.
    ///
    /// A successful fill returns exactly `base`. Like `alloc`, this is
    /// allowed to fail if `base` and `size` are not suitable multiples.
    fn fill(&mut self, base: u64, size: u64) -> (r: Option<u64>)
        ensures
            r == old(self).fill_result(base, size),
            *final(self) == old(self).after_fill(base, size),
            r matches Some(b) ==> b == base,
    ;
}

} // verus!
