//! Routines for manipulating stacks.
//!
//! A kernel stack is a 4 MiB reservation in the dynamic kernel range: the
//! lower 2 MiB stay unmapped as a guard, the upper 2 MiB are backed by a
//! fresh frame. Transferring execution onto the stack is a diverging
//! stack-pointer switch that only the surrounding binary can perform.

use crate::cpu::features::Features;
use crate::util::MemRange;
use crate::vspace::kernel::KernelVSpace;
use crate::vspace::paging::{
    as_wf, find_table, pd_index_spec, walk_spec, PAGE_ADDR_MASK, PAGE_PRESENT, PAGE_PS, PAGE_RW,
    PAGE_US,
};
use crate::vspace::{Allocation, KERNEL_DYNAMIC_END, KERNEL_DYNAMIC_START};
use vstd::prelude::*;

verus! {

/// A stack: its reservation base, the size of the unmapped guard below it,
/// and the offset of its top.
pub struct Stack {
    pub base: u64,
    pub guard_size: u64,
    pub top_offset: u64,
}

/// Addresses of the same 2 MiB page of the dynamic range share their
/// page-directory slot, and the next page uses the next slot.
proof fn lemma_stack_pd_indices(base: u64, v: u64)
    requires
        KERNEL_DYNAMIC_START <= base,
        base % 0x200000 == 0,
        base + 0x400000 <= KERNEL_DYNAMIC_END,
    ensures
        base <= v < base + 0x200000 ==> pd_index_spec(v) == pd_index_spec(base),
        base + 0x200000 <= v < base + 0x400000 ==> pd_index_spec(v) == pd_index_spec(
            (base + 0x200000) as u64,
        ),
        pd_index_spec(base) != pd_index_spec((base + 0x200000) as u64),
{
    let b = base as int;
    assert((b / 0x200000) % 512 != ((b + 0x200000) / 0x200000) % 512 && (forall|w: int|
        b <= w < b + 0x200000 ==> (#[trigger] (w / 0x200000)) == b / 0x200000) && (forall|
        w: int,
    |
        b + 0x200000 <= w < b + 0x400000 ==> (#[trigger] (w / 0x200000)) == (b + 0x200000)
            / 0x200000)) by (nonlinear_arith)
        requires
            b % 0x200000 == 0,
            0xffffffffc0000000 <= b,
            b + 0x400000 <= 0xffffffffffffffff,
    ;
}

impl Stack {
    /// Creates a new stack with default options for the kernel: a 4 MiB
    /// reservation aligned to 2 MiB, whose lower half is left as an
    /// unmapped guard while its upper half is backed by `frame_paddr`
    /// (with the dynamic range's page directory backed by `pd_paddr`).
    ///
    /// The stack is created exactly when the 4 MiB reservation fits the
    /// free dynamic range, and its base is the range's start rounded up to
    /// the alignment. Afterwards no byte of the guard is mapped, while the
    /// backed half is mapped writable for the kernel.
    pub fn new_kernel(
        vspace: &mut KernelVSpace,
        frame_paddr: u64,
        pd_paddr: u64,
        features: &Features,
    ) -> (r: Option<Stack>)
        requires
            as_wf(old(vspace).root),
            KERNEL_DYNAMIC_START <= old(vspace).dynamic_free.start,
            old(vspace).dynamic_free.end <= KERNEL_DYNAMIC_END,
            old(vspace).dynamic_free.wf(),
            pd_paddr != 0,
            pd_paddr & PAGE_ADDR_MASK == pd_paddr,
            find_table(old(vspace).root.tables@, pd_paddr) < 0,
            old(vspace).root.pml4@[511] & PAGE_PRESENT != 0,
            find_table(
                old(vspace).root.tables@,
                old(vspace).root.pml4@[511] & PAGE_ADDR_MASK,
            ) >= 0,
            ({
                let t3 = find_table(
                    old(vspace).root.tables@,
                    old(vspace).root.pml4@[511] & PAGE_ADDR_MASK,
                );
                old(vspace).root.tables@[t3].entries@[511] & PAGE_PRESENT == 0
            }),
        ensures
            as_wf(final(vspace).root),
            r is Some <==> old(vspace).reserve_result(0x400000, 0x200000) is Some,
            match r {
                Some(stack) => {
                    &&& stack.base == crate::vspace::kernel::reserve_base(
                        old(vspace).dynamic_free.start,
                        0x200000,
                    )
                    &&& stack.guard_size == 0x200000
                    &&& stack.top_offset == 0x400000
                    &&& stack.base % 0x200000 == 0
                    &&& KERNEL_DYNAMIC_START <= stack.base
                    &&& stack.base + 0x400000 <= KERNEL_DYNAMIC_END
                    &&& forall|v: u64|
                        stack.base <= v < stack.base + stack.guard_size ==> (
                        #[trigger] walk_spec(final(vspace).root, v)) is None
                    &&& forall|v: u64|
                        stack.base + stack.guard_size <= v < stack.base + stack.top_offset
                            ==> ((#[trigger] walk_spec(final(vspace).root, v)) matches Some(l)
                            && l & PAGE_PRESENT != 0 && l & PAGE_RW != 0 && l & PAGE_US == 0)
                },
                None => *final(vspace) == *old(vspace),
            },
    {
        let base = match vspace.reserve(0x400000, 0x200000) {
            Some(b) => b,
            None => { return None },
        };
        proof {
            assert(KERNEL_DYNAMIC_START <= base && base + 0x400000 <= KERNEL_DYNAMIC_END);
        }
        let fill_base = base + 0x200000;
        let filled = vspace.fill_2m(fill_base, frame_paddr, pd_paddr, features);
        proof {
            assert(filled == Some(fill_base));
            assert forall|v: u64| base <= v < base + 0x200000 implies (#[trigger] walk_spec(
                vspace.root,
                v,
            )) is None by {
                lemma_stack_pd_indices(base, v);
                assert(pd_index_spec(v) != pd_index_spec(fill_base));
            }
            assert forall|v: u64| base + 0x200000 <= v < base + 0x400000 implies ((
            #[trigger] walk_spec(vspace.root, v)) matches Some(l) && l & PAGE_PRESENT != 0 && l
                & PAGE_RW != 0 && l & PAGE_US == 0) by {
                lemma_stack_pd_indices(base, v);
                assert(pd_index_spec(v) == pd_index_spec(fill_base));
            }
        }
        Some(Stack { base, guard_size: 0x200000, top_offset: 0x400000 })
    }
}

} // verus!
