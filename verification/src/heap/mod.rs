//! Heap allocation for the kernel.
//!
//! The heap is the buddy allocator plus the bookkeeping around it: the
//! bounded ledger of memory regions discovered during boot, the routines
//! that donate usable memory to the buddy while splitting around regions
//! already in use, and the allocator proxy that the global allocation hooks
//! are rewired through once the heap is up.

pub mod buddy;

use crate::util::MemRange;
use crate::vspace::Translation;
use buddy::{covered, spec_add, Buddy};
use vstd::arithmetic::power2::pow2;
use vstd::prelude::*;

verus! {

/// A memory region the boot sequence has discovered.
#[derive(Clone, Copy, Debug, PartialEq, Eq, Structural)]
pub enum StoredMemRegion {
    /// Memory is used and we have been given ownership of it.
    USED(MemRange),
    /// Memory does not fit in the initial kernel window and should be
    /// added later; stored by physical address.
    HIGH(MemRange),
    /// Memory used during boot that can be reclaimed after it.
    BOOT(MemRange),
}

/// How many regions the ledger can hold.
pub const MAX_REGIONS: usize = 8;

/// The address range a stored region talks about.
pub open spec fn region_range(r: StoredMemRegion) -> MemRange {
    match r {
        StoredMemRegion::USED(m) => m,
        StoredMemRegion::HIGH(m) => m,
        StoredMemRegion::BOOT(m) => m,
    }
}

/// Whether a stored region keeps memory away from the heap: used and
/// boot-used regions do, high regions merely wait.
pub open spec fn region_blocks(r: StoredMemRegion) -> bool {
    !(r is HIGH)
}

/// Whether two ranges share an address.
pub open spec fn ranges_overlap(a: MemRange, b: MemRange) -> bool {
    !(b.end <= a.start || b.start >= a.end)
}

/// The ledger's invariant: bounded, well-formed ranges, and used ranges
/// pairwise disjoint.
pub open spec fn ledger_wf(ds: Seq<StoredMemRegion>) -> bool {
    &&& ds.len() <= MAX_REGIONS
    &&& forall|i: int| 0 <= i < ds.len() ==> region_range(#[trigger] ds[i]).wf()
    &&& forall|i: int, j: int|
        0 <= i < ds.len() && 0 <= j < ds.len() && i != j && (#[trigger] ds[i]) is USED && (
        #[trigger] ds[j]) is USED ==> !ranges_overlap(region_range(ds[i]), region_range(ds[j]))
}

/// The bounded, append-only ledger of discovered memory regions.
pub struct RegionLedger {
    pub regions: Vec<StoredMemRegion>,
}

impl RegionLedger {
    /// An empty ledger.
    pub fn new() -> (r: RegionLedger)
        ensures
            r.regions@ =~= Seq::<StoredMemRegion>::empty(),
            ledger_wf(r.regions@),
    {
        RegionLedger { regions: Vec::new() }
    }
}

/// Append a region to the ledger; reports failure when the ledger is full.
pub fn add_mem_region(ledger: &mut RegionLedger, region: StoredMemRegion) -> (r: bool)
    ensures
        r == (old(ledger).regions@.len() < MAX_REGIONS),
        r ==> final(ledger).regions@ == old(ledger).regions@.push(region),
        !r ==> final(ledger).regions@ == old(ledger).regions@,
{
    if ledger.regions.len() < MAX_REGIONS {
        ledger.regions.push(region);
        true
    } else {
        false
    }
}

/// Mark a region of virtual memory as already used.
///
/// Reports failure when the ledger is full; the caller treats that as
/// fatal.
pub fn add_used_mem(ledger: &mut RegionLedger, mem: MemRange) -> (r: bool)
    requires
        ledger_wf(old(ledger).regions@),
        mem.wf(),
        forall|i: int|
            0 <= i < old(ledger).regions@.len() && (#[trigger] old(ledger).regions@[i]) is USED
                ==> !ranges_overlap(region_range(old(ledger).regions@[i]), mem),
    ensures
        ledger_wf(final(ledger).regions@),
        r == (old(ledger).regions@.len() < MAX_REGIONS),
        r ==> final(ledger).regions@ == old(ledger).regions@.push(StoredMemRegion::USED(mem)),
        !r ==> final(ledger).regions@ == old(ledger).regions@,
{
    add_mem_region(ledger, StoredMemRegion::USED(mem))
}

/// Mark a region of virtual memory as used during boot only.
///
/// Reports failure when the ledger is full; the caller treats that as
/// fatal.
pub fn add_boot_mem(ledger: &mut RegionLedger, mem: MemRange) -> (r: bool)
    requires
        ledger_wf(old(ledger).regions@),
        mem.wf(),
    ensures
        ledger_wf(final(ledger).regions@),
        r == (old(ledger).regions@.len() < MAX_REGIONS),
        r ==> final(ledger).regions@ == old(ledger).regions@.push(StoredMemRegion::BOOT(mem)),
        !r ==> final(ledger).regions@ == old(ledger).regions@,
{
    add_mem_region(ledger, StoredMemRegion::BOOT(mem))
}

/// Add a region of memory to the heap.
///
/// This hands a range the caller owns straight to the buddy allocator,
/// bypassing any splitting around used memory.
pub fn add_mem_owned(heap: &mut Buddy, mem: MemRange)
    requires
        old(heap).wf(),
        mem.start != 0,
        mem.wf(),
        forall|a: int| mem.start <= a < mem.end ==> !covered(old(heap).pools(), a),
    ensures
        final(heap).wf(),
        final(heap).pools() == spec_add(
            old(heap).pools(),
            mem.start,
            (mem.end - mem.start) as u64,
        ),
        final(heap).debug_free_spec() == old(heap).debug_free_spec(),
{
    heap.add(mem.start, mem.end - mem.start);
}

/// The first ledger entry that keeps part of `range` away from the heap,
/// or -1 when no used or boot region overlaps it.
pub open spec fn first_overlap(ds: Seq<StoredMemRegion>, range: MemRange) -> int
    decreases ds.len(),
{
    if ds.len() == 0 {
        -1
    } else if region_blocks(ds[0]) && ranges_overlap(region_range(ds[0]), range) {
        0
    } else {
        let r = first_overlap(ds.drop_first(), range);
        if r < 0 {
            -1
        } else {
            1 + r
        }
    }
}

/// What a `first_overlap` result means.
pub proof fn lemma_first_overlap_props(ds: Seq<StoredMemRegion>, range: MemRange)
    ensures
        first_overlap(ds, range) >= 0 ==> {
            let i = first_overlap(ds, range);
            &&& 0 <= i < ds.len()
            &&& region_blocks(ds[i]) && ranges_overlap(region_range(ds[i]), range)
        },
        first_overlap(ds, range) < 0 ==> forall|j: int|
            0 <= j < ds.len() ==> !(region_blocks(#[trigger] ds[j]) && ranges_overlap(
                region_range(ds[j]),
                range,
            )),
    decreases ds.len(),
{
    if ds.len() > 0 && !(region_blocks(ds[0]) && ranges_overlap(region_range(ds[0]), range)) {
        lemma_first_overlap_props(ds.drop_first(), range);
        let s2 = ds.drop_first();
        if first_overlap(s2, range) >= 0 {
            assert(ds[1 + first_overlap(s2, range)] == s2[first_overlap(s2, range)]);
        } else {
            assert forall|j: int| 0 <= j < ds.len() implies !(region_blocks(#[trigger] ds[j])
                && ranges_overlap(region_range(ds[j]), range)) by {
                if j > 0 {
                    assert(s2[j - 1] == ds[j]);
                }
            }
        }
    }
}

/// Scanning characterization of `first_overlap`.
pub proof fn lemma_first_overlap_at(ds: Seq<StoredMemRegion>, range: MemRange, i: int)
    requires
        0 <= i <= ds.len(),
        forall|j: int|
            0 <= j < i ==> !(region_blocks(#[trigger] ds[j]) && ranges_overlap(
                region_range(ds[j]),
                range,
            )),
        i < ds.len() ==> region_blocks(ds[i]) && ranges_overlap(region_range(ds[i]), range),
    ensures
        i < ds.len() ==> first_overlap(ds, range) == i,
        i == ds.len() ==> first_overlap(ds, range) == -1,
    decreases i,
{
    if i == 0 {
        if ds.len() > 0 {
        } else {
        }
        if i == ds.len() {
            lemma_first_overlap_props(ds, range);
            if first_overlap(ds, range) >= 0 {
                assert(false);
            }
        }
    } else {
        let s2 = ds.drop_first();
        assert(forall|j: int| 0 <= j < i - 1 ==> s2[j] == ds[j + 1]);
        lemma_first_overlap_at(s2, range, i - 1);
    }
}

#[via_fn]
proof fn spec_add_mem_decreases<T: Translation>(
    p: Seq<Seq<buddy::Node>>,
    ds: Seq<StoredMemRegion>,
    range: MemRange,
    t: T,
) {
    lemma_first_overlap_props(ds, range);
}

/// The heap and the outcome after donating a virtual range, split around
/// the ledger's used and boot regions.
///
/// The first overlapping used or boot region cuts the range: what lies
/// before it and what lies after it are donated recursively, in that
/// order, and the overlap itself is skipped. A range free of used memory
/// is handed to the buddy when the translation vouches for it; a range the
/// translation rejects stops the donation and reports failure.
pub open spec fn spec_add_mem<T: Translation>(
    p: Seq<Seq<buddy::Node>>,
    ds: Seq<StoredMemRegion>,
    range: MemRange,
    t: T,
) -> (Seq<Seq<buddy::Node>>, bool)
    decreases range.len_spec(),
    via spec_add_mem_decreases::<T>
{
    let i = first_overlap(ds, range);
    if i >= 0 {
        let reg = region_range(ds[i]);
        let after_left = if range.start < reg.start {
            spec_add_mem(p, ds, MemRange { start: range.start, end: reg.start }, t)
        } else {
            (p, true)
        };
        if !after_left.1 {
            after_left
        } else if range.end > reg.end {
            spec_add_mem(after_left.0, ds, MemRange { start: reg.end, end: range.end }, t)
        } else {
            (after_left.0, true)
        }
    } else {
        if t.valid_spec(range) {
            (spec_add(p, range.start, (range.end - range.start) as u64), true)
        } else {
            (p, false)
        }
    }
}

/// Add a virtual address range of memory to the heap.
///
/// Regions of the range already recorded as used or boot memory are
/// skipped, the rest is donated to the buddy allocator. Reports failure
/// when some part of the range is not valid according to the provided
/// translation; the caller treats that as fatal.
pub fn add_mem<T: Translation>(
    t: &T,
    range: MemRange,
    ledger: &RegionLedger,
    heap: &mut Buddy,
) -> (r: bool)
    requires
        old(heap).wf(),
        ledger_wf(ledger.regions@),
        range.start != 0,
        range.start < range.end,
        forall|a: int| range.start <= a < range.end ==> !covered(old(heap).pools(), a),
    ensures
        final(heap).wf(),
        (final(heap).pools(), r) == spec_add_mem(
            old(heap).pools(),
            ledger.regions@,
            range,
            *t,
        ),
        final(heap).debug_free_spec() == old(heap).debug_free_spec(),
        forall|a: int|
            covered(final(heap).pools(), a) ==> covered(old(heap).pools(), a) || (range.start
                <= a < range.end),
        forall|a: int| covered(old(heap).pools(), a) ==> covered(final(heap).pools(), a),
    decreases range.len_spec(),
{
    let ghost p0 = old(heap).pools();
    let n = ledger.regions.len();
    let mut i: usize = 0;
    while i < n
        invariant
            i <= n,
            n == ledger.regions@.len(),
            *heap == *old(heap),
            heap.wf(),
            ledger_wf(ledger.regions@),
            range.start != 0,
            range.start < range.end,
            heap.pools() == p0,
            forall|a: int| range.start <= a < range.end ==> !covered(p0, a),
            forall|j: int|
                0 <= j < i ==> !(region_blocks(#[trigger] ledger.regions@[j]) && ranges_overlap(
                    region_range(ledger.regions@[j]),
                    range,
                )),
        decreases n - i,
    {
        let reg: MemRange = match &ledger.regions[i] {
            StoredMemRegion::USED(m) => *m,
            StoredMemRegion::BOOT(m) => *m,
            StoredMemRegion::HIGH(m) => MemRange { start: 0, end: 0 },
        };
        let blocks = match &ledger.regions[i] {
            StoredMemRegion::HIGH(_) => false,
            _ => true,
        };
        if blocks && range.start < reg.end && reg.start < range.end {
            proof {
                assert(ranges_overlap(region_range(ledger.regions@[i as int]), range));
                lemma_first_overlap_at(ledger.regions@, range, i as int);
            }
            proof {
                assert(region_range(ledger.regions@[i as int]).wf());
                assert(reg.start <= reg.end);
            }
            let mut ok = true;
            if range.start < reg.start {
                ok = add_mem(t, MemRange { start: range.start, end: reg.start }, ledger, heap);
            }
            if ok && range.end > reg.end {
                proof {
                    assert forall|a: int| reg.end <= a < range.end implies !covered(
                        heap.pools(),
                        a,
                    ) by {
                        assert(!covered(p0, a));
                    }
                }
                ok = add_mem(t, MemRange { start: reg.end, end: range.end }, ledger, heap);
            }
            return ok;
        }
        proof {
            if region_blocks(ledger.regions@[i as int]) {
                assert(!ranges_overlap(region_range(ledger.regions@[i as int]), range));
            }
        }
        i = i + 1;
    }
    proof {
        lemma_first_overlap_at(ledger.regions@, range, n as int);
    }
    // range not already used; grab it from the kernel window just to be
    // sure
    if t.range_valid(&range) {
        heap.add(range.start, range.end - range.start);
        true
    } else {
        false
    }
}


/// The allocation proxy the global allocation hooks route through: it
/// traps until the heap is enabled.
pub struct AllocProxy {
    enabled: bool,
}

impl AllocProxy {
    /// Whether the proxy has been rewired to the buddy allocator.
    pub closed spec fn enabled_spec(&self) -> bool {
        self.enabled
    }

    /// A fresh proxy: both hooks still trap.
    pub fn new() -> (r: AllocProxy)
        ensures
            !r.enabled_spec(),
    {
        AllocProxy { enabled: false }
    }

    /// Whether allocation is available yet.
    pub fn is_enabled(&self) -> (r: bool)
        ensures
            r == self.enabled_spec(),
    {
        self.enabled
    }
}

/// Enable the heap: from here on the allocation hooks reach the buddy.
pub fn enable_heap(proxy: &mut AllocProxy)
    ensures
        final(proxy).enabled_spec(),
{
    proxy.enabled = true;
}

/// Ceiling of the base-2 logarithm: the order of the smallest power-of-two
/// block that holds `v` bytes.
pub open spec fn clog2(v: int) -> nat {
    if v <= 1 {
        0
    } else if pow2(buddy::flog2(v)) == v {
        buddy::flog2(v)
    } else {
        (buddy::flog2(v) + 1) as nat
    }
}

/// The buddy order that serves an allocation request: the size is the
/// larger of size and alignment rounded up to the next power of two, and
/// never below the minimum order.
pub open spec fn heap_order(size: u64, align: u64) -> u32 {
    let v: int = if size >= align {
        size as int
    } else {
        align as int
    };
    let c = clog2(v);
    if c < buddy::MIN_ORDER as nat {
        buddy::MIN_ORDER
    } else {
        c as u32
    }
}

/// Serve an allocation request from the heap.
///
/// The request is rounded up to the next power-of-two order covering both
/// its size and its alignment; null reports that no block of that order
/// could be carved out.
pub fn heap_allocate(proxy: &AllocProxy, heap: &mut Buddy, size: u64, align: u64) -> (r: u64)
    requires
        proxy.enabled_spec(),
        old(heap).wf(),
        1 <= size <= 0x40000000,
        1 <= align <= 0x40000000,
    ensures
        final(heap).wf(),
        (final(heap).pools(), r) == buddy::spec_alloc(old(heap).pools(), heap_order(size, align)),
        final(heap).debug_free_spec() == old(heap).debug_free_spec(),
{
    let v: u64 = if size >= align {
        size
    } else {
        align
    };
    let lg = crate::util::log2_usize(v);
    proof {
        buddy::lemma_flog2_unique(v as int, lg);
        vstd::bits::lemma_u64_pow2_no_overflow(lg as nat);
        vstd::bits::lemma_u64_shl_is_mul(1, lg as u64);
        vstd::arithmetic::power2::lemma2_to64();
        vstd::arithmetic::power2::lemma2_to64_rest();
        if lg > 30 {
            vstd::arithmetic::power2::lemma_pow2_strictly_increases(30, lg as nat);
            assert(false);
        }
    }
    let exact: u64 = 1u64 << lg;
    let order: u32 = if exact == v {
        lg
    } else {
        lg + 1
    };
    proof {
        assert(order == clog2(v as int) || clog2(v as int) < buddy::MIN_ORDER as nat && order
            <= buddy::MIN_ORDER) by {
            if v == 1 {
                assert(lg == 0);
            }
        }
        if order > 30 {
            assert(clog2(v as int) == order);
            assert(pow2(buddy::flog2(v as int)) != v);
            buddy::lemma_flog2_bounds(v as int);
            vstd::arithmetic::power2::lemma_pow2_strictly_increases(30, buddy::flog2(v as int));
            assert(false);
        }
        assert(heap_order(size, align) == if order < buddy::MIN_ORDER {
            buddy::MIN_ORDER
        } else {
            order
        });
    }
    heap.allocate(order)
}

/// Adds memory by physical address.
///
/// Memory reachable through the translation is donated to the heap right
/// away; memory that is not is recorded as a high region for later, or
/// dropped with a warning when the ledger is full. Reports failure only
/// when reachable memory could not be donated; the caller treats that as
/// fatal.
pub fn add_mem_physical<T: Translation>(
    t: &T,
    range: MemRange,
    ledger: &mut RegionLedger,
    heap: &mut Buddy,
) -> (r: bool)
    requires
        old(heap).wf(),
        ledger_wf(old(ledger).regions@),
        range.wf(),
        t.to_vaddr_spec(range) matches Some(v) ==> v.start != 0 && v.start < v.end && forall|
            a: int,
        | v.start <= a < v.end ==> !covered(old(heap).pools(), a),
    ensures
        final(heap).wf(),
        ledger_wf(final(ledger).regions@),
        match t.to_vaddr_spec(range) {
            Some(v) => {
                &&& final(ledger).regions@ == old(ledger).regions@
                &&& (final(heap).pools(), r) == spec_add_mem(
                    old(heap).pools(),
                    old(ledger).regions@,
                    v,
                    *t,
                )
            },
            None => {
                &&& final(heap).pools() == old(heap).pools()
                &&& r == true
                &&& old(ledger).regions@.len() < MAX_REGIONS ==> final(ledger).regions@ == old(
                    ledger,
                ).regions@.push(StoredMemRegion::HIGH(range))
                &&& old(ledger).regions@.len() >= MAX_REGIONS ==> final(ledger).regions@ == old(
                    ledger,
                ).regions@
            },
        },
{
    match t.paddr_to_vaddr_range(&range) {
        Some(vaddr) => add_mem(t, vaddr, ledger, heap),
        None => {
            add_mem_region(ledger, StoredMemRegion::HIGH(range));
            true
        },
    }
}

/// Try to add memory by physical address, without recording it on failure.
///
/// Reports whether the range was reachable and donated.
pub fn try_add_mem_physical<T: Translation>(
    t: &T,
    range: MemRange,
    ledger: &RegionLedger,
    heap: &mut Buddy,
) -> (r: bool)
    requires
        old(heap).wf(),
        ledger_wf(ledger.regions@),
        t.to_vaddr_spec(range) matches Some(v) ==> v.start != 0 && v.start < v.end && forall|
            a: int,
        | v.start <= a < v.end ==> !covered(old(heap).pools(), a),
    ensures
        final(heap).wf(),
        match t.to_vaddr_spec(range) {
            Some(v) => (final(heap).pools(), r) == spec_add_mem(
                old(heap).pools(),
                ledger.regions@,
                v,
                *t,
            ),
            None => final(heap).pools() == old(heap).pools() && !r,
        },
{
    match t.paddr_to_vaddr_range(&range) {
        Some(vaddr) => add_mem(t, vaddr, ledger, heap),
        None => false,
    }
}

/// Every step of draining the high regions can go through: each high
/// region's translated range is sound and still free when its turn comes.
pub open spec fn enable_high_pre<T: Translation>(
    p: Seq<Seq<buddy::Node>>,
    ds: Seq<StoredMemRegion>,
    i: int,
    t: T,
) -> bool
    decreases ds.len() - i,
{
    if i < 0 || i >= ds.len() {
        true
    } else if ds[i] is HIGH {
        match t.to_vaddr_spec(region_range(ds[i])) {
            None => true,
            Some(v) => {
                &&& v.start != 0 && v.start < v.end
                &&& (forall|a: int| v.start <= a < v.end ==> !covered(p, a))
                &&& ({
                    let am = spec_add_mem(p, ds, v, t);
                    am.1 ==> enable_high_pre(am.0, ds, i + 1, t)
                })
            },
        }
    } else {
        enable_high_pre(p, ds, i + 1, t)
    }
}

/// The heap and the outcome of draining the ledger's high regions into it,
/// from entry `i` on: each high region is translated and donated in turn;
/// an unreachable or undonatable region stops the drain and reports
/// failure.
pub open spec fn spec_enable_high<T: Translation>(
    p: Seq<Seq<buddy::Node>>,
    ds: Seq<StoredMemRegion>,
    i: int,
    t: T,
) -> (Seq<Seq<buddy::Node>>, bool)
    decreases ds.len() - i,
{
    if i < 0 || i >= ds.len() {
        (p, true)
    } else if ds[i] is HIGH {
        match t.to_vaddr_spec(region_range(ds[i])) {
            None => (p, false),
            Some(v) => {
                let am = spec_add_mem(p, ds, v, t);
                if am.1 {
                    spec_enable_high(am.0, ds, i + 1, t)
                } else {
                    (am.0, false)
                }
            },
        }
    } else {
        spec_enable_high(p, ds, i + 1, t)
    }
}

/// Drain the ledger's high regions into the heap, now that the final
/// translation can reach them.
///
/// Reports failure when a high region is still not reachable or could not
/// be donated; the caller treats that as fatal.
pub fn enable_high_mem<T: Translation>(t: &T, ledger: &RegionLedger, heap: &mut Buddy) -> (r:
    bool)
    requires
        old(heap).wf(),
        ledger_wf(ledger.regions@),
        enable_high_pre(old(heap).pools(), ledger.regions@, 0, *t),
    ensures
        final(heap).wf(),
        (final(heap).pools(), r) == spec_enable_high(old(heap).pools(), ledger.regions@, 0, *t),
    decreases ledger.regions@.len(),
{
    let ghost p0 = old(heap).pools();
    let n = ledger.regions.len();
    let mut i: usize = 0;
    while i < n
        invariant
            i <= n,
            n == ledger.regions@.len(),
            heap.wf(),
            p0 == old(heap).pools(),
            ledger_wf(ledger.regions@),
            enable_high_pre(heap.pools(), ledger.regions@, i as int, *t),
            spec_enable_high(p0, ledger.regions@, 0, *t) == spec_enable_high(
                heap.pools(),
                ledger.regions@,
                i as int,
                *t,
            ),
        decreases n - i,
    {
        let is_high: Option<MemRange> = match &ledger.regions[i] {
            StoredMemRegion::HIGH(m) => Some(*m),
            _ => None,
        };
        if let Some(hr) = is_high {
            proof {
                assert(ledger.regions@[i as int] is HIGH);
                assert(region_range(ledger.regions@[i as int]) == hr);
            }
            match t.paddr_to_vaddr_range(&hr) {
                None => {
                    proof {
                        assert(spec_enable_high(heap.pools(), ledger.regions@, i as int, *t)
                            == (heap.pools(), false));
                    }
                    return false;
                },
                Some(vaddr) => {
                    let ghost cur = heap.pools();
                    let ok = add_mem(t, vaddr, ledger, heap);
                    proof {
                        assert((heap.pools(), ok) == spec_add_mem(
                            cur,
                            ledger.regions@,
                            vaddr,
                            *t,
                        ));
                    }
                    if !ok {
                        proof {
                            assert(spec_enable_high(cur, ledger.regions@, i as int, *t) == (
                            heap.pools(), false));
                        }
                        return false;
                    }
                },
            }
        }
        i = i + 1;
    }
    true
}

} // verus!
