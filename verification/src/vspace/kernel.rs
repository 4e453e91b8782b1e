//! Implementation of the final kernel address space.

use crate::cpu::features::Features;
use crate::util::{MemRange, GB};
use crate::vspace::page::{Page, Page1G};
use crate::vspace::paging::{
    as_wf, find_table, leaf_bits, lemma_leaf_bits_fields, pd_index_spec, pdpt_index_spec,
    pml4_index_spec, walk_spec, PageMappingBuilder, PageTable, AS, PAGE_ADDR_MASK, PAGE_GLOBAL,
    PAGE_NX, PAGE_PRESENT, PAGE_PS, PAGE_RW, PAGE_US,
};
use crate::vspace::{
    kernel_dynamic_range, Allocation, Translation, KERNEL_BASE, KERNEL_IMAGE_BASE, KERNEL_PCID,
};
use vstd::prelude::*;

verus! {

/// The final kernel address space: the page tables being built and the
/// dynamic virtual range not yet handed out.
pub struct KernelVSpace {
    pub root: AS,
    pub dynamic_free: MemRange,
}

/// The virtual range of the `i`-th 1 GiB slot of the default kernel
/// window.
pub open spec fn window_slot_range(i: int) -> MemRange {
    MemRange { start: (KERNEL_BASE + i * GB) as u64, end: (KERNEL_BASE + (i + 1) * GB) as u64 }
}

/// The virtual range of the kernel image's 1 GiB slot.
pub open spec fn image_window_range() -> MemRange {
    MemRange { start: KERNEL_IMAGE_BASE, end: (KERNEL_IMAGE_BASE + GB) as u64 }
}

/// The start of the physical range a translation gives a virtual range.
pub open spec fn translated_start<T: Translation>(t: T, r: MemRange) -> u64 {
    match t.to_paddr_spec(r) {
        Some(p) => p.start,
        None => 0,
    }
}

/// What the kernel window guarantees of a mapped address: a leaf that is
/// present, large, writable and supervisor-only, no-execute and global
/// exactly when the respective CPU capabilities are held (executable
/// mappings leave no-execute clear regardless), backed by the frame at
/// `paddr`, with write-back memory type (all caching bits clear).
pub open spec fn kernel_leaf_ok(l: u64, features: Features, executable: bool, paddr: u64) -> bool {
    &&& l & PAGE_PRESENT != 0
    &&& l & PAGE_PS != 0
    &&& l & PAGE_RW != 0
    &&& l & PAGE_US == 0
    &&& (l & PAGE_NX != 0) <==> (!executable && features.nxe is Some)
    &&& (l & PAGE_GLOBAL != 0) <==> features.pge is Some
    &&& l & PAGE_ADDR_MASK == paddr & PAGE_ADDR_MASK
    &&& l & crate::vspace::paging::PAGE_PWT == 0
    &&& l & crate::vspace::paging::PAGE_PCD == 0
    &&& l & crate::vspace::paging::PAGE_PAT_LARGE == 0
}

impl KernelVSpace {
    /// A fresh kernel address space: empty tables and the whole dynamic
    /// range free.
    pub fn new() -> (r: KernelVSpace)
        ensures
            as_wf(r.root),
            r.root.tables@.len() == 0,
            forall|i: int| 0 <= i < 512 ==> r.root.pml4@[i] == 0,
            r.dynamic_free == kernel_dynamic_range(),
    {
        KernelVSpace { root: AS::new(), dynamic_free: kernel_dynamic_range_exec() }
    }

    /// Create the guaranteed kernel mappings: the four 1 GiB slots of the
    /// default kernel window, writable and no-execute, and the kernel
    /// image's slot, writable and executable. The one intermediate table
    /// needed is backed by `table_paddr`.
    ///
    /// Walking any address of the default window afterwards finds a
    /// present, writable, supervisor, no-execute large leaf, global
    /// exactly when the CPU has global pages; the image window's leaf is
    /// executable instead.
    pub fn map_kernel_window<T: Translation>(
        &mut self,
        translation: &T,
        features: &Features,
        table_paddr: u64,
    )
        requires
            features.page1gb is Some,
            as_wf(old(self).root),
            old(self).root.tables@.len() == 0,
            forall|i: int| 0 <= i < 512 ==> old(self).root.pml4@[i] == 0,
            table_paddr != 0,
            table_paddr & PAGE_ADDR_MASK == table_paddr,
            forall|i: int|
                0 <= i < 4 ==> (#[trigger] translation.to_paddr_spec(window_slot_range(i)))
                    is Some && translated_start(*translation, window_slot_range(i)) as int % (
                GB as int) == 0,
            translation.to_paddr_spec(image_window_range()) is Some,
            translated_start(*translation, image_window_range()) as int % (GB as int) == 0,
        ensures
            as_wf(final(self).root),
            final(self).dynamic_free == old(self).dynamic_free,
            forall|v: u64|
                KERNEL_BASE <= v < KERNEL_BASE + 4 * GB ==> ((#[trigger] walk_spec(
                    final(self).root,
                    v,
                )) matches Some(l) && kernel_leaf_ok(
                    l,
                    *features,
                    false,
                    translated_start(
                        *translation,
                        window_slot_range((v - KERNEL_BASE) as int / GB as int),
                    ),
                )),
            forall|v: u64|
                KERNEL_IMAGE_BASE <= v < KERNEL_IMAGE_BASE + GB ==> ((#[trigger] walk_spec(
                    final(self).root,
                    v,
                )) matches Some(l) && kernel_leaf_ok(
                    l,
                    *features,
                    true,
                    translated_start(*translation, image_window_range()),
                )),
            // the shape of the result, for building on top of it
            final(self).root.pml4@ == old(self).root.pml4@.update(
                511,
                table_paddr | PAGE_PRESENT | PAGE_RW,
            ),
            final(self).root.tables@.len() == 1,
            final(self).root.tables@[0].paddr == table_paddr,
            final(self).root.tables@[0].entries@.len() == 512,
            forall|j: int|
                0 <= j < 512 && j != 0 && j != 1 && j != 2 && j != 3 && j != 510
                    ==> final(self).root.tables@[0].entries@[j] == 0,
    {
        let page1gb = match features.get_page1gb() {
            Some(p) => p,
            None => {
                proof {
                    assert(false);
                }
                vstd::pervasive::unreached()
            },
        };
        proof {
            lemma_kernel_window_indices();
        }
        // create the guaranteed kernel mappings
        let mut gb_index: u64 = 0;
        while gb_index < 4
            invariant
                gb_index <= 4,
                features.page1gb is Some,
                as_wf(self.root),
                table_paddr != 0,
                table_paddr & PAGE_ADDR_MASK == table_paddr,
                self.dynamic_free == old(self).dynamic_free,
                forall|i: int|
                    0 <= i < 4 ==> (#[trigger] translation.to_paddr_spec(window_slot_range(i)))
                        is Some && translated_start(*translation, window_slot_range(i)) as int
                        % (GB as int) == 0,
                translation.to_paddr_spec(image_window_range()) is Some,
                translated_start(*translation, image_window_range()) as int % (GB as int) == 0,
                old(self).root.pml4@.len() == 512,
                forall|i: int| 0 <= i < 512 ==> old(self).root.pml4@[i] == 0,
                gb_index == 0 ==> self.root.tables@.len() == 0 && as_wf(self.root) && forall|
                    i: int,
                |
                    0 <= i < 512 ==> self.root.pml4@[i] == 0,
                gb_index > 0 ==> {
                    &&& self.root.pml4@ == old(self).root.pml4@.update(
                        511,
                        table_paddr | PAGE_PRESENT | PAGE_RW,
                    )
                    &&& self.root.tables@.len() == 1
                    &&& self.root.tables@[0].paddr == table_paddr
                    &&& self.root.tables@[0].entries@.len() == 512
                    &&& forall|j: int|
                        0 <= j < gb_index ==> kernel_leaf_ok(
                            #[trigger] self.root.tables@[0].entries@[j],
                            *features,
                            false,
                            translated_start(*translation, window_slot_range(j)),
                        )
                    &&& forall|j: int|
                        gb_index <= j < 512 ==> self.root.tables@[0].entries@[j] == 0
                },
            decreases 4 - gb_index,
        {
            let vaddr: u64 = KERNEL_BASE + gb_index * GB;
            let page = Page::new_unchecked(vaddr, page1gb);
            proof {
                assert(vaddr + 0x40000000 <= u64::MAX);
                let r1 = window_slot_range(gb_index as int);
                assert(translation.to_paddr_spec(r1) is Some);
                assert(r1 == MemRange { start: vaddr, end: (vaddr + GB) as u64 });
                assert(pml4_index_spec((KERNEL_BASE + (gb_index as int) * GB) as u64) == 511);
                assert(pdpt_index_spec((KERNEL_BASE + (gb_index as int) * GB) as u64)
                    == gb_index as int);
                assert(pml4_index_spec(vaddr) == 511 && pdpt_index_spec(vaddr)
                    == gb_index as int);
                assert(0u64 & PAGE_PRESENT == 0) by (bit_vector);
                assert((table_paddr | PAGE_PRESENT | PAGE_RW) & PAGE_PRESENT != 0 && (
                table_paddr | PAGE_PRESENT | PAGE_RW) & PAGE_ADDR_MASK
                    == table_paddr) by (bit_vector)
                    requires
                        table_paddr & PAGE_ADDR_MASK == table_paddr,
                ;
                if gb_index == 0 {
                    assert(self.root.tables@.len() == 0);
                    assert(find_table(self.root.tables@, table_paddr) == -1);
                }
            }
            let builder = match PageMappingBuilder::new_page(page, translation) {
                Some(b) => b,
                None => {
                    proof {
                        assert(false);
                    }
                    vstd::pervasive::unreached()
                },
            };
            // as this is not the kernel image, no need for executable
            let mapping = builder.kernel(features).no_execute(features).write().finish();
            let ghost before = self.root;
            self.root.ensure_mapping_entry_1g(vaddr, table_paddr);
            proof {
                if gb_index == 0 {
                    assert(before.pml4@[511] == 0);
                    assert(self.root.pml4@ == before.pml4@.update(
                        511,
                        table_paddr | PAGE_PRESENT | PAGE_RW,
                    ));
                    assert(self.root.tables@.len() == 1);
                    assert(self.root.tables@[0].paddr == table_paddr);
                } else {
                    assert(before.pml4@[511] == table_paddr | PAGE_PRESENT | PAGE_RW);
                    assert(self.root == before);
                }
                assert(self.root.pml4@[511] == table_paddr | PAGE_PRESENT | PAGE_RW);
                crate::vspace::paging::lemma_find_table_scan(self.root.tables@, table_paddr, 0);
                assert(self.root.tables@[0].entries@[gb_index as int] == 0);
            }
            self.root.raw_map_page_1g(&mapping);
            proof {
                lemma_leaf_bits_fields(mapping);
                assert(mapping.access.write && !mapping.access.user);
                assert(mapping.access.nxe is Some <==> features.nxe is Some);
                assert(mapping.pge is Some <==> features.pge is Some);
                assert(mapping.paddr == translated_start(
                    *translation,
                    window_slot_range(gb_index as int),
                ));
                assert(crate::cpu::pat::index_of(mapping.mt) == 0);
                assert(mapping.paddr as int % (GB as int) == 0);
                let pa = mapping.paddr;
                assert(pa & 0x1000 == 0) by (bit_vector)
                    requires
                        pa % 0x40000000 == 0,
                ;
                assert(kernel_leaf_ok(
                    leaf_bits(mapping),
                    *features,
                    false,
                    translated_start(*translation, window_slot_range(gb_index as int)),
                ));
                assert forall|j: int|
                    0 <= j < gb_index + 1 implies kernel_leaf_ok(
                    #[trigger] self.root.tables@[0].entries@[j],
                    *features,
                    false,
                    translated_start(*translation, window_slot_range(j)),
                ) by {
                    if j < gb_index {
                    } else {
                        assert(self.root.tables@[0].entries@[j] == leaf_bits(mapping));
                    }
                }
            }
            gb_index = gb_index + 1;
        }
        // map in the kernel image; data and bss share the slot, so it is
        // both writable and executable
        let image_vaddr: u64 = KERNEL_IMAGE_BASE;
        let page = Page::new_unchecked(image_vaddr, page1gb);
        let builder = match PageMappingBuilder::new_page(page, translation) {
            Some(b) => b,
            None => {
                proof {
                    assert(false);
                }
                vstd::pervasive::unreached()
            },
        };
        let mapping = builder.kernel(features).executable().write().finish();
        proof {
            assert(pml4_index_spec(image_vaddr) == 511);
            assert(pdpt_index_spec(image_vaddr) == 510);
            assert((table_paddr | PAGE_PRESENT | PAGE_RW) & PAGE_PRESENT != 0 && (table_paddr
                | PAGE_PRESENT | PAGE_RW) & PAGE_ADDR_MASK == table_paddr) by (bit_vector)
                requires
                    table_paddr & PAGE_ADDR_MASK == table_paddr,
            ;
            assert(self.root.pml4@[511] == table_paddr | PAGE_PRESENT | PAGE_RW);
        }
        self.root.ensure_mapping_entry_1g(image_vaddr, table_paddr);
        proof {
            assert(self.root.pml4@[511] == table_paddr | PAGE_PRESENT | PAGE_RW);
            crate::vspace::paging::lemma_find_table_scan(self.root.tables@, table_paddr, 0);
            assert(self.root.tables@[0].entries@[510] == 0);
            assert(0u64 & PAGE_PRESENT == 0) by (bit_vector);
        }
        self.root.raw_map_page_1g(&mapping);
        proof {
            lemma_leaf_bits_fields(mapping);
            let t = self.root.tables@[0];
            assert(t.entries@[510] == leaf_bits(mapping));
            assert(mapping.paddr == translated_start(*translation, image_window_range()));
            assert(crate::cpu::pat::index_of(mapping.mt) == 0);
            assert(mapping.paddr as int % (GB as int) == 0);
            let ghost pa = mapping.paddr;
            assert(pa & 0x1000 == 0) by (bit_vector)
                requires
                    pa % 0x40000000 == 0,
            ;
            assert(kernel_leaf_ok(
                leaf_bits(mapping),
                *features,
                true,
                translated_start(*translation, image_window_range()),
            ));
            assert forall|v: u64| KERNEL_BASE <= v < KERNEL_BASE + 4 * GB implies (
            #[trigger] walk_spec(self.root, v)) matches Some(l) && kernel_leaf_ok(
                l,
                *features,
                false,
                translated_start(
                    *translation,
                    window_slot_range((v - KERNEL_BASE) as int / GB as int),
                ),
            ) by {
                lemma_kernel_window_walk_index(v);
                assert(self.root.pml4@[511] == table_paddr | PAGE_PRESENT | PAGE_RW);
                assert((table_paddr | PAGE_PRESENT | PAGE_RW) & PAGE_PRESENT != 0 && (
                table_paddr | PAGE_PRESENT | PAGE_RW) & PAGE_ADDR_MASK
                    == table_paddr) by (bit_vector)
                    requires
                        table_paddr & PAGE_ADDR_MASK == table_paddr,
                ;
                crate::vspace::paging::lemma_find_table_scan(self.root.tables@, table_paddr, 0);
                let l = t.entries@[pdpt_index_spec(v)];
                assert(kernel_leaf_ok(
                    l,
                    *features,
                    false,
                    translated_start(
                        *translation,
                        window_slot_range(pdpt_index_spec(v)),
                    ),
                ));
                assert(pdpt_index_spec(v) == (v - KERNEL_BASE) as int / GB as int);
                assert(l & PAGE_PRESENT != 0 && l & PAGE_PS != 0);
            }
            assert forall|v: u64| KERNEL_IMAGE_BASE <= v < KERNEL_IMAGE_BASE + GB implies (
            #[trigger] walk_spec(self.root, v)) matches Some(l) && kernel_leaf_ok(
                l,
                *features,
                true,
                translated_start(*translation, image_window_range()),
            ) by {
                lemma_kernel_image_walk_index(v);
                assert((table_paddr | PAGE_PRESENT | PAGE_RW) & PAGE_PRESENT != 0 && (
                table_paddr | PAGE_PRESENT | PAGE_RW) & PAGE_ADDR_MASK
                    == table_paddr) by (bit_vector)
                    requires
                        table_paddr & PAGE_ADDR_MASK == table_paddr,
                ;
                crate::vspace::paging::lemma_find_table_scan(self.root.tables@, table_paddr, 0);
                let l = t.entries@[510];
                assert(kernel_leaf_ok(
                    l,
                    *features,
                    true,
                    translated_start(*translation, image_window_range()),
                ));
            }
        }
    }
}

/// The kernel windows' table indices: every address of the kernel windows
/// selects the last root slot.
pub proof fn lemma_kernel_window_indices()
    ensures
        pml4_index_spec(KERNEL_BASE) == 511,
        pdpt_index_spec(KERNEL_BASE) == 0,
        pml4_index_spec(KERNEL_IMAGE_BASE) == 511,
        pdpt_index_spec(KERNEL_IMAGE_BASE) == 510,
        forall|i: int|
            0 <= i < 4 ==> pml4_index_spec((KERNEL_BASE + i * GB) as u64) == 511
                && pdpt_index_spec(#[trigger] ((KERNEL_BASE + i * GB) as u64)) == i,
{
    assert forall|i: int|
        0 <= i < 4 implies pml4_index_spec((KERNEL_BASE + i * GB) as u64) == 511
        && pdpt_index_spec(#[trigger] ((KERNEL_BASE + i * GB) as u64)) == i by {
        let v = (KERNEL_BASE + i * GB) as u64;
        assert(v as int == 0xffffff8000000000 + i * 0x40000000);
        assert(v as int / 0x8000000000 % 512 == 511 && v as int / 0x40000000 % 512 == i) by (
        nonlinear_arith)
            requires
                v as int == 0xffffff8000000000 + i * 0x40000000,
                0 <= i < 4,
        ;
    }
    assert(0xffffff8000000000int / 0x8000000000 % 512 == 511 && 0xffffff8000000000int
        / 0x40000000 % 512 == 0 && 0xffffffff80000000int / 0x8000000000 % 512 == 511
        && 0xffffffff80000000int / 0x40000000 % 512 == 510) by (nonlinear_arith);
}

/// Any address of the default kernel window selects the last root slot
/// and the pdpt slot of its own gigabyte.
pub proof fn lemma_kernel_window_walk_index(v: u64)
    requires
        KERNEL_BASE <= v < KERNEL_BASE + 4 * GB,
    ensures
        pml4_index_spec(v) == 511,
        0 <= pdpt_index_spec(v) < 4,
        pdpt_index_spec(v) == (v - KERNEL_BASE) as int / GB as int,
{
    assert(v as int / 0x8000000000 % 512 == 511 && 0 <= v as int / 0x40000000 % 512 < 4 && v
        as int / 0x40000000 % 512 == (v as int - 0xffffff8000000000) / 0x40000000) by (
    nonlinear_arith)
        requires
            0xffffff8000000000 <= v as int && (v as int) < 0xffffff8000000000 + 4 * 0x40000000,
    ;
}

/// Any address of the kernel image window selects the last root slot and
/// the image's pdpt slot.
pub proof fn lemma_kernel_image_walk_index(v: u64)
    requires
        KERNEL_IMAGE_BASE <= v < KERNEL_IMAGE_BASE + GB,
    ensures
        pml4_index_spec(v) == 511,
        pdpt_index_spec(v) == 510,
{
    assert(v as int / 0x8000000000 % 512 == 511 && v as int / 0x40000000 % 512 == 510) by (
    nonlinear_arith)
        requires
            0xffffffff80000000 <= v as int && (v as int) < 0xffffffff80000000 + 0x40000000,
    ;
}

/// The dynamic kernel virtual range, as a value.
pub fn kernel_dynamic_range_exec() -> (r: MemRange)
    ensures
        r == kernel_dynamic_range(),
{
    MemRange {
        start: crate::vspace::KERNEL_DYNAMIC_START,
        end: crate::vspace::KERNEL_DYNAMIC_END,
    }
}

/// The value loaded into the MMU root register: the page-aligned root
/// table address tagged with the kernel's PCID.
pub fn cr3_value(root_paddr: u64) -> (r: u64)
    ensures
        r == (root_paddr & 0xfffffffffffff000) | (KERNEL_PCID as u64 & 0xfff),
{
    (root_paddr & 0xfffffffffffff000) | ((KERNEL_PCID as u64) & 0xfff)
}

/// Build the kernel address space: fresh tables with the kernel window
/// and image mappings in place, ready to be activated.
pub fn make_kernel_address_space<T: Translation>(
    translation: &T,
    features: &Features,
    table_paddr: u64,
) -> (r: KernelVSpace)
    requires
        features.page1gb is Some,
        table_paddr != 0,
        table_paddr & PAGE_ADDR_MASK == table_paddr,
        forall|i: int|
            0 <= i < 4 ==> (#[trigger] translation.to_paddr_spec(window_slot_range(i)))
                is Some && translated_start(*translation, window_slot_range(i)) as int % (
            GB as int) == 0,
        translation.to_paddr_spec(image_window_range()) is Some,
        translated_start(*translation, image_window_range()) as int % (GB as int) == 0,
    ensures
        as_wf(r.root),
        forall|v: u64|
            KERNEL_BASE <= v < KERNEL_BASE + 4 * GB ==> ((#[trigger] walk_spec(r.root, v))
                matches Some(l) && kernel_leaf_ok(
                l,
                *features,
                false,
                translated_start(
                    *translation,
                    window_slot_range((v - KERNEL_BASE) as int / GB as int),
                ),
            )),
        forall|v: u64|
            KERNEL_IMAGE_BASE <= v < KERNEL_IMAGE_BASE + GB ==> ((#[trigger] walk_spec(
                r.root,
                v,
            )) matches Some(l) && kernel_leaf_ok(
                l,
                *features,
                true,
                translated_start(*translation, image_window_range()),
            )),
        r.dynamic_free == kernel_dynamic_range(),
{
    let mut kernel_as = KernelVSpace::new();
    kernel_as.map_kernel_window(translation, features, table_paddr);
    kernel_as
}


/// Any address of the dynamic kernel range selects the last root slot and
/// the last pdpt slot.
pub proof fn lemma_dynamic_indices(v: u64)
    requires
        crate::vspace::KERNEL_DYNAMIC_START <= v,
    ensures
        pml4_index_spec(v) == 511,
        pdpt_index_spec(v) == 511,
{
    assert(v as int / 0x8000000000 % 512 == 511 && v as int / 0x40000000 % 512 == 511) by (
    nonlinear_arith)
        requires
            0xffffffffc0000000 <= v as int && (v as int) <= 0xffffffffffffffff,
    ;
}

impl Translation for KernelVSpace {
    open spec fn valid_spec(&self, range: MemRange) -> bool {
        crate::util::range_contains_spec(
            MemRange { start: KERNEL_BASE, end: KERNEL_IMAGE_BASE },
            range,
        ) || crate::util::range_contains_spec(
            MemRange { start: KERNEL_IMAGE_BASE, end: (KERNEL_IMAGE_BASE + GB) as u64 },
            range,
        )
    }

    open spec fn to_paddr_spec(&self, range: MemRange) -> Option<MemRange> {
        if crate::util::range_contains_spec(
            MemRange { start: KERNEL_BASE, end: KERNEL_IMAGE_BASE },
            range,
        ) {
            Some(
                MemRange {
                    start: (range.start - KERNEL_BASE) as u64,
                    end: (range.end - KERNEL_BASE) as u64,
                },
            )
        } else if crate::util::range_contains_spec(
            MemRange { start: KERNEL_IMAGE_BASE, end: (KERNEL_IMAGE_BASE + GB) as u64 },
            range,
        ) {
            Some(
                MemRange {
                    start: (range.start - KERNEL_IMAGE_BASE) as u64,
                    end: (range.end - KERNEL_IMAGE_BASE) as u64,
                },
            )
        } else {
            None
        }
    }

    open spec fn to_vaddr_spec(&self, range: MemRange) -> Option<MemRange> {
        if crate::util::range_contains_spec(
            MemRange { start: 0, end: (KERNEL_IMAGE_BASE - KERNEL_BASE) as u64 },
            range,
        ) {
            Some(
                MemRange {
                    start: (range.start + KERNEL_BASE) as u64,
                    end: (range.end + KERNEL_BASE) as u64,
                },
            )
        } else {
            None
        }
    }

    proof fn valid_iff_translates(&self, range: MemRange) {
    }

    proof fn lemma_translation_stable(&self, range: MemRange) {
    }

    fn range_valid(&self, range: &MemRange) -> (r: bool) {
        let low = MemRange { start: KERNEL_BASE, end: KERNEL_IMAGE_BASE };
        let image = MemRange { start: KERNEL_IMAGE_BASE, end: KERNEL_IMAGE_BASE + GB };
        crate::util::range_contains(&low, range) || crate::util::range_contains(&image, range)
    }

    fn vaddr_to_paddr_range(&self, range: &MemRange) -> (r: Option<MemRange>) {
        let low = MemRange { start: KERNEL_BASE, end: KERNEL_IMAGE_BASE };
        let image = MemRange { start: KERNEL_IMAGE_BASE, end: KERNEL_IMAGE_BASE + GB };
        if crate::util::range_contains(&low, range) {
            Some(MemRange { start: range.start - KERNEL_BASE, end: range.end - KERNEL_BASE })
        } else if crate::util::range_contains(&image, range) {
            Some(
                MemRange {
                    start: range.start - KERNEL_IMAGE_BASE,
                    end: range.end - KERNEL_IMAGE_BASE,
                },
            )
        } else {
            None
        }
    }

    fn paddr_to_vaddr_range(&self, range: &MemRange) -> (r: Option<MemRange>) {
        let backing = MemRange { start: 0, end: KERNEL_IMAGE_BASE - KERNEL_BASE };
        if crate::util::range_contains(&backing, range) {
            Some(MemRange { start: range.start + KERNEL_BASE, end: range.end + KERNEL_BASE })
        } else {
            None
        }
    }
}

impl Allocation for KernelVSpace {
    open spec fn alloc_result(&self, size: u64, align: u64) -> Option<u64> {
        None
    }

    open spec fn after_alloc(&self, size: u64, align: u64) -> KernelVSpace {
        KernelVSpace { root: self.root, dynamic_free: self.dynamic_free }
    }

    open spec fn reserve_result(&self, size: u64, align: u64) -> Option<u64> {
        let base = reserve_base(self.dynamic_free.start, align);
        if base + size < self.dynamic_free.end && base + size <= u64::MAX {
            Some(base as u64)
        } else {
            None
        }
    }

    open spec fn after_reserve(&self, size: u64, align: u64) -> KernelVSpace {
        let base = reserve_base(self.dynamic_free.start, align);
        if base + size < self.dynamic_free.end && base + size <= u64::MAX {
            KernelVSpace {
                root: self.root,
                dynamic_free: MemRange {
                    start: (base + size) as u64,
                    end: self.dynamic_free.end,
                },
            }
        } else {
            KernelVSpace { root: self.root, dynamic_free: self.dynamic_free }
        }
    }

    // Backing a reserved range needs fresh frames, which this trait's
    // shape cannot carry; `KernelVSpace::fill_2m` takes them explicitly
    // and is the operation that actually maps. Through the trait, filling
    // reports no capacity.
    open spec fn fill_result(&self, base: u64, size: u64) -> Option<u64> {
        None
    }

    open spec fn after_fill(&self, base: u64, size: u64) -> KernelVSpace {
        KernelVSpace { root: self.root, dynamic_free: self.dynamic_free }
    }

    fn allocate(&mut self, size: u64, align: u64) -> (r: Option<u64>) {
        None
    }

    fn reserve(&mut self, size: u64, align: u64) -> (r: Option<u64>) {
        let start = self.dynamic_free.start;
        let rem = start % align;
        let offset: u64 = if rem == 0 {
            0
        } else {
            align - rem
        };
        proof {
            assert(start + offset == reserve_base(self.dynamic_free.start, align));
            vstd::arithmetic::div_mod::lemma_fundamental_div_mod(start as int, align as int);
            vstd::arithmetic::div_mod::lemma_mod_multiples_basic(
                start as int / align as int + 1,
                align as int,
            );
            if rem != 0 {
                assert((start as int / align as int + 1) * align == start + offset) by (
                nonlinear_arith)
                    requires
                        start as int == align * (start as int / align as int) + rem,
                        offset == align - rem,
                        rem != 0,
                ;
            } else {
                assert((start + offset) as int % align as int == 0);
            }
        }
        if start > u64::MAX - offset {
            proof {
                assert(reserve_base(self.dynamic_free.start, align) + size > u64::MAX);
            }
            return None;
        }
        let base = start + offset;
        if size < self.dynamic_free.end && base <= u64::MAX - size && base + size
            < self.dynamic_free.end {
            self.dynamic_free.start = base + size;
            Some(base)
        } else {
            None
        }
    }

    /// See `KernelVSpace::fill_2m`, which takes the backing frames this
    /// signature cannot carry.
    fn fill(&mut self, base: u64, size: u64) -> (r: Option<u64>) {
        None
    }
}

impl crate::vspace::VSpace for KernelVSpace {

}

/// Where a reservation with the given alignment starts: the free range's
/// start rounded up to the alignment.
pub open spec fn reserve_base(start: u64, align: u64) -> int {
    if start as int % align as int == 0 {
        start as int
    } else {
        start as int + (align - start as int % align as int)
    }
}

impl KernelVSpace {
    /// Back a reserved 2 MiB page of the dynamic range with a frame.
    ///
    /// The page directory for the dynamic range does not exist yet; it is
    /// backed by `pd_paddr`, and the page itself by `frame_paddr`. Any
    /// other address of the dynamic range stays unmapped.
    pub fn fill_2m(&mut self, base: u64, frame_paddr: u64, pd_paddr: u64, features: &Features)
        -> (r: Option<u64>)
        requires
            as_wf(old(self).root),
            crate::vspace::KERNEL_DYNAMIC_START <= base,
            base + 0x200000 <= crate::vspace::KERNEL_DYNAMIC_END,
            base % 0x200000 == 0,
            pd_paddr != 0,
            pd_paddr & PAGE_ADDR_MASK == pd_paddr,
            find_table(old(self).root.tables@, pd_paddr) < 0,
            old(self).root.pml4@[511] & PAGE_PRESENT != 0,
            find_table(
                old(self).root.tables@,
                old(self).root.pml4@[511] & PAGE_ADDR_MASK,
            ) >= 0,
            ({
                let t3 = find_table(
                    old(self).root.tables@,
                    old(self).root.pml4@[511] & PAGE_ADDR_MASK,
                );
                old(self).root.tables@[t3].entries@[511] & PAGE_PRESENT == 0
            }),
        ensures
            as_wf(final(self).root),
            final(self).dynamic_free == old(self).dynamic_free,
            r == Some(base),
            forall|v: u64|
                crate::vspace::KERNEL_DYNAMIC_START <= v && pd_index_spec(v) == pd_index_spec(
                    base,
                ) ==> ((#[trigger] walk_spec(final(self).root, v)) matches Some(l) && l
                    & PAGE_PRESENT != 0 && l & PAGE_PS != 0 && l & PAGE_RW != 0 && l & PAGE_US
                    == 0),
            forall|v: u64|
                crate::vspace::KERNEL_DYNAMIC_START <= v && pd_index_spec(v) != pd_index_spec(
                    base,
                ) ==> (#[trigger] walk_spec(final(self).root, v)) is None,
    {
        proof {
            lemma_dynamic_indices(base);
            assert((pd_paddr | PAGE_PRESENT | PAGE_RW) & PAGE_PRESENT != 0 && (pd_paddr
                | PAGE_PRESENT | PAGE_RW) & PAGE_ADDR_MASK == pd_paddr && (pd_paddr
                | PAGE_PRESENT | PAGE_RW) & PAGE_PS == 0) by (bit_vector)
                requires
                    pd_paddr & PAGE_ADDR_MASK == pd_paddr,
            ;
            assert(0u64 & PAGE_PRESENT == 0) by (bit_vector);
        }
        let ghost before = self.root;
        let ghost t3 = find_table(before.tables@, before.pml4@[511] & PAGE_ADDR_MASK);
        proof {
            crate::vspace::paging::lemma_find_table_props(
                before.tables@,
                before.pml4@[511] & PAGE_ADDR_MASK,
            );
            crate::vspace::paging::lemma_find_table_props(before.tables@, pd_paddr);
        }
        self.root.ensure_mapping_entry_2m(base, pd_paddr);
        let mapping: crate::vspace::paging::PageMapping<crate::vspace::page::Page2M> =
            crate::vspace::paging::PageMapping {
            vaddr: base,
            paddr: frame_paddr,
            pge: features.pge,
            mt: crate::cpu::MemoryType::WB,
            access: crate::vspace::paging::Access { write: true, user: false, nxe: None },
            marker: core::marker::PhantomData,
        };
        let ghost n0 = before.tables@.len() as int;
        proof {
            assert(self.root.pml4@ == before.pml4@);
            assert(self.root.tables@[t3].entries@[511] == pd_paddr | PAGE_PRESENT | PAGE_RW);
            // the pdpt is still found at its old position, and the new
            // page directory at the end
            assert forall|j: int| 0 <= j < t3 implies (#[trigger] self.root.tables@[j]).paddr
                != before.pml4@[511] & PAGE_ADDR_MASK by {
                assert(self.root.tables@[j] == before.tables@[j]);
            }
            crate::vspace::paging::lemma_find_table_scan(
                self.root.tables@,
                before.pml4@[511] & PAGE_ADDR_MASK,
                t3,
            );
            assert forall|j: int| 0 <= j < n0 implies (#[trigger] self.root.tables@[j]).paddr
                != pd_paddr by {
                if j == t3 {
                    assert(self.root.tables@[j].paddr == before.tables@[j].paddr);
                } else {
                    assert(self.root.tables@[j] == before.tables@[j]);
                }
            }
            crate::vspace::paging::lemma_find_table_scan(self.root.tables@, pd_paddr, n0);
            assert(self.root.tables@[n0].entries@[pd_index_spec(base)] == 0);
            assert(pdpt_index_spec(base) == 511);
        }
        self.root.raw_map_page_2m(&mapping);
        let ghost tpd = n0;
        proof {
            // positions are unchanged by writing the leaf: physical
            // addresses did not move
            assert forall|j: int| 0 <= j < t3 implies (#[trigger] self.root.tables@[j]).paddr
                != before.pml4@[511] & PAGE_ADDR_MASK by {
                assert(self.root.tables@[j].paddr == before.tables@[j].paddr);
            }
            assert(self.root.tables@[t3].paddr == before.pml4@[511] & PAGE_ADDR_MASK);
            crate::vspace::paging::lemma_find_table_scan(
                self.root.tables@,
                before.pml4@[511] & PAGE_ADDR_MASK,
                t3,
            );
            assert forall|j: int| 0 <= j < tpd implies (#[trigger] self.root.tables@[j]).paddr
                != pd_paddr by {
                if j == t3 {
                    assert(self.root.tables@[j].paddr == before.tables@[j].paddr);
                } else {
                    assert(self.root.tables@[j].paddr == before.tables@[j].paddr);
                }
            }
            assert(self.root.tables@[tpd].paddr == pd_paddr);
            crate::vspace::paging::lemma_find_table_scan(self.root.tables@, pd_paddr, tpd);
            assert(self.root.tables@[t3].entries@[511] == pd_paddr | PAGE_PRESENT | PAGE_RW);
            assert forall|j: int|
                0 <= j < 512 && self.root.tables@[tpd].entries@[j] != 0
                    implies self.root.tables@[tpd].entries@[j] == leaf_bits(mapping) by {
                if j != pd_index_spec(base) {
                    assert(self.root.tables@[tpd].entries@[j] == 0);
                }
            }
        }
        proof {
            lemma_leaf_bits_fields(mapping);
            let lb = leaf_bits(mapping);
            assert forall|v: u64|
                crate::vspace::KERNEL_DYNAMIC_START <= v && pd_index_spec(v) == pd_index_spec(
                    base,
                ) implies ((#[trigger] walk_spec(self.root, v)) matches Some(l) && l
                & PAGE_PRESENT != 0 && l & PAGE_PS != 0 && l & PAGE_RW != 0 && l & PAGE_US
                == 0) by {
                lemma_dynamic_indices(v);
                lemma_fill_walk(self.root, before, v, pd_paddr, t3, lb);
            }
            assert forall|v: u64|
                crate::vspace::KERNEL_DYNAMIC_START <= v && pd_index_spec(v) != pd_index_spec(
                    base,
                ) implies (#[trigger] walk_spec(self.root, v)) is None by {
                lemma_dynamic_indices(v);
                lemma_fill_walk(self.root, before, v, pd_paddr, t3, lb);
            }
        }
        Some(base)
    }
}

/// How a walk through the freshly filled dynamic slot resolves: the filled
/// page-directory slot reaches the new leaf, every other slot of the new
/// page directory is empty.
proof fn lemma_fill_walk(
    a: AS,
    before: AS,
    v: u64,
    pd_paddr: u64,
    t3: int,
    lb: u64,
)
    requires
        as_wf(a),
        pml4_index_spec(v) == 511,
        pdpt_index_spec(v) == 511,
        a.pml4@[511] & PAGE_PRESENT != 0,
        find_table(a.tables@, a.pml4@[511] & PAGE_ADDR_MASK) == t3,
        0 <= t3 < a.tables@.len(),
        a.tables@[t3].entries@[511] == pd_paddr | PAGE_PRESENT | PAGE_RW,
        pd_paddr & PAGE_ADDR_MASK == pd_paddr,
        ({
            let tpd = find_table(a.tables@, pd_paddr);
            &&& 0 <= tpd < a.tables@.len()
            &&& forall|j: int|
                0 <= j < 512 && a.tables@[tpd].entries@[j] != 0 ==> a.tables@[tpd].entries@[j]
                    == lb
            &&& lb & PAGE_PRESENT != 0
            &&& lb & PAGE_PS != 0
        }),
    ensures
        a.tables@[find_table(a.tables@, pd_paddr)].entries@[pd_index_spec(v)] != 0
            ==> walk_spec(a, v) == Some(lb),
        a.tables@[find_table(a.tables@, pd_paddr)].entries@[pd_index_spec(v)] == 0
            ==> walk_spec(a, v) is None,
{
    let e3 = a.tables@[t3].entries@[511];
    assert((pd_paddr | PAGE_PRESENT | PAGE_RW) & PAGE_PRESENT != 0 && (pd_paddr | PAGE_PRESENT
        | PAGE_RW) & PAGE_ADDR_MASK == pd_paddr && (pd_paddr | PAGE_PRESENT | PAGE_RW)
        & PAGE_PS == 0) by (bit_vector)
        requires
            pd_paddr & PAGE_ADDR_MASK == pd_paddr,
    ;
    let tpd = find_table(a.tables@, pd_paddr);
    let e2 = a.tables@[tpd].entries@[pd_index_spec(v)];
    if e2 != 0 {
        assert(e2 == lb);
    } else {
        assert(0u64 & PAGE_PRESENT == 0) by (bit_vector);
    }
}

} // verus!
