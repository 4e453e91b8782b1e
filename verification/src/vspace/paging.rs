//! Page-table construction: the four-level table model, entry encoding,
//! and the fluent builder for page mappings.

use crate::cpu::features::{Features, NXE, PGE};
use crate::cpu::pat::{index_of, Entry};
use crate::cpu::MemoryType;
use crate::util::MemRange;
use crate::vspace::page::{Page, Page1G, Page2M, PageLevel};
use crate::vspace::Translation;
use core::marker::PhantomData;
use vstd::arithmetic::power2::pow2;
use vstd::prelude::*;

verus! {

pub const PAGE_PRESENT: u64 = 0x1;

pub const PAGE_RW: u64 = 0x2;

pub const PAGE_US: u64 = 0x4;

pub const PAGE_PWT: u64 = 0x8;

pub const PAGE_PCD: u64 = 0x10;

pub const PAGE_PS: u64 = 0x80;

pub const PAGE_GLOBAL: u64 = 0x100;

pub const PAGE_PAT_LARGE: u64 = 0x1000;

pub const PAGE_NX: u64 = 0x8000000000000000;

/// The address bits of a page-table entry.
pub const PAGE_ADDR_MASK: u64 = 0x000ffffffffff000;

/// Rights a mapping can carry.
pub enum Rights {
    Read,
    ReadWrite,
}

/// The page sizes a mapping can use; the 1 GiB variant is only
/// constructible with the CPU feature token.
#[derive(Debug, Clone, Copy)]
pub enum PageSize {
    Small,
    Large,
    Huge(crate::cpu::features::Page1GB),
}

/// Access control of a mapping.
#[derive(Debug, Clone, Copy)]
pub struct Access {
    pub write: bool,
    pub user: bool,
    pub nxe: Option<NXE>,
}

/// A fully described page mapping, ready to be written into a table.
pub struct PageMapping<S: PageLevel> {
    pub vaddr: u64,
    pub paddr: u64,
    pub pge: Option<PGE>,
    pub mt: MemoryType,
    pub access: Access,
    pub marker: PhantomData<S>,
}

/// The leaf entry bits a large or huge mapping writes: present, the page
/// size bit, access and cacheability bits, and the frame address.
pub open spec fn leaf_bits<S: PageLevel>(m: PageMapping<S>) -> u64 {
    let b0 = (m.paddr & PAGE_ADDR_MASK) | PAGE_PRESENT | PAGE_PS;
    let b1 = if m.access.write {
        b0 | PAGE_RW
    } else {
        b0
    };
    let b2 = if m.access.user {
        b1 | PAGE_US
    } else {
        b1
    };
    let b3 = if m.access.nxe is Some {
        b2 | PAGE_NX
    } else {
        b2
    };
    let b4 = if m.pge is Some {
        b3 | PAGE_GLOBAL
    } else {
        b3
    };
    let b5 = if index_of(m.mt) % 2 == 1 {
        b4 | PAGE_PWT
    } else {
        b4
    };
    let b6 = if (index_of(m.mt) / 2) % 2 == 1 {
        b5 | PAGE_PCD
    } else {
        b5
    };
    if index_of(m.mt) / 4 == 1 {
        b6 | PAGE_PAT_LARGE
    } else {
        b6
    }
}

/// How the individual fields read back out of a leaf entry.
pub proof fn lemma_leaf_bits_fields<S: PageLevel>(m: PageMapping<S>)
    ensures
        leaf_bits(m) & PAGE_PRESENT != 0,
        leaf_bits(m) & PAGE_PS != 0,
        (leaf_bits(m) & PAGE_RW != 0) <==> m.access.write,
        (leaf_bits(m) & PAGE_US != 0) <==> m.access.user,
        (leaf_bits(m) & PAGE_NX != 0) <==> m.access.nxe is Some,
        (leaf_bits(m) & PAGE_GLOBAL != 0) <==> m.pge is Some,
        (leaf_bits(m) & PAGE_PWT != 0) <==> index_of(m.mt) % 2 == 1,
        (leaf_bits(m) & PAGE_PCD != 0) <==> (index_of(m.mt) / 2) % 2 == 1,
        index_of(m.mt) / 4 == 1 ==> leaf_bits(m) & PAGE_PAT_LARGE != 0,
        index_of(m.mt) / 4 != 1 && m.paddr & PAGE_PAT_LARGE == 0 ==> leaf_bits(m)
            & PAGE_PAT_LARGE == 0,
        index_of(m.mt) / 4 != 1 ==> leaf_bits(m) & PAGE_ADDR_MASK == m.paddr & PAGE_ADDR_MASK,
{
    let pa = m.paddr;
    let w = m.access.write;
    let u = m.access.user;
    let nx = m.access.nxe is Some;
    let g = m.pge is Some;
    let pwt = index_of(m.mt) % 2 == 1;
    let pcd = (index_of(m.mt) / 2) % 2 == 1;
    let pat = index_of(m.mt) / 4 == 1;
    let lb = leaf_bits(m);
    assert(lb == ({
        let b0 = (pa & 0x000ffffffffff000) | 0x1 | 0x80;
        let b1 = if w {
            b0 | 0x2
        } else {
            b0
        };
        let b2 = if u {
            b1 | 0x4
        } else {
            b1
        };
        let b3 = if nx {
            b2 | 0x8000000000000000
        } else {
            b2
        };
        let b4 = if g {
            b3 | 0x100
        } else {
            b3
        };
        let b5 = if pwt {
            b4 | 0x8
        } else {
            b4
        };
        let b6 = if pcd {
            b5 | 0x10
        } else {
            b5
        };
        if pat {
            b6 | 0x1000
        } else {
            b6
        }
    }));
    assert({
        let lb2 = ({
            let b0 = (pa & 0x000ffffffffff000) | 0x1 | 0x80;
            let b1 = if w {
                b0 | 0x2
            } else {
                b0
            };
            let b2 = if u {
                b1 | 0x4
            } else {
                b1
            };
            let b3 = if nx {
                b2 | 0x8000000000000000
            } else {
                b2
            };
            let b4 = if g {
                b3 | 0x100
            } else {
                b3
            };
            let b5 = if pwt {
                b4 | 0x8
            } else {
                b4
            };
            let b6 = if pcd {
                b5 | 0x10
            } else {
                b5
            };
            if pat {
                b6 | 0x1000
            } else {
                b6
            }
        });
        &&& lb2 & 0x1 != 0
        &&& lb2 & 0x80 != 0
        &&& ((lb2 & 0x2 != 0) <==> w)
        &&& ((lb2 & 0x4 != 0) <==> u)
        &&& ((lb2 & 0x8000000000000000 != 0) <==> nx)
        &&& ((lb2 & 0x100 != 0) <==> g)
        &&& ((lb2 & 0x8 != 0) <==> pwt)
        &&& ((lb2 & 0x10 != 0) <==> pcd)
        &&& pat ==> lb2 & 0x1000 != 0
        &&& (!pat && pa & 0x1000 == 0) ==> lb2 & 0x1000 == 0
        &&& !pat ==> lb2 & 0x000ffffffffff000 == pa & 0x000ffffffffff000
    }) by (bit_vector);
}

impl<S: PageLevel> PageMapping<S> {
    /// Compute the leaf entry this mapping writes.
    pub fn to_leaf_bits(&self) -> (r: u64)
        ensures
            r == leaf_bits(*self),
    {
        let mut bits: u64 = (self.paddr & PAGE_ADDR_MASK) | PAGE_PRESENT | PAGE_PS;
        if self.access.write {
            bits = bits | PAGE_RW;
        }
        if self.access.user {
            bits = bits | PAGE_US;
        }
        if self.access.nxe.is_some() {
            bits = bits | PAGE_NX;
        }
        if self.pge.is_some() {
            bits = bits | PAGE_GLOBAL;
        }
        let e = Entry(self.mt);
        let idx = e.index();
        if idx.pwt() {
            bits = bits | PAGE_PWT;
        }
        if idx.pcd() {
            bits = bits | PAGE_PCD;
        }
        if idx.pat() {
            bits = bits | PAGE_PAT_LARGE;
        }
        bits
    }
}

/// Fluent builder for a page mapping.
pub struct PageMappingBuilder<S: PageLevel> {
    pub internal: PageMapping<S>,
}

impl<S: PageLevel> PageMappingBuilder<S> {
    /// Start a mapping for a page whose physical backing the given
    /// translation can resolve; a page it cannot resolve gives `None`.
    pub fn new_page<T: Translation>(page: Page<S>, translation: &T) -> (r: Option<
        PageMappingBuilder<S>,
    >)
        requires
            page.base_spec() + S::bytes_spec() <= u64::MAX,
        ensures
            ({
                let range = MemRange {
                    start: page.base_spec(),
                    end: (page.base_spec() + S::bytes_spec()) as u64,
                };
                match translation.to_paddr_spec(range) {
                    Some(p) => r matches Some(b) && b.internal.vaddr == page.base_spec()
                        && b.internal.paddr == p.start && b.internal.access.write == false
                        && b.internal.access.user == false && b.internal.access.nxe is None
                        && b.internal.pge is None && b.internal.mt == MemoryType::WB,
                    None => r is None,
                }
            }),
    {
        let range = page.range();
        match translation.vaddr_to_paddr_range(&range) {
            Some(paddr_range) => Some(
                PageMappingBuilder {
                    internal: PageMapping {
                        vaddr: range.start,
                        paddr: paddr_range.start,
                        access: Access { write: false, user: false, nxe: None },
                        pge: None,
                        mt: MemoryType::WB,
                        marker: PhantomData,
                    },
                },
            ),
            None => None,
        }
    }

    /// Make this a user mapping; user mappings are never global.
    pub fn user(self) -> (r: PageMappingBuilder<S>)
        ensures
            r.internal == (PageMapping {
                access: Access { user: true, ..self.internal.access },
                pge: None::<PGE>,
                ..self.internal
            }),
    {
        let mut b = self;
        b.internal.access.user = true;
        b.internal.pge = None;
        b
    }

    /// Make this a kernel mapping; it is global exactly when the CPU has
    /// global pages.
    pub fn kernel(self, features: &Features) -> (r: PageMappingBuilder<S>)
        ensures
            r.internal == (PageMapping {
                access: Access { user: false, ..self.internal.access },
                pge: features.pge,
                ..self.internal
            }),
    {
        let mut b = self;
        b.internal.access.user = false;
        b.internal.pge = features.get_pge();
        b
    }

    /// Make the mapping writable.
    pub fn write(self) -> (r: PageMappingBuilder<S>)
        ensures
            r.internal == (PageMapping {
                access: Access { write: true, ..self.internal.access },
                ..self.internal
            }),
    {
        let mut b = self;
        b.internal.access.write = true;
        b
    }

    /// Make the mapping read-only.
    pub fn read_only(self) -> (r: PageMappingBuilder<S>)
        ensures
            r.internal == (PageMapping {
                access: Access { write: false, ..self.internal.access },
                ..self.internal
            }),
    {
        let mut b = self;
        b.internal.access.write = false;
        b
    }

    /// Forbid execution from the mapping; a no-op unless the CPU can mark
    /// pages no-execute.
    pub fn no_execute(self, features: &Features) -> (r: PageMappingBuilder<S>)
        ensures
            r.internal == (PageMapping {
                access: Access { nxe: features.nxe, ..self.internal.access },
                ..self.internal
            }),
    {
        let mut b = self;
        b.internal.access.nxe = features.get_nxe();
        b
    }

    /// Allow execution from the mapping.
    pub fn executable(self) -> (r: PageMappingBuilder<S>)
        ensures
            r.internal == (PageMapping {
                access: Access { nxe: None::<NXE>, ..self.internal.access },
                ..self.internal
            }),
    {
        let mut b = self;
        b.internal.access.nxe = None;
        b
    }

    /// The finished mapping.
    pub fn finish(self) -> (r: PageMapping<S>)
        ensures
            r == self.internal,
    {
        self.internal
    }
}

/// One page table below the root: its physical address and its 512
/// entries.
pub struct PageTable {
    pub paddr: u64,
    pub entries: Vec<u64>,
}

/// An address space: the root (PML4) table and every table below it.
pub struct AS {
    pub pml4: Vec<u64>,
    pub tables: Vec<PageTable>,
}

/// The PML4 slot a virtual address selects.
pub open spec fn pml4_index_spec(v: u64) -> int {
    (v as int / 0x8000000000) % 512
}

/// The PDPT slot a virtual address selects.
pub open spec fn pdpt_index_spec(v: u64) -> int {
    (v as int / 0x40000000) % 512
}

/// The PD slot a virtual address selects.
pub open spec fn pd_index_spec(v: u64) -> int {
    (v as int / 0x200000) % 512
}

/// The first table with the given physical address, or -1.
pub open spec fn find_table(ts: Seq<PageTable>, paddr: u64) -> int
    decreases ts.len(),
{
    if ts.len() == 0 {
        -1
    } else if ts[0].paddr == paddr {
        0
    } else {
        let r = find_table(ts.drop_first(), paddr);
        if r < 0 {
            -1
        } else {
            1 + r
        }
    }
}

/// What a `find_table` result means.
pub proof fn lemma_find_table_props(ts: Seq<PageTable>, paddr: u64)
    ensures
        find_table(ts, paddr) >= 0 ==> 0 <= find_table(ts, paddr) < ts.len() && ts[find_table(
            ts,
            paddr,
        )].paddr == paddr && forall|j: int|
            0 <= j < find_table(ts, paddr) ==> (#[trigger] ts[j]).paddr != paddr,
        find_table(ts, paddr) < 0 ==> forall|j: int|
            0 <= j < ts.len() ==> (#[trigger] ts[j]).paddr != paddr,
    decreases ts.len(),
{
    if ts.len() > 0 && ts[0].paddr != paddr {
        lemma_find_table_props(ts.drop_first(), paddr);
        let s2 = ts.drop_first();
        if find_table(s2, paddr) >= 0 {
            assert(ts[1 + find_table(s2, paddr)] == s2[find_table(s2, paddr)]);
            assert forall|j: int| 0 <= j < find_table(ts, paddr) implies (
            #[trigger] ts[j]).paddr != paddr by {
                if j > 0 {
                    assert(s2[j - 1] == ts[j]);
                }
            }
        } else {
            assert forall|j: int| 0 <= j < ts.len() implies (#[trigger] ts[j]).paddr
                != paddr by {
                if j > 0 {
                    assert(s2[j - 1] == ts[j]);
                }
            }
        }
    }
}

/// An address space is sound when the root has 512 entries and every
/// table below has 512 entries and a distinct, non-null, page-aligned
/// physical address that the entry address mask preserves.
pub open spec fn as_wf(a: AS) -> bool {
    &&& a.pml4@.len() == 512
    &&& forall|i: int|
        0 <= i < a.tables@.len() ==> (#[trigger] a.tables@[i]).entries@.len() == 512
    &&& forall|i: int|
        0 <= i < a.tables@.len() ==> (#[trigger] a.tables@[i]).paddr != 0 && a.tables@[i].paddr
            & PAGE_ADDR_MASK == a.tables@[i].paddr
    &&& forall|i: int, j: int|
        0 <= i < a.tables@.len() && 0 <= j < a.tables@.len() && i != j ==> (
        #[trigger] a.tables@[i]).paddr != (#[trigger] a.tables@[j]).paddr
}

/// Walk the tables for a virtual address: the leaf entry that maps it,
/// when the walk reaches one.
pub open spec fn walk_spec(a: AS, v: u64) -> Option<u64> {
    let e4 = a.pml4@[pml4_index_spec(v)];
    if e4 & PAGE_PRESENT == 0 {
        None
    } else {
        let t3 = find_table(a.tables@, e4 & PAGE_ADDR_MASK);
        if t3 < 0 {
            None
        } else {
            let e3 = a.tables@[t3].entries@[pdpt_index_spec(v)];
            if e3 & PAGE_PRESENT == 0 {
                None
            } else if e3 & PAGE_PS != 0 {
                Some(e3)
            } else {
                let t2 = find_table(a.tables@, e3 & PAGE_ADDR_MASK);
                if t2 < 0 {
                    None
                } else {
                    let e2 = a.tables@[t2].entries@[pd_index_spec(v)];
                    if e2 & PAGE_PRESENT == 0 {
                        None
                    } else if e2 & PAGE_PS != 0 {
                        Some(e2)
                    } else {
                        None
                    }
                }
            }
        }
    }
}

impl AS {
    /// A fresh address space: an empty root and no tables.
    pub fn new() -> (r: AS)
        ensures
            as_wf(r),
            r.tables@.len() == 0,
            forall|i: int| 0 <= i < 512 ==> r.pml4@[i] == 0,
            forall|v: u64| walk_spec(r, v) is None,
    {
        let mut pml4: Vec<u64> = Vec::new();
        let mut i: usize = 0;
        while i < 512
            invariant
                i <= 512,
                pml4@.len() == i,
                forall|j: int| 0 <= j < i ==> pml4@[j] == 0,
            decreases 512 - i,
        {
            pml4.push(0);
            i = i + 1;
        }
        let r = AS { pml4, tables: Vec::new() };
        proof {
            assert forall|v: u64| walk_spec(r, v) is None by {
                assert(0 <= pml4_index_spec(v) < 512) by (nonlinear_arith);
                assert(r.pml4@[pml4_index_spec(v)] == 0);
                assert(0u64 & PAGE_PRESENT == 0) by (bit_vector);
            }
        }
        r
    }

    /// The PML4 slot of a virtual address.
    pub fn pml4_index(v: u64) -> (r: usize)
        ensures
            r == pml4_index_spec(v),
            r < 512,
    {
        proof {
            vstd::bits::lemma_u64_shr_is_div(v, 39);
            assert(pow2(39) == 0x8000000000) by {
                vstd::arithmetic::power2::lemma2_to64_rest();
            }
            assert((v >> 39) % 512 < 512 && ((v >> 39) % 512) as int == (v >> 39) as int
                % 512) by (nonlinear_arith)
                requires
                    (v >> 39) >= 0,
            ;
        }
        ((v >> 39) % 512) as usize
    }

    /// The PDPT slot of a virtual address.
    pub fn pdpt_index(v: u64) -> (r: usize)
        ensures
            r == pdpt_index_spec(v),
            r < 512,
    {
        proof {
            vstd::bits::lemma_u64_shr_is_div(v, 30);
            assert(pow2(30) == 0x40000000) by {
                vstd::arithmetic::power2::lemma2_to64();
            }
            assert((v >> 30) % 512 < 512 && ((v >> 30) % 512) as int == (v >> 30) as int
                % 512) by (nonlinear_arith)
                requires
                    (v >> 30) >= 0,
            ;
        }
        ((v >> 30) % 512) as usize
    }

    /// The PD slot of a virtual address.
    pub fn pd_index(v: u64) -> (r: usize)
        ensures
            r == pd_index_spec(v),
            r < 512,
    {
        proof {
            vstd::bits::lemma_u64_shr_is_div(v, 21);
            assert(pow2(21) == 0x200000) by {
                vstd::arithmetic::power2::lemma2_to64();
            }
            assert((v >> 21) % 512 < 512 && ((v >> 21) % 512) as int == (v >> 21) as int
                % 512) by (nonlinear_arith)
                requires
                    (v >> 21) >= 0,
            ;
        }
        ((v >> 21) % 512) as usize
    }

    /// Find the position of the table with the given physical address.
    fn table_position(&self, paddr: u64) -> (r: Option<usize>)
        ensures
            match r {
                Some(i) => find_table(self.tables@, paddr) == i && i < self.tables@.len(),
                None => find_table(self.tables@, paddr) < 0,
            },
    {
        let n = self.tables.len();
        let mut i: usize = 0;
        while i < n
            invariant
                i <= n,
                n == self.tables@.len(),
                forall|j: int| 0 <= j < i ==> (#[trigger] self.tables@[j]).paddr != paddr,
            decreases n - i,
        {
            if self.tables[i].paddr == paddr {
                proof {
                    lemma_find_table_scan(self.tables@, paddr, i as int);
                }
                return Some(i);
            }
            i = i + 1;
        }
        proof {
            lemma_find_table_props(self.tables@, paddr);
            if find_table(self.tables@, paddr) >= 0 {
                assert(false);
            }
        }
        None
    }

    /// Walk the tables for a virtual address.
    pub fn walk(&self, v: u64) -> (r: Option<u64>)
        requires
            as_wf(*self),
        ensures
            r == walk_spec(*self, v),
    {
        let e4 = self.pml4[Self::pml4_index(v)];
        if e4 & PAGE_PRESENT == 0 {
            return None;
        }
        let t3 = match self.table_position(e4 & PAGE_ADDR_MASK) {
            None => { return None },
            Some(t) => t,
        };
        let e3 = self.tables[t3].entries[Self::pdpt_index(v)];
        if e3 & PAGE_PRESENT == 0 {
            return None;
        }
        if e3 & PAGE_PS != 0 {
            return Some(e3);
        }
        let t2 = match self.table_position(e3 & PAGE_ADDR_MASK) {
            None => { return None },
            Some(t) => t,
        };
        let e2 = self.tables[t2].entries[Self::pd_index(v)];
        if e2 & PAGE_PRESENT == 0 {
            return None;
        }
        if e2 & PAGE_PS != 0 {
            return Some(e2);
        }
        None
    }
}

/// Scanning characterization of `find_table`.
pub proof fn lemma_find_table_scan(ts: Seq<PageTable>, paddr: u64, i: int)
    requires
        0 <= i < ts.len(),
        forall|j: int| 0 <= j < i ==> (#[trigger] ts[j]).paddr != paddr,
        ts[i].paddr == paddr,
    ensures
        find_table(ts, paddr) == i,
    decreases i,
{
    if i > 0 {
        let s2 = ts.drop_first();
        assert(forall|j: int| 0 <= j < i - 1 ==> s2[j] == ts[j + 1]);
        lemma_find_table_scan(s2, paddr, i - 1);
    }
}


impl AS {
    /// A fresh, zero-filled table backed by the given physical frame.
    fn new_table(paddr: u64) -> (r: PageTable)
        ensures
            r.paddr == paddr,
            r.entries@.len() == 512,
            forall|j: int| 0 <= j < 512 ==> r.entries@[j] == 0,
    {
        let mut entries: Vec<u64> = Vec::new();
        let mut i: usize = 0;
        while i < 512
            invariant
                i <= 512,
                entries@.len() == i,
                forall|j: int| 0 <= j < i ==> entries@[j] == 0,
            decreases 512 - i,
        {
            entries.push(0);
            i = i + 1;
        }
        PageTable { paddr, entries }
    }

    /// Ensure the root entry for a 1 GiB mapping exists: when the PML4
    /// slot of the address is empty, a fresh table backed by the given
    /// frame is hung off it with kernel paging access (writable,
    /// supervisor, executable).
    pub fn ensure_mapping_entry_1g(&mut self, vaddr: u64, table_paddr: u64)
        requires
            as_wf(*old(self)),
            table_paddr != 0,
            table_paddr & PAGE_ADDR_MASK == table_paddr,
            old(self).pml4@[pml4_index_spec(vaddr)] & PAGE_PRESENT == 0 ==> find_table(
                old(self).tables@,
                table_paddr,
            ) < 0,
        ensures
            as_wf(*final(self)),
            old(self).pml4@[pml4_index_spec(vaddr)] & PAGE_PRESENT != 0 ==> *final(self) == *old(
                self,
            ),
            old(self).pml4@[pml4_index_spec(vaddr)] & PAGE_PRESENT == 0 ==> {
                &&& final(self).pml4@ == old(self).pml4@.update(
                    pml4_index_spec(vaddr),
                    table_paddr | PAGE_PRESENT | PAGE_RW,
                )
                &&& final(self).tables@.len() == old(self).tables@.len() + 1
                &&& forall|i: int|
                    0 <= i < old(self).tables@.len() ==> final(self).tables@[i] == old(
                        self,
                    ).tables@[i]
                &&& ({
                    let last = final(self).tables@[final(self).tables@.len() - 1];
                    last.paddr == table_paddr && last.entries@.len() == 512 && forall|j: int|
                        0 <= j < 512 ==> last.entries@[j] == 0
                })
            },
    {
        let idx = Self::pml4_index(vaddr);
        let e4 = self.pml4[idx];
        if e4 & PAGE_PRESENT == 0 {
            let table = Self::new_table(table_paddr);
            self.tables.push(table);
            let slot = &mut self.pml4[idx];
            *slot = table_paddr | PAGE_PRESENT | PAGE_RW;
            proof {
                lemma_find_table_props(old(self).tables@, table_paddr);
                assert forall|i: int, j: int|
                    0 <= i < self.tables@.len() && 0 <= j < self.tables@.len() && i
                        != j implies (#[trigger] self.tables@[i]).paddr != (
                    #[trigger] self.tables@[j]).paddr by {
                    if i < old(self).tables@.len() && j < old(self).tables@.len() {
                        assert(self.tables@[i] == old(self).tables@[i]);
                        assert(self.tables@[j] == old(self).tables@[j]);
                    } else if i < old(self).tables@.len() {
                        assert(old(self).tables@[i].paddr != table_paddr);
                    } else {
                        assert(old(self).tables@[j].paddr != table_paddr);
                    }
                }
            }
        }
    }

    /// Write the leaf entry of a 1 GiB mapping.
    ///
    /// The whole walk down to the slot must already exist and the slot
    /// must be empty.
    pub fn raw_map_page_1g(&mut self, mapping: &PageMapping<Page1G>)
        requires
            as_wf(*old(self)),
            old(self).pml4@[pml4_index_spec(mapping.vaddr)] & PAGE_PRESENT != 0,
            find_table(
                old(self).tables@,
                old(self).pml4@[pml4_index_spec(mapping.vaddr)] & PAGE_ADDR_MASK,
            ) >= 0,
            ({
                let t3 = find_table(
                    old(self).tables@,
                    old(self).pml4@[pml4_index_spec(mapping.vaddr)] & PAGE_ADDR_MASK,
                );
                old(self).tables@[t3].entries@[pdpt_index_spec(mapping.vaddr)] & PAGE_PRESENT
                    == 0
            }),
        ensures
            as_wf(*final(self)),
            final(self).pml4@ == old(self).pml4@,
            ({
                let t3 = find_table(
                    old(self).tables@,
                    old(self).pml4@[pml4_index_spec(mapping.vaddr)] & PAGE_ADDR_MASK,
                );
                &&& final(self).tables@.len() == old(self).tables@.len()
                &&& forall|i: int|
                    0 <= i < old(self).tables@.len() && i != t3 ==> final(self).tables@[i]
                        == old(self).tables@[i]
                &&& final(self).tables@[t3].paddr == old(self).tables@[t3].paddr
                &&& final(self).tables@[t3].entries@ == old(self).tables@[t3].entries@.update(
                    pdpt_index_spec(mapping.vaddr),
                    leaf_bits(*mapping),
                )
            }),
    {
        let idx1 = Self::pml4_index(mapping.vaddr);
        let e4 = self.pml4[idx1];
        let t3 = match self.table_position(e4 & PAGE_ADDR_MASK) {
            Some(t) => t,
            None => {
                proof {
                    assert(false);
                }
                0
            },
        };
        let bits = mapping.to_leaf_bits();
        let idx2 = Self::pdpt_index(mapping.vaddr);
        let tref = &mut self.tables[t3];
        let eref = &mut tref.entries[idx2];
        *eref = bits;
    }

    /// Ensure the mid-level entry for a 2 MiB mapping exists: when the
    /// PDPT slot of the address is empty, a fresh page directory backed by
    /// the given frame is hung off it with kernel paging access. The root
    /// entry must already exist and the slot must not hold a huge leaf.
    pub fn ensure_mapping_entry_2m(&mut self, vaddr: u64, table_paddr: u64)
        requires
            as_wf(*old(self)),
            table_paddr != 0,
            table_paddr & PAGE_ADDR_MASK == table_paddr,
            find_table(old(self).tables@, table_paddr) < 0,
            old(self).pml4@[pml4_index_spec(vaddr)] & PAGE_PRESENT != 0,
            find_table(
                old(self).tables@,
                old(self).pml4@[pml4_index_spec(vaddr)] & PAGE_ADDR_MASK,
            ) >= 0,
            ({
                let t3 = find_table(
                    old(self).tables@,
                    old(self).pml4@[pml4_index_spec(vaddr)] & PAGE_ADDR_MASK,
                );
                let e3 = old(self).tables@[t3].entries@[pdpt_index_spec(vaddr)];
                e3 & PAGE_PRESENT == 0
            }),
        ensures
            as_wf(*final(self)),
            final(self).pml4@ == old(self).pml4@,
            ({
                let t3 = find_table(
                    old(self).tables@,
                    old(self).pml4@[pml4_index_spec(vaddr)] & PAGE_ADDR_MASK,
                );
                &&& final(self).tables@.len() == old(self).tables@.len() + 1
                &&& forall|i: int|
                    0 <= i < old(self).tables@.len() && i != t3 ==> final(self).tables@[i]
                        == old(self).tables@[i]
                &&& final(self).tables@[t3].paddr == old(self).tables@[t3].paddr
                &&& final(self).tables@[t3].entries@ == old(self).tables@[t3].entries@.update(
                    pdpt_index_spec(vaddr),
                    table_paddr | PAGE_PRESENT | PAGE_RW,
                )
                &&& ({
                    let last = final(self).tables@[final(self).tables@.len() - 1];
                    last.paddr == table_paddr && last.entries@.len() == 512 && forall|j: int|
                        0 <= j < 512 ==> last.entries@[j] == 0
                })
            }),
    {
        let idx1 = Self::pml4_index(vaddr);
        let e4 = self.pml4[idx1];
        let t3 = match self.table_position(e4 & PAGE_ADDR_MASK) {
            Some(t) => t,
            None => {
                proof {
                    assert(false);
                }
                0
            },
        };
        let idx2 = Self::pdpt_index(vaddr);
        proof {
            lemma_find_table_props(old(self).tables@, table_paddr);
        }
        let table = Self::new_table(table_paddr);
        let tref = &mut self.tables[t3];
        let eref = &mut tref.entries[idx2];
        *eref = table_paddr | PAGE_PRESENT | PAGE_RW;
        self.tables.push(table);
        proof {
            assert forall|i: int, j: int|
                0 <= i < self.tables@.len() && 0 <= j < self.tables@.len() && i != j implies (
            #[trigger] self.tables@[i]).paddr != (#[trigger] self.tables@[j]).paddr by {
                let n0 = old(self).tables@.len() as int;
                if i < n0 && j < n0 {
                    assert(self.tables@[i].paddr == old(self).tables@[i].paddr);
                    assert(self.tables@[j].paddr == old(self).tables@[j].paddr);
                } else if i < n0 {
                    assert(self.tables@[i].paddr == old(self).tables@[i].paddr);
                    assert(old(self).tables@[i].paddr != table_paddr);
                } else {
                    assert(self.tables@[j].paddr == old(self).tables@[j].paddr);
                    assert(old(self).tables@[j].paddr != table_paddr);
                }
            }
        }
    }

    /// Write the leaf entry of a 2 MiB mapping.
    ///
    /// The whole walk down to the slot must already exist and the slot
    /// must be empty.
    pub fn raw_map_page_2m(&mut self, mapping: &PageMapping<Page2M>)
        requires
            as_wf(*old(self)),
            old(self).pml4@[pml4_index_spec(mapping.vaddr)] & PAGE_PRESENT != 0,
            find_table(
                old(self).tables@,
                old(self).pml4@[pml4_index_spec(mapping.vaddr)] & PAGE_ADDR_MASK,
            ) >= 0,
            ({
                let t3 = find_table(
                    old(self).tables@,
                    old(self).pml4@[pml4_index_spec(mapping.vaddr)] & PAGE_ADDR_MASK,
                );
                let e3 = old(self).tables@[t3].entries@[pdpt_index_spec(mapping.vaddr)];
                &&& e3 & PAGE_PRESENT != 0
                &&& e3 & PAGE_PS == 0
                &&& find_table(old(self).tables@, e3 & PAGE_ADDR_MASK) >= 0
                &&& ({
                    let t2 = find_table(old(self).tables@, e3 & PAGE_ADDR_MASK);
                    old(self).tables@[t2].entries@[pd_index_spec(mapping.vaddr)] & PAGE_PRESENT
                        == 0
                })
            }),
        ensures
            as_wf(*final(self)),
            final(self).pml4@ == old(self).pml4@,
            ({
                let t3 = find_table(
                    old(self).tables@,
                    old(self).pml4@[pml4_index_spec(mapping.vaddr)] & PAGE_ADDR_MASK,
                );
                let e3 = old(self).tables@[t3].entries@[pdpt_index_spec(mapping.vaddr)];
                let t2 = find_table(old(self).tables@, e3 & PAGE_ADDR_MASK);
                &&& final(self).tables@.len() == old(self).tables@.len()
                &&& forall|i: int|
                    0 <= i < old(self).tables@.len() && i != t2 ==> final(self).tables@[i]
                        == old(self).tables@[i]
                &&& final(self).tables@[t2].paddr == old(self).tables@[t2].paddr
                &&& final(self).tables@[t2].entries@ == old(self).tables@[t2].entries@.update(
                    pd_index_spec(mapping.vaddr),
                    leaf_bits(*mapping),
                )
            }),
    {
        let idx1 = Self::pml4_index(mapping.vaddr);
        let e4 = self.pml4[idx1];
        let t3 = match self.table_position(e4 & PAGE_ADDR_MASK) {
            Some(t) => t,
            None => {
                proof {
                    assert(false);
                }
                0
            },
        };
        let idx2 = Self::pdpt_index(mapping.vaddr);
        let e3 = self.tables[t3].entries[idx2];
        let t2 = match self.table_position(e3 & PAGE_ADDR_MASK) {
            Some(t) => t,
            None => {
                proof {
                    assert(false);
                }
                0
            },
        };
        let bits = mapping.to_leaf_bits();
        let idx3 = Self::pd_index(mapping.vaddr);
        let tref = &mut self.tables[t2];
        let eref = &mut tref.entries[idx3];
        *eref = bits;
    }
}

} // verus!
