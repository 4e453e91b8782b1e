//! Buddy memory allocator.
//!
//! A power-of-two size-class allocator over orders 7 to 30, so blocks of
//! 128 bytes up to 1 GiB. Each order keeps a free list sorted by ascending
//! base address; freeing coalesces a block with its buddy whenever the
//! buddy is free, allocation splits a block of the next order when a list
//! runs dry.

use crate::boot::cmdline::option_is_true;
use crate::ip_collections::linkedlist::{
    find_key, insert_position, lemma_find_key_at, lemma_find_key_none, lemma_find_key_props,
    lemma_insert_position_bounds, LinkedList,
};
use crate::ip_collections::Keyed;
use crate::util::log2_usize;
use vstd::arithmetic::power2::{lemma2_to64, lemma2_to64_rest, lemma_pow2_adds, lemma_pow2_pos, pow2};
use vstd::bits::{lemma_u64_pow2_no_overflow, lemma_u64_shl_is_mul};
use vstd::prelude::*;

verus! {

/// Smallest allocation is 128 bytes.
pub const MIN_ORDER: u32 = 7;

/// Largest allocation is 1 GiB.
pub const MAX_ORDER: u32 = 30;

/// How many free lists the allocator keeps: one per order from `MIN_ORDER`
/// to `MAX_ORDER` inclusive.
pub const NUM_ORDERS: usize = 24;

/// A free block: its base address and its order.
///
/// In the running kernel this record lives in the first bytes of the free
/// block itself, which is by definition not in use.
#[derive(Clone, Copy, Debug, PartialEq, Eq, Structural)]
pub struct Node {
    pub addr: u64,
    pub order: u32,
}

impl Keyed for Node {
    open spec fn key_spec(&self) -> u64 {
        self.addr
    }

    fn key(&self) -> u64 {
        self.addr
    }
}

/// The number of bytes in a block of the given order.
pub open spec fn block_size(order: u32) -> int {
    pow2(order as nat) as int
}

/// The free list that holds blocks of the given order.
pub open spec fn pool_index(order: u32) -> int {
    order - MIN_ORDER
}

/// Whether address `a` lies inside the block `n` describes.
pub open spec fn in_block(n: Node, a: int) -> bool {
    n.addr <= a < n.addr + block_size(n.order)
}

/// The buddy of a block: the block it was split from a double-sized block
/// with, found by flipping the bit of its own size.
pub open spec fn buddy_of(addr: int, order: u32) -> int {
    if addr % (2 * block_size(order)) == 0 {
        addr + block_size(order)
    } else {
        addr - block_size(order)
    }
}

/// A sound entry of pool `i`: the right order, non-null, aligned to its
/// size, and not wrapping the address space.
pub open spec fn entry_wf(n: Node, i: int) -> bool {
    &&& n.order == MIN_ORDER + i
    &&& n.addr != 0
    &&& n.addr as int % block_size(n.order) == 0
    &&& n.addr + block_size(n.order) <= u64::MAX as int + 1
}

/// Two free blocks never overlap.
pub open spec fn blocks_disjoint(n1: Node, n2: Node) -> bool {
    n1.addr + block_size(n1.order) <= n2.addr || n2.addr + block_size(n2.order) <= n1.addr
}

/// The allocator's invariant over the free lists.
///
/// Every list holds sound entries of its own order, sorted by strictly
/// ascending address; blocks are pairwise disjoint; and below the top
/// order no two buddies are both free, as freeing would have coalesced
/// them.
pub open spec fn pools_wf(p: Seq<Seq<Node>>) -> bool {
    &&& p.len() == NUM_ORDERS
    &&& forall|i: int, j: int|
        0 <= i < p.len() && 0 <= j < p[i].len() ==> entry_wf(#[trigger] p[i][j], i)
    &&& forall|i: int, j1: int, j2: int|
        0 <= i < p.len() && 0 <= j1 < j2 < p[i].len() ==> (#[trigger] p[i][j1]).addr < (
        #[trigger] p[i][j2]).addr
    &&& forall|i1: int, j1: int, i2: int, j2: int|
        0 <= i1 < p.len() && 0 <= j1 < p[i1].len() && 0 <= i2 < p.len() && 0 <= j2 < p[i2].len()
            && (i1 != i2 || j1 != j2) ==> blocks_disjoint(
            #[trigger] p[i1][j1],
            #[trigger] p[i2][j2],
        )
    &&& forall|i: int, j1: int, j2: int|
        0 <= i < p.len() - 1 && 0 <= j1 < p[i].len() && 0 <= j2 < p[i].len() && j1 != j2 ==> (
        #[trigger] p[i][j1]).addr != buddy_of((#[trigger] p[i][j2]).addr as int, (MIN_ORDER
            + i) as u32)
}

/// Whether some free block covers address `a`.
pub open spec fn covered(p: Seq<Seq<Node>>, a: int) -> bool {
    exists|i: int, j: int|
        0 <= i < p.len() && 0 <= j < p[i].len() && in_block(#[trigger] p[i][j], a)
}

/// An address-size block is aligned to its size either way round: a block
/// aligned to twice its size keeps its address, otherwise stepping one
/// size down does; and taking the buddy twice leads back.
pub proof fn lemma_buddy_facts(addr: int, order: u32)
    requires
        order < 63,
        0 <= addr,
        addr % block_size(order) == 0,
        addr + block_size(order) <= u64::MAX as int + 1,
        addr != 0,
    ensures
        buddy_of(addr, order) % block_size(order) == 0,
        buddy_of(addr, order) != addr,
        buddy_of(buddy_of(addr, order), order) == addr,
        buddy_of(addr, order) >= 0,
        addr % (2 * block_size(order)) == 0 ==> buddy_of(addr, order) == addr + block_size(order),
        addr % (2 * block_size(order)) != 0 ==> buddy_of(addr, order) == addr - block_size(order)
            && addr - block_size(order) >= 0 && (addr - block_size(order)) % (2 * block_size(
            order,
        )) == 0,
        if addr % (2 * block_size(order)) == 0 {
            addr
        } else {
            buddy_of(addr, order)
        } % (2 * block_size(order)) == 0,
{
    let m = block_size(order);
    assert(m > 0) by {
        lemma_pow2_pos(order as nat);
    }
    assert(pow2(order as nat + 1) == 2 * pow2(order as nat)) by {
        lemma_pow2_adds(order as nat, 1);
        lemma2_to64();
    }
    let r = addr % (2 * m);
    let q = addr / (2 * m);
    vstd::arithmetic::div_mod::lemma_fundamental_div_mod(addr, 2 * m);
    vstd::arithmetic::div_mod::lemma_mod_bound(addr, 2 * m);
    assert(addr == 2 * m * q + r && 0 <= r < 2 * m);
    vstd::arithmetic::div_mod::lemma_mod_multiples_vanish(2 * q, r, m);
    assert(m * (2 * q) + r == addr) by (nonlinear_arith)
        requires
            addr == 2 * m * q + r,
    ;
    assert(r % m == 0);
    let t = r / m;
    vstd::arithmetic::div_mod::lemma_fundamental_div_mod(r, m);
    assert(r == m * t);
    assert(r == 0 || r == m) by (nonlinear_arith)
        requires
            m > 0,
            0 <= r < 2 * m,
            r == m * t,
    ;
    if r == 0 {
        let b = addr + m;
        assert(b % m == 0) by (nonlinear_arith)
            requires
                m > 0,
                addr % m == 0,
                addr >= 0,
                b == addr + m,
        ;
        assert(b % (2 * m) == m) by (nonlinear_arith)
            requires
                m > 0,
                addr % (2 * m) == 0,
                addr >= 0,
                b == addr + m,
        ;
        assert(buddy_of(b, order) == addr);
    } else {
        let b = addr - m;
        let d = addr / (2 * m);
        vstd::arithmetic::div_mod::lemma_fundamental_div_mod(addr, 2 * m);
        assert(addr == 2 * m * d + m);
        assert(d >= 0) by (nonlinear_arith)
            requires
                m > 0,
                addr >= 0,
                addr == 2 * m * d + m,
        ;
        assert(b == 2 * m * d);
        assert(b >= 0) by (nonlinear_arith)
            requires
                m > 0,
                d >= 0,
                b == 2 * m * d,
        ;
        assert(b % (2 * m) == 0) by (nonlinear_arith)
            requires
                m > 0,
                d >= 0,
                b == 2 * m * d,
        ;
        lemma_double_align(b, m);
        assert(buddy_of(b, order) == addr);
    }
}

/// Removing one entry keeps the invariant and uncovers exactly its block.
pub proof fn lemma_wf_after_remove(p: Seq<Seq<Node>>, i: int, j: int)
    requires
        pools_wf(p),
        0 <= i < p.len(),
        0 <= j < p[i].len(),
    ensures
        pools_wf(p.update(i, p[i].remove(j))),
        forall|a: int|
            covered(p.update(i, p[i].remove(j)), a) <==> (covered(p, a) && !in_block(
                p[i][j],
                a,
            )),
        p.update(i, p[i].remove(j)).len() == p.len(),
        p.update(i, p[i].remove(j))[i].len() == p[i].len() - 1,
{
    p[i].remove_ensures(j);
    let q = p.update(i, p[i].remove(j));
    assert forall|i2: int, j2: int| 0 <= i2 < q.len() && 0 <= j2 < q[i2].len() implies {
        &&& entry_wf(q[i2][j2], i2)
        &&& exists|j3: int|
            0 <= j3 < p[i2].len() && p[i2][j3] == q[i2][j2] && (i2 != i || j3 != j)
    } by {
        if i2 == i {
            if j2 < j {
                assert(q[i2][j2] == p[i2][j2]);
            } else {
                assert(q[i2][j2] == p[i2][j2 + 1]);
            }
        } else {
            assert(q[i2][j2] == p[i2][j2]);
        }
    }
    assert forall|i2: int, j1: int, j2: int|
        0 <= i2 < q.len() && 0 <= j1 < j2 < q[i2].len() implies (q[i2][j1]).addr < (
    q[i2][j2]).addr by {
        if i2 == i {
            if j2 < j {
            } else if j1 < j {
                assert(q[i2][j1] == p[i2][j1] && q[i2][j2] == p[i2][j2 + 1]);
            } else {
                assert(q[i2][j1] == p[i2][j1 + 1] && q[i2][j2] == p[i2][j2 + 1]);
            }
        }
    }
    assert forall|a: int| covered(q, a) implies covered(p, a) && !in_block(p[i][j], a) by {
        let (i2, j2) = choose|i2: int, j2: int|
            0 <= i2 < q.len() && 0 <= j2 < q[i2].len() && in_block(#[trigger] q[i2][j2], a);
        let j3 = choose|j3: int|
            0 <= j3 < p[i2].len() && p[i2][j3] == q[i2][j2] && (i2 != i || j3 != j);
        assert(in_block(p[i2][j3], a));
        assert(blocks_disjoint(p[i2][j3], p[i][j]));
    }
    assert forall|a: int| covered(p, a) && !in_block(p[i][j], a) implies covered(q, a) by {
        let (i2, j2) = choose|i2: int, j2: int|
            0 <= i2 < p.len() && 0 <= j2 < p[i2].len() && in_block(#[trigger] p[i2][j2], a);
        if i2 != i {
            assert(in_block(q[i2][j2], a));
        } else if j2 < j {
            assert(in_block(q[i2][j2], a));
        } else if j2 == j {
            assert(false);
        } else {
            assert(q[i2][j2 - 1] == p[i2][j2]);
            assert(in_block(q[i2][j2 - 1], a));
        }
    }
}

/// The preconditions under which an entry may be inserted into pool `i`:
/// the invariant holds, the entry is sound, its block overlaps no free
/// block, and (below the top order) its buddy is not free.
pub open spec fn insert_pre(p: Seq<Seq<Node>>, i: int, n: Node) -> bool {
    &&& pools_wf(p)
    &&& 0 <= i < p.len()
    &&& entry_wf(n, i)
    &&& n.order < 63
    &&& forall|a: int| in_block(n, a) ==> !covered(p, a)
    &&& i < p.len() - 1 ==> forall|j: int|
        0 <= j < p[i].len() ==> (#[trigger] p[i][j]).addr != buddy_of(n.addr as int, n.order)
}

/// The pools after inserting `n` into pool `i` at its sorted position.
pub open spec fn inserted(p: Seq<Seq<Node>>, i: int, n: Node) -> Seq<Seq<Node>> {
    p.update(i, p[i].insert(insert_position(p[i], n.addr), n))
}

proof fn lemma_insert_entry_wf(p: Seq<Seq<Node>>, i: int, n: Node)
    requires
        insert_pre(p, i, n),
    ensures
        inserted(p, i, n).len() == p.len(),
        inserted(p, i, n)[i].len() == p[i].len() + 1,
        forall|i2: int, j2: int|
            0 <= i2 < inserted(p, i, n).len() && 0 <= j2 < inserted(p, i, n)[i2].len()
                ==> entry_wf(#[trigger] inserted(p, i, n)[i2][j2], i2),
{
    let pos = insert_position(p[i], n.addr);
    lemma_insert_position_bounds(p[i], n.addr);
    p[i].insert_ensures(pos, n);
    let q = inserted(p, i, n);
    assert forall|i2: int, j2: int|
        0 <= i2 < q.len() && 0 <= j2 < q[i2].len() implies entry_wf(
        #[trigger] q[i2][j2],
        i2,
    ) by {
        if i2 == i {
            if j2 < pos {
                assert(q[i2][j2] == p[i2][j2]);
            } else if j2 == pos {
                assert(q[i2][j2] == n);
            } else {
                assert(q[i2][j2] == p[i2][j2 - 1]);
            }
        } else {
            assert(q[i2][j2] == p[i2][j2]);
        }
    }
}

proof fn lemma_insert_fresh_addr(p: Seq<Seq<Node>>, i: int, n: Node)
    requires
        insert_pre(p, i, n),
    ensures
        forall|j3: int| 0 <= j3 < p[i].len() ==> (#[trigger] p[i][j3]).addr != n.addr,
{
    assert forall|j3: int| 0 <= j3 < p[i].len() implies (#[trigger] p[i][j3]).addr
        != n.addr by {
        if p[i][j3].addr == n.addr {
            assert(block_size((MIN_ORDER + i) as u32) > 0) by {
                lemma_pow2_pos((MIN_ORDER + i) as nat);
            }
            assert(in_block(n, n.addr as int));
            assert(in_block(p[i][j3], n.addr as int));
            assert(covered(p, n.addr as int));
        }
    }
}

proof fn lemma_insert_sorted(p: Seq<Seq<Node>>, i: int, n: Node)
    requires
        insert_pre(p, i, n),
    ensures
        forall|i2: int, j1: int, j2: int|
            0 <= i2 < inserted(p, i, n).len() && 0 <= j1 < j2 < inserted(p, i, n)[i2].len() ==> (
            #[trigger] inserted(p, i, n)[i2][j1]).addr < (#[trigger] inserted(
                p,
                i,
                n,
            )[i2][j2]).addr,
{
    let pos = insert_position(p[i], n.addr);
    lemma_insert_position_bounds(p[i], n.addr);
    lemma_insert_position_order(p[i], n.addr);
    lemma_insert_fresh_addr(p, i, n);
    p[i].insert_ensures(pos, n);
    let q = inserted(p, i, n);
    assert forall|i2: int, j1: int, j2: int|
        0 <= i2 < q.len() && 0 <= j1 < j2 < q[i2].len() implies (#[trigger] q[i2][j1]).addr < (
    #[trigger] q[i2][j2]).addr by {
        if i2 == i {
            if j1 == pos {
                assert(q[i2][j2] == p[i2][j2 - 1] && p[i2][j2 - 1].key_spec() > n.addr);
            } else if j2 == pos {
                assert(q[i2][j1] == p[i2][j1] && p[i2][j1].key_spec() <= n.addr);
                assert(q[i2][j1].addr != n.addr);
            } else if j2 < pos {
            } else if j1 > pos {
                assert(q[i2][j1] == p[i2][j1 - 1] && q[i2][j2] == p[i2][j2 - 1]);
            } else {
                assert(q[i2][j1] == p[i2][j1] && q[i2][j2] == p[i2][j2 - 1]);
                assert(p[i2][j1].key_spec() <= n.addr && p[i2][j2 - 1].key_spec() > n.addr);
            }
        }
    }
}

proof fn lemma_insert_new_disjoint(p: Seq<Seq<Node>>, i: int, n: Node)
    requires
        insert_pre(p, i, n),
    ensures
        forall|i2: int, j2: int|
            0 <= i2 < p.len() && 0 <= j2 < p[i2].len() ==> blocks_disjoint(
                n,
                #[trigger] p[i2][j2],
            ),
{
    assert forall|i2: int, j2: int|
        0 <= i2 < p.len() && 0 <= j2 < p[i2].len() implies blocks_disjoint(
        n,
        #[trigger] p[i2][j2],
    ) by {
        let n2 = p[i2][j2];
        if !blocks_disjoint(n, n2) {
            let lo = if n.addr as int >= n2.addr as int {
                n.addr as int
            } else {
                n2.addr as int
            };
            assert(block_size(n.order) > 0) by {
                lemma_pow2_pos(n.order as nat);
            }
            assert(block_size(n2.order) > 0) by {
                lemma_pow2_pos(n2.order as nat);
            }
            assert(in_block(n, lo) && in_block(n2, lo));
            assert(covered(p, lo));
        }
    }
}

#[verifier::rlimit(60)]
proof fn lemma_insert_pairs_disjoint(p: Seq<Seq<Node>>, i: int, n: Node)
    requires
        insert_pre(p, i, n),
    ensures
        forall|i1: int, j1: int, i2: int, j2: int|
            0 <= i1 < inserted(p, i, n).len() && 0 <= j1 < inserted(p, i, n)[i1].len() && 0 <= i2
                < inserted(p, i, n).len() && 0 <= j2 < inserted(p, i, n)[i2].len() && (i1 != i2
                || j1 != j2) ==> blocks_disjoint(
                #[trigger] inserted(p, i, n)[i1][j1],
                #[trigger] inserted(p, i, n)[i2][j2],
            ),
{
    let pos = insert_position(p[i], n.addr);
    lemma_insert_position_bounds(p[i], n.addr);
    lemma_insert_new_disjoint(p, i, n);
    p[i].insert_ensures(pos, n);
    let q = inserted(p, i, n);
    assert forall|i1: int, j1: int, i2: int, j2: int|
        0 <= i1 < q.len() && 0 <= j1 < q[i1].len() && 0 <= i2 < q.len() && 0 <= j2 < q[i2].len()
            && (i1 != i2 || j1 != j2) implies blocks_disjoint(
        #[trigger] q[i1][j1],
        #[trigger] q[i2][j2],
    ) by {
        let a1 = if i1 == i && j1 > pos {
            j1 - 1
        } else {
            j1
        };
        let a2 = if i2 == i && j2 > pos {
            j2 - 1
        } else {
            j2
        };
        if i1 == i && j1 > pos {
            assert(p[i1].insert(pos, n)[(j1 - 1) + 1] == p[i1][j1 - 1]);
        }
        if i2 == i && j2 > pos {
            assert(p[i2].insert(pos, n)[(j2 - 1) + 1] == p[i2][j2 - 1]);
        }
        if i1 == i && j1 == pos {
            assert(q[i1][j1] == n);
            assert(q[i2][j2] == p[i2][a2]);
            assert(blocks_disjoint(n, p[i2][a2]));
        } else if i2 == i && j2 == pos {
            assert(q[i2][j2] == n);
            assert(q[i1][j1] == p[i1][a1]);
            assert(blocks_disjoint(n, p[i1][a1]));
        } else {
            assert(q[i1][j1] == p[i1][a1]);
            assert(q[i2][j2] == p[i2][a2]);
            assert(i1 != i2 || a1 != a2);
            assert(blocks_disjoint(p[i1][a1], p[i2][a2]));
        }
    }
}

#[verifier::rlimit(60)]
proof fn lemma_insert_buddy_free(p: Seq<Seq<Node>>, i: int, n: Node)
    requires
        insert_pre(p, i, n),
    ensures
        forall|i3: int, j1: int, j2: int|
            0 <= i3 < inserted(p, i, n).len() - 1 && 0 <= j1 < inserted(p, i, n)[i3].len() && 0
                <= j2 < inserted(p, i, n)[i3].len() && j1 != j2 ==> (#[trigger] inserted(
                p,
                i,
                n,
            )[i3][j1]).addr != buddy_of((#[trigger] inserted(p, i, n)[i3][j2]).addr as int, (
            MIN_ORDER + i3) as u32),
{
    let pos = insert_position(p[i], n.addr);
    lemma_insert_position_bounds(p[i], n.addr);
    p[i].insert_ensures(pos, n);
    let q = inserted(p, i, n);
    assert forall|i3: int, j1: int, j2: int|
        0 <= i3 < q.len() - 1 && 0 <= j1 < q[i3].len() && 0 <= j2 < q[i3].len() && j1
            != j2 implies (#[trigger] q[i3][j1]).addr != buddy_of(
        (#[trigger] q[i3][j2]).addr as int,
        (MIN_ORDER + i3) as u32,
    ) by {
        let o = (MIN_ORDER + i3) as u32;
        if i3 != i {
            assert(q[i3][j1] == p[i3][j1] && q[i3][j2] == p[i3][j2]);
        } else {
            if j1 > pos {
                assert(p[i3].insert(pos, n)[(j1 - 1) + 1] == p[i3][j1 - 1]);
            }
            if j2 > pos {
                assert(p[i3].insert(pos, n)[(j2 - 1) + 1] == p[i3][j2 - 1]);
            }
            if j1 == pos || j2 == pos {
                lemma_buddy_facts(n.addr as int, o);
                if j2 == pos && j1 != pos {
                    let a1 = if j1 < pos {
                        j1
                    } else {
                        j1 - 1
                    };
                    assert(q[i3][j1] == p[i3][a1]);
                    assert(p[i3][a1].addr != buddy_of(n.addr as int, n.order));
                }
                if j1 == pos && j2 != pos {
                    let a2 = if j2 < pos {
                        j2
                    } else {
                        j2 - 1
                    };
                    assert(q[i3][j2] == p[i3][a2]);
                    let m2 = p[i3][a2];
                    if n.addr == buddy_of(m2.addr as int, o) {
                        lemma_buddy_facts(m2.addr as int, o);
                        assert(buddy_of(n.addr as int, o) == m2.addr);
                        assert(m2.addr != buddy_of(n.addr as int, n.order));
                    }
                }
            } else {
                let a1 = if j1 < pos {
                    j1
                } else {
                    j1 - 1
                };
                let a2 = if j2 < pos {
                    j2
                } else {
                    j2 - 1
                };
                assert(q[i3][j1] == p[i3][a1] && q[i3][j2] == p[i3][a2]);
            }
        }
    }
}

proof fn lemma_insert_covered(p: Seq<Seq<Node>>, i: int, n: Node)
    requires
        insert_pre(p, i, n),
    ensures
        forall|a: int| covered(inserted(p, i, n), a) <==> (covered(p, a) || in_block(n, a)),
{
    let pos = insert_position(p[i], n.addr);
    lemma_insert_position_bounds(p[i], n.addr);
    p[i].insert_ensures(pos, n);
    let q = inserted(p, i, n);
    assert forall|a: int| covered(q, a) implies covered(p, a) || in_block(n, a) by {
        let (i2, j2) = choose|i2: int, j2: int|
            0 <= i2 < q.len() && 0 <= j2 < q[i2].len() && in_block(#[trigger] q[i2][j2], a);
        if i2 == i && j2 == pos {
        } else if i2 == i && j2 > pos {
            assert(q[i2][j2] == p[i2][j2 - 1]);
            assert(in_block(p[i2][j2 - 1], a));
        } else {
            assert(in_block(p[i2][j2], a));
        }
    }
    assert forall|a: int| covered(p, a) || in_block(n, a) implies covered(q, a) by {
        if in_block(n, a) {
            assert(in_block(q[i][pos], a));
        } else {
            let (i2, j2) = choose|i2: int, j2: int|
                0 <= i2 < p.len() && 0 <= j2 < p[i2].len() && in_block(#[trigger] p[i2][j2], a);
            if i2 == i && j2 >= pos {
                assert(q[i2][j2 + 1] == p[i2][j2]);
                assert(in_block(q[i2][j2 + 1], a));
            } else {
                assert(in_block(q[i2][j2], a));
            }
        }
    }
}

/// Inserting a sound, disjoint, buddy-less entry keeps the invariant and
/// covers exactly its block in addition.
pub proof fn lemma_wf_after_insert(p: Seq<Seq<Node>>, i: int, n: Node)
    requires
        insert_pre(p, i, n),
    ensures
        pools_wf(inserted(p, i, n)),
        forall|a: int| covered(inserted(p, i, n), a) <==> (covered(p, a) || in_block(n, a)),
        inserted(p, i, n).len() == p.len(),
        inserted(p, i, n)[i].len() == p[i].len() + 1,
{
    lemma_insert_entry_wf(p, i, n);
    lemma_insert_sorted(p, i, n);
    lemma_insert_pairs_disjoint(p, i, n);
    lemma_insert_buddy_free(p, i, n);
    lemma_insert_covered(p, i, n);
}

/// In a sorted pool the insertion position splits the entries into keys at
/// most `k` before it and keys greater than `k` from it on.
pub proof fn lemma_insert_position_order(s: Seq<Node>, k: u64)
    ensures
        forall|j: int| 0 <= j < insert_position(s, k) ==> (#[trigger] s[j]).key_spec() <= k,
        insert_position(s, k) < s.len() ==> s[insert_position(s, k)].key_spec() > k,
    decreases s.len(),
{
    lemma_insert_position_bounds(s, k);
    if s.len() > 0 && s[0].key_spec() <= k {
        lemma_insert_position_order(s.drop_first(), k);
        lemma_insert_position_bounds(s.drop_first(), k);
        let s2 = s.drop_first();
        let pos = insert_position(s, k);
        assert(pos == 1 + insert_position(s2, k));
        assert(forall|j: int| 0 <= j < pos - 1 ==> s[j + 1] == #[trigger] s2[j]);
        assert forall|j: int| 0 <= j < pos implies (#[trigger] s[j]).key_spec() <= k by {
            if j > 0 {
                assert(s2[j - 1] == s[j]);
            }
        }
        if pos < s.len() {
            assert(s2[pos - 1] == s[pos]) by {
                assert(s2 =~= s.subrange(1, s.len() as int));
            }
        }
    }
}


/// A value aligned to twice a size is aligned to the size.
pub proof fn lemma_double_align(r: int, m: int)
    requires
        m > 0,
        r >= 0,
        r % (2 * m) == 0,
    ensures
        r % m == 0,
{
    let q = r / (2 * m);
    vstd::arithmetic::div_mod::lemma_fundamental_div_mod(r, 2 * m);
    assert(r == 2 * m * q);
    assert((2 * q) * m == r) by (nonlinear_arith)
        requires
            r == 2 * m * q,
    ;
    vstd::arithmetic::div_mod::lemma_mod_multiples_basic(2 * q, m);
}

/// A block's buddy also lies inside the address space.
pub proof fn lemma_buddy_fits(addr: int, order: u32)
    requires
        order < 63,
        0 < addr,
        addr % block_size(order) == 0,
        addr + block_size(order) <= u64::MAX as int + 1,
    ensures
        0 <= buddy_of(addr, order),
        buddy_of(addr, order) + block_size(order) <= u64::MAX as int + 1,
{
    let m = block_size(order);
    lemma_buddy_facts(addr, order);
    if addr % (2 * m) == 0 {
        // the double block starting at addr fits: the address space is a
        // multiple of the double size away
        let k = pow2((63 - order) as nat) as int;
        assert(k > 0) by {
            lemma_pow2_pos((63 - order) as nat);
        }
        assert(2 * m * k == u64::MAX as int + 1) by {
            lemma_pow2_adds(order as nat + 1, (63 - order) as nat);
            lemma_pow2_adds(order as nat, 1);
            lemma2_to64();
            lemma2_to64_rest();
            assert(pow2(64) == u64::MAX as int + 1);
            assert((2 * pow2(order as nat)) * pow2((63 - order) as nat) == pow2(64))
                by (nonlinear_arith)
                requires
                    pow2(order as nat + 1) * pow2((63 - order) as nat) == pow2(64),
                    pow2(order as nat + 1) == 2 * pow2(order as nat),
            ;
        }
        let q = addr / (2 * m);
        vstd::arithmetic::div_mod::lemma_fundamental_div_mod(addr, 2 * m);
        assert(addr == 2 * m * q);
        assert(q < k) by (nonlinear_arith)
            requires
                m > 0,
                k > 0,
                addr == 2 * m * q,
                addr + m <= 2 * m * k,
        ;
        assert(addr + 2 * m <= 2 * m * k) by (nonlinear_arith)
            requires
                m > 0,
                addr == 2 * m * q,
                q + 1 <= k,
        ;
    }
}

/// The free lists after freeing the block `(addr, order)`.
///
/// Below the top order the block's buddy is looked up in the block's own
/// list; when it is free the two are removed and merged, and the merged
/// double block is freed one order up. Otherwise the block is placed into
/// its list at the position that keeps the list sorted.
pub open spec fn spec_free(p: Seq<Seq<Node>>, addr: u64, order: u32) -> Seq<Seq<Node>>
    decreases MAX_ORDER - order,
{
    let i = pool_index(order);
    let b = buddy_of(addr as int, order);
    if order < MAX_ORDER && find_key(p[i], b as u64) >= 0 {
        let p1 = p.update(i, p[i].remove(find_key(p[i], b as u64)));
        let merged = if addr as int <= b {
            addr
        } else {
            b as u64
        };
        spec_free(p1, merged, (order + 1) as u32)
    } else {
        inserted(p, i, Node { addr, order })
    }
}

/// The block `(addr, order)` may be freed into `p`: the invariant holds,
/// the order is in range, and the block is sound and overlaps nothing
/// already free.
pub open spec fn free_pre(p: Seq<Seq<Node>>, addr: u64, order: u32) -> bool {
    &&& pools_wf(p)
    &&& MIN_ORDER <= order <= MAX_ORDER
    &&& addr != 0
    &&& addr as int % block_size(order) == 0
    &&& addr + block_size(order) <= u64::MAX as int + 1
    &&& forall|a: int| addr <= a < addr + block_size(order) ==> !covered(p, a)
}

/// One unfolding step of `spec_free`, with everything the next step needs.
///
/// In the coalescing case the buddy is a sound entry of the block's list,
/// removing it keeps the invariant, and the merged double block satisfies
/// `free_pre` one order up; otherwise the insertion of the block satisfies
/// `insert_pre`.
#[verifier::rlimit(60)]
pub proof fn lemma_spec_free_step(p: Seq<Seq<Node>>, addr: u64, order: u32)
    requires
        free_pre(p, addr, order),
    ensures
        ({
            let i = pool_index(order);
            let b = buddy_of(addr as int, order);
            let j = find_key(p[i], b as u64);
            &&& 0 <= b && b + block_size(order) <= u64::MAX as int + 1 && b as u64 as int == b
            &&& b as u64 != addr
            &&& if order < MAX_ORDER && j >= 0 {
                let p1 = p.update(i, p[i].remove(j));
                let merged = if addr as int <= b {
                    addr
                } else {
                    b as u64
                };
                &&& 0 <= j < p[i].len() && p[i][j].addr == b as u64
                &&& free_pre(p1, merged, (order + 1) as u32)
                &&& spec_free(p, addr, order) == spec_free(p1, merged, (order + 1) as u32)
                &&& forall|a: int|
                    covered(p1, a) <==> (covered(p, a) && !in_block(p[i][j], a))
                &&& forall|a: int|
                    merged <= a < merged + block_size((order + 1) as u32) <==> (addr <= a < addr
                        + block_size(order)) || in_block(p[i][j], a)
            } else {
                &&& insert_pre(p, i, Node { addr, order })
                &&& spec_free(p, addr, order) == inserted(p, i, Node { addr, order })
            }
        }),
{
    let i = pool_index(order);
    let m = block_size(order);
    assert(m > 0) by {
        lemma_pow2_pos(order as nat);
    }
    lemma_buddy_facts(addr as int, order);
    lemma_buddy_fits(addr as int, order);
    let b = buddy_of(addr as int, order);
    assert(b as u64 as int == b);
    let j = find_key(p[i], b as u64);
    lemma_find_key_props(p[i], b as u64);
    assert(pow2(order as nat + 1) == 2 * pow2(order as nat)) by {
        lemma_pow2_adds(order as nat, 1);
        lemma2_to64();
    }
    if order < MAX_ORDER && j >= 0 {
        let buddy_node = p[i][j];
        assert(entry_wf(buddy_node, i));
        let p1 = p.update(i, p[i].remove(j));
        lemma_wf_after_remove(p, i, j);
        let merged = if addr as int <= b {
            addr
        } else {
            b as u64
        };
        let dm = block_size((order + 1) as u32);
        assert(dm == 2 * m);
        // the merged block is exactly the two sibling blocks side by side
        assert(merged as int % dm == 0);
        assert(merged != 0);
        assert(merged + dm <= u64::MAX as int + 1);
        assert forall|a: int| merged <= a < merged + dm implies !covered(p1, a) by {
            if addr <= a < addr + m {
                assert(!covered(p, a));
            } else {
                assert(in_block(buddy_node, a));
            }
        }
    } else {
        let n = Node { addr, order };
        if i < p.len() - 1 {
            assert forall|j2: int| 0 <= j2 < p[i].len() implies (#[trigger] p[i][j2]).addr
                != buddy_of(n.addr as int, n.order) by {
                assert(p[i][j2].key_spec() != b as u64);
            }
        }
        assert(insert_pre(p, i, n));
    }
}

/// Freeing a sound block keeps the invariant and adds exactly the block's
/// addresses to the free coverage.
pub proof fn lemma_spec_free_ok(p: Seq<Seq<Node>>, addr: u64, order: u32)
    requires
        free_pre(p, addr, order),
    ensures
        pools_wf(spec_free(p, addr, order)),
        spec_free(p, addr, order).len() == p.len(),
        forall|a: int|
            covered(spec_free(p, addr, order), a) <==> (covered(p, a) || (addr <= a < addr as int
                + block_size(order))),
    decreases MAX_ORDER - order,
{
    lemma_spec_free_step(p, addr, order);
    let i = pool_index(order);
    let b = buddy_of(addr as int, order);
    let j = find_key(p[i], b as u64);
    if order < MAX_ORDER && j >= 0 {
        let p1 = p.update(i, p[i].remove(j));
        let merged = if addr as int <= b {
            addr
        } else {
            b as u64
        };
        lemma_spec_free_ok(p1, merged, (order + 1) as u32);
        assert forall|a: int| covered(spec_free(p, addr, order), a) <==> (covered(p, a) || (addr
            <= a < addr as int + block_size(order))) by {
            assert(covered(spec_free(p1, merged, (order + 1) as u32), a) <==> (covered(p1, a) || (
            merged <= a < merged as int + block_size((order + 1) as u32))));
            if in_block(p[i][j], a) {
                assert(covered(p, a));
            }
        }
    } else {
        let n = Node { addr, order };
        lemma_wf_after_insert(p, i, n);
    }
}

/// The free lists and the returned address after allocating a block of the
/// given order.
///
/// A non-empty list of the order gives up its front (lowest-address)
/// block. An empty list below the top order is refilled by allocating one
/// order up and splitting the result into two buddies, the lower of which
/// is returned; a null address reports failure.
pub open spec fn spec_alloc(p: Seq<Seq<Node>>, order: u32) -> (Seq<Seq<Node>>, u64)
    decreases MAX_ORDER - order,
{
    let i = pool_index(order);
    if p[i].len() > 0 {
        (p.update(i, p[i].drop_first()), p[i][0].addr)
    } else if order >= MAX_ORDER {
        (p, 0)
    } else {
        let r = spec_alloc(p, (order + 1) as u32);
        if r.1 == 0 {
            r
        } else {
            (r.0.update(i, seq![Node { addr: (r.1 as int + block_size(order)) as u64, order }]),
            r.1)
        }
    }
}

/// Allocation keeps the invariant; a successful allocation returns a
/// non-null block of the requested order, aligned to its size, carved out
/// of the free coverage exactly; a failed one changes nothing. Lists of
/// lower orders than the requested one are never touched.
#[verifier::rlimit(60)]
pub proof fn lemma_spec_alloc_ok(p: Seq<Seq<Node>>, order: u32)
    requires
        pools_wf(p),
        MIN_ORDER <= order <= MAX_ORDER,
    ensures
        ({
            let (q, r) = spec_alloc(p, order);
            &&& pools_wf(q)
            &&& q.len() == p.len()
            &&& (r == 0 ==> q == p)
            &&& (r != 0 ==> {
                &&& r as int % block_size(order) == 0
                &&& r as int + block_size(order) <= u64::MAX as int + 1
                &&& forall|a: int|
                    covered(q, a) <==> (covered(p, a) && !(r <= a < r as int + block_size(
                        order,
                    )))
                &&& forall|a: int| r <= a < r as int + block_size(order) ==> covered(p, a)
            })
            &&& forall|i2: int| 0 <= i2 < pool_index(order) ==> q[i2] == p[i2]
        }),
    decreases MAX_ORDER - order,
{
    let i = pool_index(order);
    let m = block_size(order);
    assert(m > 0) by {
        lemma_pow2_pos(order as nat);
    }
    if p[i].len() > 0 {
        assert(p[i].drop_first() =~= p[i].remove(0));
        lemma_wf_after_remove(p, i, 0);
        assert(p.update(i, p[i].drop_first()) == p.update(i, p[i].remove(0)));
        assert(entry_wf(p[i][0], i));
        let (q, r) = spec_alloc(p, order);
        assert forall|a: int| r <= a < r as int + m implies covered(p, a) by {
            assert(in_block(p[i][0], a));
        }
        assert forall|a: int| covered(q, a) <==> (covered(p, a) && !(r <= a < r as int
            + m)) by {
            assert(covered(q, a) <==> (covered(p, a) && !in_block(p[i][0], a)));
        }
    } else if order >= MAX_ORDER {
    } else {
        lemma_spec_alloc_ok(p, (order + 1) as u32);
        let (q1, r1) = spec_alloc(p, (order + 1) as u32);
        let dm = block_size((order + 1) as u32);
        assert(dm == 2 * m) by {
            lemma_pow2_adds(order as nat, 1);
            lemma2_to64();
        }
        if r1 != 0 {
            assert(r1 as int % (2 * m) == 0);
            lemma_double_align(r1 as int, m);
            let upper = (r1 as int + m) as u64;
            assert(upper as int == r1 as int + m);
            let n = Node { addr: upper, order };
            assert(upper as int % m == 0) by {
                vstd::arithmetic::div_mod::lemma_mod_add_multiples_vanish(r1 as int, m);
            }
            assert(entry_wf(n, i));
            assert(q1[i] == p[i]);
            assert forall|a: int| in_block(n, a) implies !covered(q1, a) by {
                assert(r1 <= a < r1 as int + dm);
            }
            assert(insert_pre(q1, i, n));
            lemma_wf_after_insert(q1, i, n);
            assert(q1[i].insert(insert_position(q1[i], n.addr), n) =~= seq![n]);
            let q = spec_alloc(p, order).0;
            assert(q == inserted(q1, i, n));
            assert forall|a: int| covered(q, a) <==> (covered(p, a) && !(r1 <= a < r1 as int
                + m)) by {
                assert(covered(q, a) <==> (covered(q1, a) || in_block(n, a)));
                assert(covered(q1, a) <==> (covered(p, a) && !(r1 <= a < r1 as int + dm)));
                if in_block(n, a) {
                    assert(r1 <= a < r1 as int + dm);
                }
            }
        }
    }
}


/// The buddy allocator: one free list per order, plus the flag for the
/// expensive free-path checking that `--heap_debug_free` enables.
pub struct Buddy {
    pools: Vec<LinkedList<Node>>,
    debug_free: bool,
}

impl Buddy {
    /// The free lists, by ascending order.
    pub closed spec fn pools(&self) -> Seq<Seq<Node>> {
        self.pools@.map_values(|l: LinkedList<Node>| l@)
    }

    /// Whether expensive free-path checking was requested.
    pub closed spec fn debug_free_spec(&self) -> bool {
        self.debug_free
    }

    /// The allocator's invariant.
    pub open spec fn wf(&self) -> bool {
        pools_wf(self.pools())
    }

    /// A fresh allocator that holds no memory at all.
    pub fn new() -> (r: Buddy)
        ensures
            r.wf(),
            forall|i: int| 0 <= i < NUM_ORDERS ==> r.pools()[i].len() == 0,
            !r.debug_free_spec(),
    {
        let mut pools: Vec<LinkedList<Node>> = Vec::new();
        let mut c: usize = 0;
        while c < NUM_ORDERS
            invariant
                c <= NUM_ORDERS,
                pools@.len() == c,
                forall|k: int| 0 <= k < c ==> (#[trigger] pools@[k])@.len() == 0,
            decreases NUM_ORDERS - c,
        {
            pools.push(LinkedList::new());
            c = c + 1;
        }
        let r = Buddy { pools, debug_free: false };
        proof {
            assert(r.pools().len() == NUM_ORDERS);
            assert(forall|i: int| 0 <= i < NUM_ORDERS ==> r.pools()[i].len() == 0);
        }
        r
    }

    /// Record the `--heap_debug_free` option: any 'true' value enables the
    /// expensive free-path checking.
    pub fn heap_debug_free(&mut self, value: &str)
        ensures
            final(self).pools() == old(self).pools(),
            final(self).debug_free_spec() == (old(self).debug_free_spec() || crate::boot::cmdline::truthy(value@)),
    {
        if option_is_true(value) {
            self.debug_free = true;
        }
    }

    /// Whether expensive free-path checking is enabled.
    pub fn heap_debug_free_enabled(&self) -> (r: bool)
        ensures
            r == self.debug_free_spec(),
    {
        self.debug_free
    }

    /// The byte size of a block of the given order.
    fn block_bytes(order: u32) -> (r: u64)
        requires
            order < 64,
        ensures
            r as int == block_size(order),
            r >= 1,
    {
        proof {
            lemma_u64_pow2_no_overflow(order as nat);
            lemma_u64_shl_is_mul(1, order as u64);
        }
        1u64 << order
    }

    /// Return the block `(addr, 2^order)` to the allocator.
    ///
    /// The buddy of the block is looked up in the block's own list; when it
    /// is free the two are merged and the double block freed one order up,
    /// otherwise the block joins its list at the sorted position.
    pub fn free(&mut self, addr: u64, order: u32)
        requires
            free_pre(old(self).pools(), addr, order),
        ensures
            final(self).wf(),
            final(self).pools() == spec_free(old(self).pools(), addr, order),
            final(self).debug_free_spec() == old(self).debug_free_spec(),
        decreases MAX_ORDER - order,
    {
        proof {
            lemma_spec_free_step(self.pools(), addr, order);
            lemma_spec_free_ok(self.pools(), addr, order);
        }
        let idx = (order - MIN_ORDER) as usize;
        let ghost p = self.pools();
        if order < MAX_ORDER {
            let size = Self::block_bytes(order);
            let double = Self::block_bytes(order + 1);
            proof {
                lemma_pow2_adds(order as nat, 1);
                lemma2_to64();
            }
            let buddy: u64 = if addr % double == 0 {
                addr + size
            } else {
                addr - size
            };
            proof {
                assert(buddy as int == buddy_of(addr as int, order));
            }
            let pool = &mut self.pools[idx];
            let removed = pool.remove(buddy);
            proof {
                assert(self.pools() =~= p.update(
                    idx as int,
                    self.pools@[idx as int]@,
                ));
            }
            if let Some(_buddy_node) = removed {
                let ghost j = find_key(p[idx as int], buddy);
                proof {
                    assert(self.pools() =~= p.update(idx as int, p[idx as int].remove(j)));
                }
                let merged = if addr < buddy {
                    addr
                } else {
                    buddy
                };
                self.free(merged, order + 1);
                return ;
            }
            proof {
                assert(self.pools() =~= p);
            }
        }
        let ghost p2 = self.pools();
        let pool = &mut self.pools[idx];
        pool.insert(Node { addr, order });
        proof {
            assert(self.pools() =~= inserted(p2, idx as int, Node { addr, order }));
        }
    }

    /// Refill the empty free list of the given order by allocating one
    /// order up and, on success, splitting the block into its two buddies
    /// and enqueueing both.
    fn fill_level(&mut self, bits: u32)
        requires
            old(self).wf(),
            MIN_ORDER <= bits <= MAX_ORDER,
            old(self).pools()[pool_index(bits)].len() == 0,
        ensures
            final(self).debug_free_spec() == old(self).debug_free_spec(),
            bits == MAX_ORDER ==> final(self).pools() == old(self).pools(),
            bits < MAX_ORDER ==> ({
                let ar = spec_alloc(old(self).pools(), (bits + 1) as u32);
                &&& (ar.1 == 0 ==> final(self).pools() == old(self).pools())
                &&& (ar.1 != 0 ==> final(self).pools() == ar.0.update(
                    pool_index(bits),
                    seq![
                        Node { addr: ar.1, order: bits },
                        Node { addr: (ar.1 as int + block_size(bits)) as u64, order: bits },
                    ],
                ))
            }),
        decreases MAX_ORDER - bits, 0int,
    {
        if bits == MAX_ORDER {
            // no way to get more of these unless some get freed
            return ;
        }
        proof {
            lemma_spec_alloc_ok(self.pools(), (bits + 1) as u32);
            lemma_pow2_adds(bits as nat, 1);
            lemma2_to64();
        }
        let ghost p = self.pools();
        // allocate from a higher level
        let node_addr = self.allocate(bits + 1);
        let ghost q1 = self.pools();
        if node_addr != 0 {
            let size = Self::block_bytes(bits);
            let addr_b = node_addr + size;
            let idx = (bits - MIN_ORDER) as usize;
            let node_b = Node { addr: addr_b, order: bits };
            let node_a = Node { addr: node_addr, order: bits };
            // insert the two pieces directly: freeing them would just
            // coalesce them back up
            proof {
                assert(q1[idx as int] == p[idx as int]);
                assert(q1[idx as int].len() == 0);
            }
            let pool = &mut self.pools[idx];
            pool.insert(node_b);
            proof {
                assert(insert_position(q1[idx as int], node_b.addr) == 0);
                assert(q1[idx as int].insert(0, node_b) =~= seq![node_b]);
                assert(self.pools() =~= q1.update(idx as int, seq![node_b]));
            }
            let ghost q2 = self.pools();
            let pool = &mut self.pools[idx];
            pool.insert(node_a);
            proof {
                assert(q2[idx as int] == seq![node_b]);
                assert(node_b.key_spec() > node_a.addr);
                assert(insert_position(q2[idx as int], node_a.addr) == 0);
                assert(q2[idx as int].insert(0, node_a) =~= seq![node_a, node_b]);
                assert(self.pools() =~= q2.update(idx as int, seq![node_a, node_b]));
                assert(self.pools() =~= q1.update(idx as int, seq![node_a, node_b]));
            }
        }
    }

    /// Allocate a block of the given order and return its address, or null
    /// when no memory of that size can be carved out.
    ///
    /// Requests below the minimum order are rounded up to it.
    pub fn allocate(&mut self, bits: u32) -> (r: u64)
        requires
            old(self).wf(),
            bits <= MAX_ORDER,
        ensures
            final(self).wf(),
            final(self).debug_free_spec() == old(self).debug_free_spec(),
            ({
                let b = if bits < MIN_ORDER {
                    MIN_ORDER
                } else {
                    bits
                };
                (final(self).pools(), r) == spec_alloc(old(self).pools(), b)
            }),
        decreases MAX_ORDER - (if bits < MIN_ORDER { MIN_ORDER } else { bits }), 1int,
    {
        let bits = if bits < MIN_ORDER {
            MIN_ORDER
        } else {
            bits
        };
        proof {
            lemma_spec_alloc_ok(self.pools(), bits);
            if bits < MAX_ORDER {
                lemma_spec_alloc_ok(self.pools(), (bits + 1) as u32);
            }
        }
        let ghost p = self.pools();
        let idx = (bits - MIN_ORDER) as usize;
        // see if we need to fill the layer
        if self.pools[idx].is_empty() {
            self.fill_level(bits);
        }
        let ghost q1 = self.pools();
        proof {
            assert(self.pools().len() == NUM_ORDERS);
            assert(self.pools@.len() == self.pools().len());
        }
        let pool = &mut self.pools[idx];
        let popped = pool.pop_front();
        proof {
            assert(self.pools() =~= q1.update(idx as int, self.pools@[idx as int]@));
        }
        match popped {
            None => {
                proof {
                    assert(q1[idx as int].len() == 0);
                    assert(self.pools() =~= q1);
                    if p[idx as int].len() == 0 && bits < MAX_ORDER {
                        let ar = spec_alloc(p, (bits + 1) as u32);
                        assert(ar.1 == 0) by {
                            if ar.1 != 0 {
                                assert(q1 == ar.0.update(
                                    pool_index(bits),
                                    seq![
                                        Node { addr: ar.1, order: bits },
                                        Node {
                                            addr: (ar.1 as int + block_size(bits)) as u64,
                                            order: bits,
                                        },
                                    ],
                                ));
                                assert(q1[idx as int].len() == 2);
                            }
                        }
                    }
                }
                0
            },
            Some(node) => {
                proof {
                    assert(q1[idx as int].len() > 0);
                    assert(node == q1[idx as int][0]);
                    assert(self.pools() =~= q1.update(
                        idx as int,
                        q1[idx as int].drop_first(),
                    ));
                    if p[idx as int].len() > 0 {
                        assert(q1 == p);
                        assert((self.pools(), node.addr) == spec_alloc(p, bits));
                    } else {
                        assert(bits < MAX_ORDER);
                        let ar = spec_alloc(p, (bits + 1) as u32);
                        assert(ar.1 != 0);
                        assert(q1 == ar.0.update(
                            pool_index(bits),
                            seq![
                                Node { addr: ar.1, order: bits },
                                Node {
                                    addr: (ar.1 as int + block_size(bits)) as u64,
                                    order: bits,
                                },
                            ],
                        ));
                        assert(node == Node { addr: ar.1, order: bits });
                        assert(q1[idx as int].drop_first() =~= seq![
                            Node { addr: (ar.1 as int + block_size(bits)) as u64, order: bits },
                        ]);
                        assert(self.pools() =~= ar.0.update(
                            pool_index(bits),
                            seq![
                                Node {
                                    addr: (ar.1 as int + block_size(bits)) as u64,
                                    order: bits,
                                },
                            ],
                        ));
                        assert((self.pools(), node.addr) == spec_alloc(p, bits));
                    }
                }
                node.addr
            },
        }
    }
}


/// Floor of the base-2 logarithm, as a recursive definition.
pub open spec fn flog2(v: int) -> nat
    decreases v,
{
    if v < 2 {
        0
    } else {
        (1 + flog2(v / 2)) as nat
    }
}

/// `flog2` brackets its argument between two powers of two.
pub proof fn lemma_flog2_bounds(v: int)
    requires
        v >= 1,
    ensures
        pow2(flog2(v)) <= v,
        v < pow2(flog2(v) + 1),
    decreases v,
{
    lemma2_to64();
    if v < 2 {
    } else {
        lemma_flog2_bounds(v / 2);
        let f = flog2(v / 2);
        assert(pow2(f + 1) == 2 * pow2(f)) by {
            lemma_pow2_adds(f, 1);
        }
        assert(pow2(f + 2) == 2 * pow2(f + 1)) by {
            lemma_pow2_adds(f + 1, 1);
        }
        assert(2 * (v / 2) <= v && v <= 2 * (v / 2) + 1) by (nonlinear_arith)
            requires
                v >= 2,
        ;
    }
}

/// The bracketing pins `flog2` down.
pub proof fn lemma_flog2_unique(v: int, r: u32)
    requires
        v >= 1,
        pow2(r as nat) <= v,
        v < pow2(r as nat + 1),
    ensures
        flog2(v) == r,
    decreases r,
{
    lemma2_to64();
    if r == 0 {
        assert(v == 1);
    } else {
        assert(pow2(r as nat) == 2 * pow2((r - 1) as nat)) by {
            lemma_pow2_adds((r - 1) as nat, 1);
        }
        assert(pow2(r as nat + 1) == 2 * pow2(r as nat)) by {
            lemma_pow2_adds(r as nat, 1);
        }
        assert(pow2((r - 1) as nat) >= 1) by {
            lemma_pow2_pos((r - 1) as nat);
        }
        assert(v >= 2);
        assert(pow2((r - 1) as nat) <= v / 2 && v / 2 < pow2(r as nat)) by (nonlinear_arith)
            requires
                v >= 2,
                2 * pow2((r - 1) as nat) <= v,
                v < 2 * pow2(r as nat),
                pow2((r - 1) as nat) >= 1,
        ;
        lemma_flog2_unique(v / 2, (r - 1) as u32);
    }
}

/// How many trailing zero bits a value has.
pub open spec fn tz64(v: u64) -> nat
    decreases v,
{
    if v == 0 {
        64
    } else if v % 2 == 1 {
        0
    } else {
        (1 + tz64(v / 2)) as nat
    }
}

/// A non-zero value is a multiple of two to its trailing-zero count, is at
/// least that power, and that count is below the word width.
pub proof fn lemma_tz64_props(v: u64)
    requires
        v != 0,
    ensures
        tz64(v) <= 63,
        v as int % pow2(tz64(v)) as int == 0,
        pow2(tz64(v)) <= v,
    decreases v,
{
    lemma2_to64();
    if v % 2 == 1 {
    } else {
        lemma_tz64_props(v / 2);
        let t = tz64(v / 2);
        let h = v / 2;
        assert(v == 2 * h) by (nonlinear_arith)
            requires
                v % 2 == 0,
                h == v / 2,
        ;
        assert(pow2(t + 1) == 2 * pow2(t)) by {
            lemma_pow2_adds(t, 1);
        }
        let q = h as int / pow2(t) as int;
        assert(pow2(t) > 0) by {
            lemma_pow2_pos(t);
        }
        vstd::arithmetic::div_mod::lemma_fundamental_div_mod(h as int, pow2(t) as int);
        assert(h as int == pow2(t) * q);
        assert(v as int == pow2(t + 1) * q) by (nonlinear_arith)
            requires
                v == 2 * h,
                h as int == pow2(t) * q,
                pow2(t + 1) == 2 * pow2(t),
        ;
        assert(v as int % pow2(t + 1) as int == 0) by {
            vstd::arithmetic::div_mod::lemma_mod_multiples_basic(q, pow2(t + 1) as int);
            assert(q * pow2(t + 1) == pow2(t + 1) * q) by (nonlinear_arith);
        }
        assert(pow2(t + 1) <= v) by (nonlinear_arith)
            requires
                v == 2 * h,
                pow2(t) <= h,
                pow2(t + 1) == 2 * pow2(t),
        ;
        assert(t + 1 <= 63) by {
            if t + 1 > 63 {
                assert(t + 1 >= 64);
                lemma2_to64_rest();
                if t + 1 > 64 {
                    vstd::arithmetic::power2::lemma_pow2_strictly_increases(64, t + 1);
                }
                assert(pow2(t + 1) >= pow2(64));
            }
        }
    }
}

/// A value is a multiple of every power of two up to its trailing-zero
/// count.
pub proof fn lemma_tz64_align(v: u64, k: nat)
    requires
        v != 0,
        k <= tz64(v),
    ensures
        v as int % pow2(k) as int == 0,
{
    lemma_tz64_props(v);
    let t = tz64(v);
    let q = v as int / pow2(t) as int;
    assert(pow2(t) > 0) by {
        lemma_pow2_pos(t);
    }
    assert(pow2(k) > 0) by {
        lemma_pow2_pos(k);
    }
    vstd::arithmetic::div_mod::lemma_fundamental_div_mod(v as int, pow2(t) as int);
    assert(v as int == pow2(t) * q);
    assert(pow2(t) == pow2(k) * pow2((t - k) as nat)) by {
        lemma_pow2_adds(k, (t - k) as nat);
    }
    let w = pow2((t - k) as nat) * q;
    assert(v as int == w * pow2(k)) by (nonlinear_arith)
        requires
            v as int == pow2(t) * q,
            pow2(t) == pow2(k) * pow2((t - k) as nat),
            w == pow2((t - k) as nat) * q,
    ;
    vstd::arithmetic::div_mod::lemma_mod_multiples_basic(w, pow2(k) as int);
}

/// A multiple of a power of two has at least that many trailing zeros.
pub proof fn lemma_tz64_at_least(v: u64, k: nat)
    requires
        v != 0,
        v as int % pow2(k) as int == 0,
    ensures
        tz64(v) >= k,
    decreases k,
{
    lemma2_to64();
    if k > 0 {
        assert(pow2(k) == 2 * pow2((k - 1) as nat)) by {
            lemma_pow2_adds((k - 1) as nat, 1);
        }
        assert(pow2((k - 1) as nat) > 0) by {
            lemma_pow2_pos((k - 1) as nat);
        }
        let q = v as int / pow2(k) as int;
        assert(pow2(k) > 0) by {
            lemma_pow2_pos(k);
        }
        vstd::arithmetic::div_mod::lemma_fundamental_div_mod(v as int, pow2(k) as int);
        assert(v as int == pow2(k) * q);
        let half = pow2((k - 1) as nat) * q;
        assert(q >= 0) by (nonlinear_arith)
            requires
                v as int == pow2(k) * q,
                v as int >= 0,
                pow2(k) > 0,
        ;
        assert(v as int == 2 * half && half >= 0) by (nonlinear_arith)
            requires
                v as int == pow2(k) * q,
                pow2(k) == 2 * pow2((k - 1) as nat),
                half == pow2((k - 1) as nat) * q,
                q >= 0,
                pow2((k - 1) as nat) > 0,
        ;
        assert(v % 2 == 0 && (v / 2) as int == half && v / 2 != 0) by (nonlinear_arith)
            requires
                v as int == 2 * half,
                half >= 0,
                v != 0,
        ;
        assert((v / 2) as int % pow2((k - 1) as nat) as int == 0) by {
            vstd::arithmetic::div_mod::lemma_mod_multiples_basic(q, pow2((k - 1) as nat) as int);
            assert(q * pow2((k - 1) as nat) == pow2((k - 1) as nat) * q) by (nonlinear_arith);
        }
        lemma_tz64_at_least(v / 2, (k - 1) as nat);
    }
}

/// The order of the block `add` peels off next: the largest power of two
/// that fits in the remaining length and the base's alignment, capped at
/// the top order.
pub open spec fn add_order(base: u64, len: int) -> u32 {
    let o1 = if flog2(len) <= tz64(base) {
        flog2(len)
    } else {
        tz64(base)
    };
    if o1 <= 30 {
        o1 as u32
    } else {
        30
    }
}

#[via_fn]
proof fn spec_add_loop_decreases(p: Seq<Seq<Node>>, base: int, len: int) {
    if len >= 128 {
        let o = add_order(base as u64, len);
        lemma_flog2_bounds(len);
        lemma_pow2_pos(o as nat);
        if (o as nat) < flog2(len) {
            vstd::arithmetic::power2::lemma_pow2_strictly_increases(o as nat, flog2(len));
        }
    }
}

/// The free lists after donating the raw range `[base, base + len)`:
/// blocks of the largest order that base alignment and remaining length
/// admit are peeled off and freed in turn; a remainder below the minimum
/// block size is discarded.
pub open spec fn spec_add_loop(p: Seq<Seq<Node>>, base: int, len: int) -> Seq<Seq<Node>>
    decreases len,
    via spec_add_loop_decreases
{
    if len < 128 {
        p
    } else {
        let o = add_order(base as u64, len);
        spec_add_loop(spec_free(p, base as u64, o), base + block_size(o), len - block_size(o))
    }
}

/// How many bytes the start of a donated range moves up to reach the
/// minimum block alignment.
pub open spec fn align_up_offset(base: u64) -> int {
    if base as int % 128 == 0 {
        0
    } else {
        128 - base as int % 128
    }
}

/// The free lists after donating the raw range `[base, base + len)`,
/// misalignment at the low end included.
pub open spec fn spec_add(p: Seq<Seq<Node>>, base: u64, len: u64) -> Seq<Seq<Node>> {
    let off = if align_up_offset(base) <= len {
        align_up_offset(base)
    } else {
        len as int
    };
    spec_add_loop(p, base + off, len - off)
}

impl Buddy {
    /// The number of trailing zero bits of a non-zero value.
    fn trailing_zeros(v: u64) -> (r: u32)
        requires
            v != 0,
        ensures
            r == tz64(v),
            r <= 63,
    {
        proof {
            lemma_tz64_props(v);
        }
        let mut x: u64 = v;
        let mut r: u32 = 0;
        while x % 2 == 0
            invariant
                x != 0,
                tz64(v) == r + tz64(x),
                tz64(v) <= 63,
            decreases x,
        {
            x = x / 2;
            r = r + 1;
        }
        r
    }

    /// Add new memory to the allocator.
    ///
    /// The memory has no requirements on size or alignment and will be
    /// split into multiple pieces as required; anything too small or too
    /// misaligned to describe as a block is thrown away.
    pub fn add(&mut self, base: u64, len: u64)
        requires
            old(self).wf(),
            base != 0,
            base + len <= u64::MAX as int + 1,
            forall|a: int| base <= a < base + len ==> !covered(old(self).pools(), a),
        ensures
            final(self).wf(),
            final(self).pools() == spec_add(old(self).pools(), base, len),
            final(self).debug_free_spec() == old(self).debug_free_spec(),
            forall|a: int|
                covered(final(self).pools(), a) ==> covered(old(self).pools(), a) || (base <= a
                    < base + len),
            forall|a: int| covered(old(self).pools(), a) ==> covered(final(self).pools(), a),
    {
        let ghost p0 = old(self).pools();
        let ghost b0 = base;
        let ghost l0 = len;
        let mut base = base;
        let mut len = len;
        // align the low end up to the smallest block alignment
        let rem = base % 128;
        let off_raw: u64 = if rem == 0 {
            0
        } else {
            128 - rem
        };
        let off: u64 = if off_raw <= len {
            off_raw
        } else {
            len
        };
        proof {
            assert(off as int == if align_up_offset(b0) <= l0 {
                align_up_offset(b0)
            } else {
                l0 as int
            });
            assert(spec_add(p0, b0, l0) == spec_add_loop(p0, b0 + off, l0 - off));
        }
        len = len - off;
        if len == 0 {
            proof {
                assert(spec_add_loop(p0, b0 + off, 0) == p0);
            }
            return ;
        }
        base = base + off;
        proof {
            if rem != 0 && off == off_raw {
                vstd::arithmetic::div_mod::lemma_fundamental_div_mod(b0 as int, 128);
                vstd::arithmetic::div_mod::lemma_mod_multiples_basic(b0 as int / 128 + 1, 128);
                assert((b0 as int / 128 + 1) * 128 == base) by (nonlinear_arith)
                    requires
                        b0 as int == 128 * (b0 as int / 128) + rem,
                        off as int == 128 - rem,
                        base == b0 + off,
                ;
            }
            assert(base as int % 128 == 0);
        }
        while len >= 128
            invariant
                self.wf(),
                base != 0,
                base as int % 128 == 0,
                base + len <= u64::MAX as int + 1,
                forall|a: int| base <= a < base + len ==> !covered(self.pools(), a),
                spec_add_loop(self.pools(), base as int, len as int) == spec_add(p0, b0, l0),
                self.debug_free_spec() == old(self).debug_free_spec(),
                forall|a: int|
                    covered(self.pools(), a) ==> covered(p0, a) || (b0 <= a < b0 + l0),
                forall|a: int| covered(p0, a) ==> covered(self.pools(), a),
                b0 <= base,
                base + len <= b0 + l0,
            decreases len,
        {
            let lg = log2_usize(len);
            let t = Self::trailing_zeros(base);
            let mut o: u32 = if lg <= t {
                lg
            } else {
                t
            };
            if o > 30 {
                o = 30;
            }
            proof {
                lemma_flog2_unique(len as int, lg);
                assert(o == add_order(base, len as int));
            }
            let size = Self::block_bytes(o);
            proof {
                lemma2_to64();
                // the block fits in the remaining length
                lemma_flog2_bounds(len as int);
                if (o as nat) < flog2(len as int) {
                    vstd::arithmetic::power2::lemma_pow2_strictly_increases(
                        o as nat,
                        flog2(len as int),
                    );
                }
                assert(size <= len);
                // the minimum order is reached: length and alignment both
                // carry at least seven low zero bits
                if flog2(len as int) < 7 {
                    if flog2(len as int) + 1 < 7 {
                        vstd::arithmetic::power2::lemma_pow2_strictly_increases(
                            flog2(len as int) + 1,
                            7,
                        );
                    }
                    assert(len < pow2(7));
                    assert(false);
                }
                lemma_tz64_at_least(base, 7);
                assert(o >= 7);
                // the base is aligned to the block
                lemma_tz64_align(base, o as nat);
            }
            let ghost before = self.pools();
            proof {
                lemma_spec_free_ok(before, base, o);
                assert(free_pre(before, base, o));
            }
            self.free(base, o);
            proof {
                assert(spec_add_loop(before, base as int, len as int) == spec_add_loop(
                    self.pools(),
                    base as int + size,
                    len as int - size,
                ));
                assert forall|a: int| base + size <= a < base + len implies !covered(
                    self.pools(),
                    a,
                ) by {
                    assert(covered(spec_free(before, base, o), a) <==> (covered(before, a) || (
                    base <= a < base as int + block_size(o))));
                    assert(!covered(before, a));
                }
                assert forall|a: int|
                    covered(self.pools(), a) implies covered(p0, a) || (b0 <= a < b0 + l0) by {
                    assert(covered(spec_free(before, base, o), a) <==> (covered(before, a) || (
                    base <= a < base as int + block_size(o))));
                }
                assert forall|a: int| covered(p0, a) implies covered(self.pools(), a) by {
                    assert(covered(spec_free(before, base, o), a) <==> (covered(before, a) || (
                    base <= a < base as int + block_size(o))));
                }
            }
            if len == size {
                len = 0;
                proof {
                    assert(spec_add_loop(self.pools(), base as int, 0) == self.pools());
                    assert(spec_add_loop(self.pools(), base as int + size, 0) == self.pools());
                }
            } else {
                len = len - size;
                base = base + size;
            }
        }
    }
}


/// Freeing a block of some order never touches the lists of lower orders.
pub proof fn lemma_spec_free_frame(p: Seq<Seq<Node>>, addr: u64, order: u32)
    requires
        free_pre(p, addr, order),
    ensures
        forall|i2: int|
            0 <= i2 < pool_index(order) ==> spec_free(p, addr, order)[i2] == p[i2],
    decreases MAX_ORDER - order,
{
    lemma_spec_free_step(p, addr, order);
    let i = pool_index(order);
    let b = buddy_of(addr as int, order);
    let j = find_key(p[i], b as u64);
    if order < MAX_ORDER && j >= 0 {
        let p1 = p.update(i, p[i].remove(j));
        let merged = if addr as int <= b {
            addr
        } else {
            b as u64
        };
        lemma_spec_free_frame(p1, merged, (order + 1) as u32);
        assert forall|i2: int| 0 <= i2 < pool_index(order) implies spec_free(p, addr, order)[i2]
            == p[i2] by {
            assert(spec_free(p1, merged, (order + 1) as u32)[i2] == p1[i2]);
        }
    }
}

/// Round trip: allocating a block of order `k` and freeing it again
/// returns the pool of order `k` to its pre-allocation state.
pub proof fn lemma_alloc_free_round_trip(p: Seq<Seq<Node>>, k: u32)
    requires
        pools_wf(p),
        MIN_ORDER <= k <= MAX_ORDER,
        spec_alloc(p, k).1 != 0,
    ensures
        spec_free(spec_alloc(p, k).0, spec_alloc(p, k).1, k)[pool_index(k)] == p[pool_index(k)],
    decreases MAX_ORDER - k,
{
    lemma_spec_alloc_ok(p, k);
    let i = pool_index(k);
    let (q1, r) = spec_alloc(p, k);
    let m = block_size(k);
    assert(m > 0) by {
        lemma_pow2_pos(k as nat);
    }
    assert(block_size((k + 1) as u32) == 2 * m) by {
        lemma_pow2_adds(k as nat, 1);
        lemma2_to64();
    }
    if p[i].len() > 0 {
        // the popped block goes straight back to the front: its buddy
        // cannot be free below the top order, and every remaining entry
        // has a higher address
        let head = p[i][0];
        assert(entry_wf(head, i));
        assert(head == Node { addr: r, order: k });
        assert(q1[i] =~= p[i].drop_first());
        let freed = Node { addr: r, order: k };
        if k < MAX_ORDER {
            let b = buddy_of(r as int, k);
            assert forall|j2: int| 0 <= j2 < q1[i].len() implies (#[trigger] q1[i][j2]).key_spec()
                != b as u64 by {
                assert(q1[i][j2] == p[i][j2 + 1]);
                assert(p[i][j2 + 1].addr != buddy_of(p[i][0].addr as int, (MIN_ORDER + i) as u32));
                lemma_buddy_fits(r as int, k);
            }
            lemma_find_key_none(q1[i], b as u64);
        }
        assert forall|j2: int| 0 <= j2 < q1[i].len() implies (#[trigger] q1[i][j2]).key_spec()
            > r by {
            assert(q1[i][j2] == p[i][j2 + 1]);
        }
        lemma_insert_position_bounds(q1[i], r);
        assert(insert_position(q1[i], r) == 0) by {
            if q1[i].len() > 0 {
                assert(q1[i][0].key_spec() > r);
            }
        }
        assert(spec_free(q1, r, k) == q1.update(i, q1[i].insert(0, freed)));
        assert(q1[i].insert(0, freed) =~= p[i]) by {
            assert(q1[i].insert(0, freed) =~= seq![freed] + q1[i]);
            assert(seq![freed] + p[i].drop_first() =~= p[i]);
        }
        assert(spec_free(q1, r, k)[i] == p[i]);
    } else {
        // the lower half of a split goes back, merges with the upper half
        // it was split from, and the merged block is freed one order up,
        // which never touches this pool again
        assert(k < MAX_ORDER);
        let ar = spec_alloc(p, (k + 1) as u32);
        lemma_spec_alloc_ok(p, (k + 1) as u32);
        assert(ar.1 == r && r != 0);
        let upper = Node { addr: (r as int + m) as u64, order: k };
        assert(q1 == ar.0.update(i, seq![upper]));
        assert(r as int % (2 * m) == 0);
        let b = buddy_of(r as int, k);
        assert(b == r as int + m);
        assert(upper.key_spec() == b as u64);
        lemma_find_key_at(q1[i], b as u64, 0);
        assert(find_key(q1[i], b as u64) == 0);
        let p1 = q1.update(i, q1[i].remove(0));
        assert(q1[i].remove(0) =~= Seq::<Node>::empty());
        assert(ar.0[i] == p[i]);
        assert(ar.0[i] =~= Seq::<Node>::empty());
        assert(p1 =~= ar.0);
        let merged = if r as int <= b {
            r
        } else {
            b as u64
        };
        assert(merged == r);
        assert(spec_free(q1, r, k) == spec_free(p1, r, (k + 1) as u32));
        // the merged free happens one order up and leaves pool k alone
        assert(free_pre(ar.0, r, (k + 1) as u32)) by {
            assert(pools_wf(ar.0));
            lemma_double_align(r as int, m);
            assert forall|a: int| r <= a < r as int + 2 * m implies !covered(ar.0, a) by {
                assert(covered(ar.0, a) <==> (covered(p, a) && !(r <= a < r as int + 2 * m)));
            }
        }
        lemma_spec_free_frame(ar.0, r, (k + 1) as u32);
        assert(spec_free(p1, r, (k + 1) as u32) == spec_free(ar.0, r, (k + 1) as u32));
        assert(spec_free(ar.0, r, (k + 1) as u32)[i] == ar.0[i]);
        assert(spec_free(q1, r, k)[i] == p[i]);
    }
}

/// Coalescing: starting from empty free lists, freeing a block of order
/// `k` and then its buddy leaves exactly one block, of order `k + 1`, at
/// the lower of the two addresses, and nothing else.
pub proof fn lemma_coalesce_buddies(p: Seq<Seq<Node>>, addr: u64, k: u32)
    requires
        pools_wf(p),
        forall|i: int| 0 <= i < p.len() ==> p[i].len() == 0,
        MIN_ORDER <= k < MAX_ORDER,
        addr != 0,
        buddy_of(addr as int, k) != 0,
        addr as int % block_size(k) == 0,
        addr + block_size(k) <= u64::MAX as int + 1,
    ensures
        ({
            let b = buddy_of(addr as int, k);
            let merged: u64 = if addr as int <= b {
                addr
            } else {
                b as u64
            };
            let q = spec_free(spec_free(p, addr, k), b as u64, k);
            &&& q[pool_index((k + 1) as u32)] == seq![
                Node { addr: merged, order: (k + 1) as u32 },
            ]
            &&& forall|i: int|
                0 <= i < q.len() && i != pool_index((k + 1) as u32) ==> q[i].len() == 0
            &&& q.len() == NUM_ORDERS
        }),
{
    let i = pool_index(k);
    let m = block_size(k);
    assert(m > 0) by {
        lemma_pow2_pos(k as nat);
    }
    assert(block_size((k + 1) as u32) == 2 * m) by {
        lemma_pow2_adds(k as nat, 1);
        lemma2_to64();
    }
    assert(free_pre(p, addr, k)) by {
        assert forall|a: int| addr <= a < addr + block_size(k) implies !covered(p, a) by {
        }
    }
    lemma_buddy_facts(addr as int, k);
    lemma_buddy_fits(addr as int, k);
    lemma_spec_free_step(p, addr, k);
    let b = buddy_of(addr as int, k);
    let bn = Node { addr, order: k };
    lemma_find_key_props(p[i], b as u64);
    assert(find_key(p[i], b as u64) < 0);
    let q1 = spec_free(p, addr, k);
    lemma_spec_free_ok(p, addr, k);
    assert(q1 == inserted(p, i, bn));
    lemma_insert_position_bounds(p[i], addr);
    assert(insert_position(p[i], addr) == 0);
    assert(q1[i] =~= seq![bn]) by {
        assert(p[i].insert(0, bn) =~= seq![bn] + p[i]);
        assert(seq![bn] + p[i] =~= seq![bn]);
    }
    assert forall|i2: int| 0 <= i2 < q1.len() && i2 != i implies q1[i2].len() == 0 by {
        assert(q1[i2] == p[i2]);
    }
    // now free the buddy: the first block is found and removed, and the
    // merged block is inserted one order up
    assert(free_pre(q1, b as u64, k)) by {
        assert(b as u64 != 0);
        assert forall|a: int| b <= a < b + block_size(k) implies !covered(q1, a) by {
            assert(covered(q1, a) <==> (covered(p, a) || (addr <= a < addr as int + block_size(
                k,
            ))));
            assert(!(addr <= a < addr as int + block_size(k)));
        }
    }
    lemma_spec_free_step(q1, b as u64, k);
    assert(buddy_of(b, k) == addr as int);
    lemma_find_key_at(q1[i], addr, 0);
    assert(find_key(q1[i], addr) == 0);
    let p2 = q1.update(i, q1[i].remove(0));
    assert(q1[i].remove(0) =~= Seq::<Node>::empty());
    let merged: u64 = if addr as int <= b {
        addr
    } else {
        b as u64
    };
    assert(spec_free(q1, b as u64, k) == spec_free(p2, merged, (k + 1) as u32));
    // one order up nothing is present, so the merged block is inserted
    lemma_spec_free_step(p2, merged, (k + 1) as u32);
    let i1 = pool_index((k + 1) as u32);
    assert(p2[i1] == p[i1]);
    let mn = Node { addr: merged, order: (k + 1) as u32 };
    if k + 1 < MAX_ORDER {
        lemma_find_key_props(p2[i1], buddy_of(merged as int, (k + 1) as u32) as u64);
    }
    let q = spec_free(p2, merged, (k + 1) as u32);
    assert(q == inserted(p2, i1, mn));
    lemma_insert_position_bounds(p2[i1], merged);
    assert(insert_position(p2[i1], merged) == 0);
    assert(q[i1] =~= seq![mn]) by {
        assert(p2[i1].insert(0, mn) =~= seq![mn] + p2[i1]);
        assert(seq![mn] + p2[i1] =~= seq![mn]);
    }
    assert forall|i2: int| 0 <= i2 < q.len() && i2 != i1 implies q[i2].len() == 0 by {
        assert(q[i2] == p2[i2]);
        if i2 == i {
            assert(p2[i2].len() == 0);
        } else {
            assert(p2[i2] == q1[i2]);
        }
    }
    assert(q[i1] == seq![mn]);
}

/// Two live allocations never overlap: a block carved out while another
/// is outstanding lies entirely outside it.
pub proof fn lemma_alloc_disjoint(p: Seq<Seq<Node>>, o1: u32, o2: u32)
    requires
        pools_wf(p),
        MIN_ORDER <= o1 <= MAX_ORDER,
        MIN_ORDER <= o2 <= MAX_ORDER,
        spec_alloc(p, o1).1 != 0,
        spec_alloc(spec_alloc(p, o1).0, o2).1 != 0,
    ensures
        ({
            let r1 = spec_alloc(p, o1).1;
            let r2 = spec_alloc(spec_alloc(p, o1).0, o2).1;
            r1 as int + block_size(o1) <= r2 as int || r2 as int + block_size(o2) <= r1 as int
        }),
{
    lemma_spec_alloc_ok(p, o1);
    let q1 = spec_alloc(p, o1).0;
    let r1 = spec_alloc(p, o1).1;
    lemma_spec_alloc_ok(q1, o2);
    let r2 = spec_alloc(q1, o2).1;
    assert(block_size(o1) > 0) by {
        lemma_pow2_pos(o1 as nat);
    }
    assert(block_size(o2) > 0) by {
        lemma_pow2_pos(o2 as nat);
    }
    if !(r1 as int + block_size(o1) <= r2 as int || r2 as int + block_size(o2) <= r1 as int) {
        let lo = if r1 as int >= r2 as int {
            r1 as int
        } else {
            r2 as int
        };
        assert(r2 <= lo < r2 as int + block_size(o2));
        assert(covered(q1, lo));
        assert(r1 <= lo < r1 as int + block_size(o1));
        assert(false);
    }
}

} // verus!
