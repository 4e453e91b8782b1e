//! A list that keeps its entries in a caller-visible order.
//!
//! Compared to a plain queue this supports removal from and insertion into
//! the middle of the list, which the buddy allocator leans on to keep each
//! free list sorted by address.

use crate::ip_collections::Keyed;
use vstd::prelude::*;

verus! {

/// A list of entries, ordered by their position.
pub struct LinkedList<T> {
    items: Vec<T>,
}

impl<T> View for LinkedList<T> {
    type V = Seq<T>;

    closed spec fn view(&self) -> Seq<T> {
        self.items@
    }
}

/// The position where an entry with key `k` is inserted: before the first
/// entry with a strictly greater key, after every other.
pub open spec fn insert_position<T: Keyed>(s: Seq<T>, k: u64) -> int
    decreases s.len(),
{
    if s.len() == 0 {
        0
    } else if s[0].key_spec() > k {
        0
    } else {
        1 + insert_position(s.drop_first(), k)
    }
}

/// The position of the first entry with key `k`, or -1 if there is none.
pub open spec fn find_key<T: Keyed>(s: Seq<T>, k: u64) -> int
    decreases s.len(),
{
    if s.len() == 0 {
        -1
    } else if s[0].key_spec() == k {
        0
    } else {
        let r = find_key(s.drop_first(), k);
        if r < 0 {
            -1
        } else {
            1 + r
        }
    }
}

/// Scanning characterization of `insert_position`.
pub proof fn lemma_insert_position_at<T: Keyed>(s: Seq<T>, k: u64, i: int)
    requires
        0 <= i <= s.len(),
        forall|j: int| 0 <= j < i ==> s[j].key_spec() <= k,
        i < s.len() ==> s[i].key_spec() > k,
    ensures
        insert_position(s, k) == i,
    decreases i,
{
    if i == 0 {
    } else {
        assert(s[0].key_spec() <= k);
        let s2 = s.drop_first();
        assert(forall|j: int| 0 <= j < i - 1 ==> s2[j] == s[j + 1] && s2[j].key_spec() <= k);
        lemma_insert_position_at(s2, k, i - 1);
    }
}

/// Scanning characterization of `find_key`: a hit at the first match.
pub proof fn lemma_find_key_at<T: Keyed>(s: Seq<T>, k: u64, i: int)
    requires
        0 <= i < s.len(),
        forall|j: int| 0 <= j < i ==> s[j].key_spec() != k,
        s[i].key_spec() == k,
    ensures
        find_key(s, k) == i,
    decreases i,
{
    if i == 0 {
    } else {
        let s2 = s.drop_first();
        assert(forall|j: int| 0 <= j < i - 1 ==> s2[j] == s[j + 1] && s2[j].key_spec() != k);
        lemma_find_key_at(s2, k, i - 1);
    }
}

/// Scanning characterization of `find_key`: no match at all.
pub proof fn lemma_find_key_none<T: Keyed>(s: Seq<T>, k: u64)
    requires
        forall|j: int| 0 <= j < s.len() ==> s[j].key_spec() != k,
    ensures
        find_key(s, k) == -1,
    decreases s.len(),
{
    if s.len() > 0 {
        let s2 = s.drop_first();
        assert(forall|j: int| 0 <= j < s2.len() ==> s2[j] == s[j + 1] && s2[j].key_spec() != k);
        lemma_find_key_none(s2, k);
    }
}

/// What a `find_key` result means: a non-negative result is the position
/// of an entry with the key, a negative one says no entry has it.
pub proof fn lemma_find_key_props<T: Keyed>(s: Seq<T>, k: u64)
    ensures
        find_key(s, k) >= 0 ==> 0 <= find_key(s, k) < s.len() && s[find_key(s, k)].key_spec()
            == k,
        find_key(s, k) < 0 ==> forall|j: int|
            0 <= j < s.len() ==> (#[trigger] s[j]).key_spec() != k,
    decreases s.len(),
{
    if s.len() > 0 && s[0].key_spec() != k {
        lemma_find_key_props(s.drop_first(), k);
        let s2 = s.drop_first();
        if find_key(s2, k) >= 0 {
            assert(s[1 + find_key(s2, k)] == s2[find_key(s2, k)]);
        } else {
            assert forall|j: int| 0 <= j < s.len() implies (#[trigger] s[j]).key_spec() != k by {
                if j > 0 {
                    assert(s2[j - 1] == s[j]);
                }
            }
        }
    }
}

/// Bounds of `insert_position`.
pub proof fn lemma_insert_position_bounds<T: Keyed>(s: Seq<T>, k: u64)
    ensures
        0 <= insert_position(s, k) <= s.len(),
    decreases s.len(),
{
    if s.len() > 0 && s[0].key_spec() <= k {
        lemma_insert_position_bounds(s.drop_first(), k);
    }
}

impl<T> LinkedList<T> {
    /// Creates an empty list.
    pub fn new() -> (r: LinkedList<T>)
        ensures
            r@ =~= Seq::<T>::empty(),
    {
        LinkedList { items: Vec::new() }
    }

    /// Minimum size of memory that can hold one entry of the list.
    pub fn size_of_node(&self) -> (r: usize)
        ensures
            r as nat == vstd::layout::size_of::<T>(),
    {
        core::mem::size_of::<T>()
    }

    /// Minimum alignment of memory that can hold one entry of the list.
    pub fn align_of_node(&self) -> (r: usize)
        ensures
            r as nat == vstd::layout::align_of::<T>(),
    {
        core::mem::align_of::<T>()
    }

    /// Returns whether the list is empty or not.
    pub fn is_empty(&self) -> (r: bool)
        ensures
            r == (self@.len() == 0),
    {
        self.items.is_empty()
    }

    /// Push an item to the front of the list.
    pub fn push_front(&mut self, item: T)
        ensures
            final(self)@ =~= seq![item] + old(self)@,
    {
        self.items.insert(0, item);
    }

    /// Push an item to the back of the list.
    pub fn push_back(&mut self, item: T)
        ensures
            final(self)@ =~= old(self)@.push(item),
    {
        self.items.push(item);
    }

    /// Remove the front item of the list and return it, or `None` when the
    /// list is empty.
    pub fn pop_front(&mut self) -> (r: Option<T>)
        ensures
            old(self)@.len() == 0 ==> r is None && final(self)@ == old(self)@,
            old(self)@.len() > 0 ==> (r matches Some(x) && x == old(self)@[0] && final(self)@
                == old(self)@.drop_first()),
    {
        if self.items.is_empty() {
            None
        } else {
            let x = self.items.remove(0);
            proof {
                assert(old(self)@.remove(0) =~= old(self)@.drop_first());
            }
            Some(x)
        }
    }
}

impl<T: Keyed> LinkedList<T> {
    /// Search for an entry with the given key and remove the first one
    /// found, walking from the front.
    pub fn remove(&mut self, key: u64) -> (r: Option<T>)
        ensures
            find_key(old(self)@, key) < 0 ==> r is None && final(self)@ == old(self)@,
            find_key(old(self)@, key) >= 0 ==> {
                let i = find_key(old(self)@, key);
                &&& r matches Some(x) && x == old(self)@[i] && x.key_spec() == key
                &&& final(self)@ == old(self)@.remove(i)
            },
    {
        let mut i: usize = 0;
        let n = self.items.len();
        while i < n
            invariant
                i <= n,
                n == self@.len(),
                *self == *old(self),
                forall|j: int| 0 <= j < i ==> self@[j].key_spec() != key,
            decreases n - i,
        {
            if self.items[i].key() == key {
                proof {
                    lemma_find_key_at(self@, key, i as int);
                }
                let x = self.items.remove(i);
                return Some(x);
            }
            i = i + 1;
        }
        proof {
            lemma_find_key_none(self@, key);
        }
        None
    }

    /// Insert a new item into a sorted list.
    ///
    /// The item is placed before the first entry, walking from the front,
    /// whose key compares as greater. Using `insert` only makes sense if
    /// `insert` put every entry into the list or the list is otherwise
    /// known to be sorted.
    pub fn insert(&mut self, item: T)
        ensures
            final(self)@ == old(self)@.insert(insert_position(old(self)@, item.key_spec()), item),
    {
        let k = item.key();
        let mut i: usize = 0;
        let n = self.items.len();
        while i < n
            invariant
                i <= n,
                n == self@.len(),
                *self == *old(self),
                k == item.key_spec(),
                forall|j: int| 0 <= j < i ==> self@[j].key_spec() <= k,
            decreases n - i,
        {
            if self.items[i].key() > k {
                proof {
                    lemma_insert_position_at(self@, k, i as int);
                }
                self.items.insert(i, item);
                return ;
            }
            i = i + 1;
        }
        proof {
            lemma_insert_position_at(self@, k, n as int);
        }
        self.items.insert(n, item);
    }
}

} // verus!
