//! Collections for the early kernel.
//!
//! The free memory the allocator tracks carries its own bookkeeping: a block
//! is described by a small record that, in the running kernel, lives in the
//! first bytes of the block itself. Here the records are held by value; what
//! the structure promises about ordering and contents is unchanged.

pub mod linkedlist;

use vstd::prelude::*;

pub use linkedlist::LinkedList;

verus! {

/// An item that carries a sort key, used to order and find list entries.
pub trait Keyed {
    /// The key, for contracts.
    spec fn key_spec(&self) -> u64;

    /// The key an entry is ordered and searched by.
    fn key(&self) -> (r: u64)
        ensures
            r == self.key_spec(),
    ;
}

} // verus!
