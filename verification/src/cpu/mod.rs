//! CPU concerns: memory types, feature probing and the page attribute
//! table.

pub mod features;
pub mod pat;

use vstd::prelude::*;

pub use features::Features;

verus! {

/// x86 memory types.
#[derive(Debug, Clone, Copy, PartialEq, Eq, Structural)]
pub enum MemoryType {
    /// Uncacheable, not overridable by the MTRRs.
    StrongUC,
    /// Uncacheable, but overridable by the MTRRs.
    UC,
    /// Write combining.
    WC,
    /// Write through.
    WT,
    /// Write protect.
    WP,
    /// Write back.
    WB,
}

impl MemoryType {
    /// All the possible memory types.
    pub fn all() -> (r: Vec<MemoryType>)
        ensures
            r@ =~= seq![
                MemoryType::StrongUC,
                MemoryType::UC,
                MemoryType::WC,
                MemoryType::WT,
                MemoryType::WP,
                MemoryType::WB,
            ],
    {
        let mut r: Vec<MemoryType> = Vec::new();
        r.push(MemoryType::StrongUC);
        r.push(MemoryType::UC);
        r.push(MemoryType::WC);
        r.push(MemoryType::WT);
        r.push(MemoryType::WP);
        r.push(MemoryType::WB);
        r
    }
}

} // verus!
