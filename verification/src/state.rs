//! Global kernel state.

use crate::cpu::Features;
use crate::vspace::kernel::KernelVSpace;
use vstd::prelude::*;

verus! {

/// Holder of mutable kernel state: the final kernel address space and the
/// CPU features the probe found, once each exists.
pub struct State {
    pub kernel_as: Option<KernelVSpace>,
    pub cpu_features: Option<Features>,
}

impl State {
    /// The state before anything has been brought up.
    pub fn new() -> (r: State)
        ensures
            r.kernel_as is None,
            r.cpu_features is None,
    {
        State { kernel_as: None, cpu_features: None }
    }
}

} // verus!
