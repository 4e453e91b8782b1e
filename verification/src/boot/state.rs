//! Definitions for state that is valid for boot.

use crate::boot::vspace::Init;
use crate::vspace::VSpace;
use vstd::prelude::*;

verus! {

/// State carried through the boot sequence: above all, which address space
/// currently translates kernel virtual addresses.
pub trait BootState {
    type AddressSpace: VSpace;

    /// The address space this state currently translates through.
    spec fn kernel_as_spec(&self) -> Self::AddressSpace;

    /// Borrow the current kernel address space.
    fn get_kernel_as(&self) -> (r: &Self::AddressSpace)
        ensures
            *r == self.kernel_as_spec(),
    ;
}

/// The boot-time state: translation still goes through the initial window.
pub struct State {
    pub boot_as: Init,
}

impl BootState for State {
    type AddressSpace = Init;

    open spec fn kernel_as_spec(&self) -> Init {
        self.boot_as
    }

    fn get_kernel_as(&self) -> (r: &Init) {
        &self.boot_as
    }
}

} // verus!
