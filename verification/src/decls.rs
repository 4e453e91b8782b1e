//! In place declarations.
//!
//! The kernel's modules declare handlers (command-line options, self tests)
//! at their implementation site; the build gathers the declarations into one
//! table that is walked at runtime. Here the table is an ordinary vector of
//! records; the binary that embeds the library fills it from wherever its
//! build placed the declarations.

use vstd::prelude::*;

verus! {

/// Marker stored in front of every gathered declaration record.
pub const DECL_NONCE: u64 = 0x4ea4789985e1ad56;

/// Declares a handler to run for a command-line switch.
///
/// Command-line options are processed very early, before there is even
/// memory allocation available, so handlers should do minimal work.
pub struct CMDLine {
    pub option: String,
}

/// Declares a self test.
pub struct SelfTest {}

/// The kinds of declaration a module can make.
pub enum Type {
    CMDLine(CMDLine),
    SelfTest(SelfTest),
}

/// One gathered declaration record.
pub struct RawDecl {
    pub nonce: u64,
    pub decl: Type,
}

/// Build a well-formed command-line declaration record.
pub fn cmdline_decl(option: String) -> (r: RawDecl)
    ensures
        r.nonce == DECL_NONCE,
        r.decl matches Type::CMDLine(c) && c.option == option,
{
    RawDecl { nonce: DECL_NONCE, decl: Type::CMDLine(CMDLine { option }) }
}

/// Iterator over a table of declarations.
pub struct DeclIter<'t> {
    pub items: &'t Vec<RawDecl>,
    pub pos: usize,
}

impl<'t> DeclIter<'t> {
    /// The next declaration of the table, in table order.
    pub fn next(&mut self) -> (r: Option<&'t Type>)
        ensures
            old(self).pos < old(self).items@.len() ==> {
                &&& r matches Some(d) && *d == old(self).items@[old(self).pos as int].decl
                &&& final(self).pos == old(self).pos + 1
            },
            old(self).pos >= old(self).items@.len() ==> r is None && final(self).pos == old(
                self,
            ).pos,
            final(self).items == old(self).items,
    {
        if self.pos < self.items.len() {
            let r = &self.items[self.pos].decl;
            self.pos = self.pos + 1;
            Some(r)
        } else {
            None
        }
    }
}

/// Walk a declaration table from its start.
pub fn iter<'t>(items: &'t Vec<RawDecl>) -> (r: DeclIter<'t>)
    ensures
        r.items == items,
        r.pos == 0,
{
    DeclIter { items, pos: 0 }
}

} // verus!
