//! Hierarchical naming scopes.
//!
//! Every gadget labels the constraints it emits with a scope: a path of
//! numeric tags.  A parent derives a fresh child scope for each sub-gadget
//! instead of mutating its own, so sibling sub-circuits can never share a
//! label path by construction.

use vstd::prelude::*;

verus! {

/// A path of tags naming one position in the tree of nested sub-circuits.
pub struct Scope {
    pub path: Vec<u64>,
}

impl Scope {
    /// The scope of the outermost circuit: the empty path.
    pub fn root() -> (s: Scope)
        ensures
            s.path@ == Seq::<u64>::empty(),
    {
        Scope { path: Vec::new() }
    }

    /// A derived scope one level deeper, leaving `self` untouched.
    pub fn child(&self, tag: u64) -> (s: Scope)
        ensures
            s.path@ == self.path@.push(tag),
    {
        let mut p = self.path.clone();
        p.push(tag);
        Scope { path: p }
    }
}

} // verus!
