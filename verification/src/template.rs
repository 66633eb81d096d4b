//! The common shape of a circom-style template instance.

use vstd::prelude::*;
use crate::cs::{ConstraintSystem, SynthesisError};
use crate::scope::Scope;

verus! {

/// A `CircomTemplate` is a gadget instance: configuration plus input and
/// output wire vectors.  Once its inputs are bound, one generation pass
/// emits the gadget's constraints and computes the witness of its output
/// wires.
pub trait CircomTemplate {
    type Target;

    /// The instance may be generated against `cs`: its configuration is
    /// sound and its input wires live in `cs`.
    spec fn ready(&self, cs: &ConstraintSystem) -> bool;

    /// Runs the template's logic once: allocates and constrains the
    /// output signals, and binds their witness values.  Whatever the
    /// outcome, the system only grows and the witness built so far keeps
    /// satisfying every emitted constraint.
    fn generate_output_signal(&mut self, cs: &mut ConstraintSystem, scope: &Scope) -> (r: Result<
        Self::Target,
        SynthesisError,
    >)
        requires
            old(self).ready(&*old(cs)),
            old(cs).wf(),
        ensures
            final(cs).wf(),
            final(cs).extends(*old(cs)),
            (final(cs).satisfied() <==> old(cs).satisfied()),
    ;
}

} // verus!
