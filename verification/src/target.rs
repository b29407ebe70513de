//! Selection of the trace a mutation operates on.
use vstd::prelude::*;

use crate::trace::{replaces_trace, trace_at, valid_target, ColumnTrace, Witness};

verus! {

/// Selects which trace a mutation operates on.
#[derive(Clone, Copy, Debug, PartialEq, Eq, Structural, Hash)]
pub enum Target {
    Main,
    Chiplet(usize),
}

impl Target {
    /// Borrows the trace this target selects, for writing. Whatever is
    /// written through the result lands in that trace and nowhere else
    /// (see `lemma_replaces_trace_view`).
    pub fn resolve_mut<'w>(&self, witness: &'w mut Witness) -> (res: &'w mut ColumnTrace)
        requires
            valid_target(old(witness)@, *self),
        ensures
            res@ == trace_at(old(witness)@, *self),
            replaces_trace(*old(witness), *final(witness), *self, *final(res)),
    {
        match self {
            Target::Main => &mut witness.trace,
            Target::Chiplet(idx) => &mut witness.chiplet_traces[*idx],
        }
    }

    /// Borrows the trace this target selects.
    pub fn resolve<'w>(&self, witness: &'w Witness) -> (res: &'w ColumnTrace)
        requires
            valid_target(witness@, *self),
        ensures
            res@ == trace_at(witness@, *self),
    {
        match self {
            Target::Main => &witness.trace,
            Target::Chiplet(idx) => &witness.chiplet_traces[*idx],
        }
    }
}

} // verus!
