//! The operator contract: what every dataflow vertex owes the scheduler
//! and the global progress tracker.
//!
//! A vertex declares its shape, summarizes how timestamps advance along its
//! internal paths (for cycle-termination analysis), seeds the tracker with
//! any frontier occupancy it holds before scheduling begins, and, once per
//! scheduling step, drains its internal ledgers — all or nothing, and
//! idempotent-empty when nothing changed.

use vstd::prelude::*;
use crate::timestamp::{Product, Summary};
use crate::change_batch::{ChangeBatch, net_of};
use crate::antichain::Antichain;

verus! {

/// The contract every vertex implements so a scheduler and a progress
/// tracker can account for consumed, held and produced time across the
/// whole graph.
pub trait Operate {
    /// The operator's internal invariant.
    spec fn op_wf(&self) -> bool;

    /// For each input port, for each output port, the antichain of
    /// summaries of internal paths between them.
    spec fn summary_paths(&self) -> Seq<Seq<Seq<Summary>>>;

    /// Number of output ports.
    spec fn num_outputs(&self) -> int;

    /// Frontier occupancy this operator holds before any scheduling,
    /// replica multiplicity included.
    spec fn initial_capability(&self, t: Product) -> int;

    /// Deltas pending for "messages consumed" since the last drain.
    spec fn pending_consumed(&self) -> Seq<(Product, i64)>;

    /// Deltas pending for "internally held timestamps" since the last drain.
    spec fn pending_internal(&self) -> Seq<(Product, i64)>;

    /// Deltas pending for "messages produced" since the last drain.
    spec fn pending_produced(&self) -> Seq<(Product, i64)>;

    /// The operator's name, as a character sequence.
    spec fn name_spec(&self) -> Seq<char>;

    /// Whether, after a drain, the scheduler must keep invoking the
    /// operator for internal future work.
    spec fn still_active(&self) -> bool;

    /// Whether the operator asks for frontier-change notifications.
    spec fn notify_spec(&self) -> bool;

    /// The operator's name, for diagnostics.
    fn name(&self) -> (r: &'static str)
        ensures
            r@ == self.name_spec(),
    ;

    /// Number of input ports.
    fn inputs(&self) -> (n: usize)
        ensures
            n as int == self.summary_paths().len(),
    ;

    /// Number of output ports.
    fn outputs(&self) -> (n: usize)
        ensures
            n as int == self.num_outputs(),
    ;

    /// Declares every way a timestamp entering an input port can reach an
    /// output port, and seeds the tracker with the operator's initial
    /// frontier occupancy.  Safe to invoke any number of times.
    fn get_internal_summary(&self) -> (r: (Vec<Vec<Antichain>>, Vec<ChangeBatch>))
        requires
            self.op_wf(),
        ensures
            r.0@.len() == self.summary_paths().len(),
            forall|i: int|
                0 <= i < r.0@.len() ==> (#[trigger] r.0@[i])@.len() == self.summary_paths()[i].len(),
            forall|i: int, j: int|
                0 <= i < r.0@.len() && 0 <= j < r.0@[i]@.len() ==> (#[trigger] r.0@[i]@[j])@
                    == self.summary_paths()[i][j],
            r.1@.len() == self.num_outputs(),
            self.num_outputs() == 1 ==> forall|x: Product|
                #![trigger net_of(r.1@[0]@, x)]
                #![trigger self.initial_capability(x)]
                net_of(r.1@[0]@, x) == self.initial_capability(x),
    ;

    /// Drains this operator's pending ledgers into the caller's, exactly
    /// once and all-or-nothing, and says whether the scheduler must keep
    /// invoking the operator.
    fn pull_internal_progress(
        &mut self,
        consumed: &mut ChangeBatch,
        internal: &mut ChangeBatch,
        produced: &mut ChangeBatch,
    ) -> (active: bool)
        requires
            old(self).op_wf(),
        ensures
            final(self).op_wf(),
            final(consumed)@ == old(consumed)@ + old(self).pending_consumed(),
            final(internal)@ == old(internal)@ + old(self).pending_internal(),
            final(produced)@ == old(produced)@ + old(self).pending_produced(),
            final(self).pending_consumed() == Seq::<(Product, i64)>::empty(),
            final(self).pending_internal() == Seq::<(Product, i64)>::empty(),
            final(self).pending_produced() == Seq::<(Product, i64)>::empty(),
            active == old(self).still_active(),
    ;

    /// Whether the scheduler should deliver frontier-change notifications
    /// to this operator.
    fn notify_me(&self) -> (r: bool)
        ensures
            r == self.notify_spec(),
    ;
}

} // verus!
