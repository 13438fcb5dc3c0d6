//! Static antichains of path summaries.
//!
//! An antichain of summaries describes every way a timestamp can advance
//! from one port to another along internal paths of an operator; the global
//! tracker uses these for cycle-termination analysis.

use vstd::prelude::*;
use crate::timestamp::Summary;

verus! {

/// A set of pairwise-incomparable path summaries.
pub struct Antichain {
    elements: Vec<Summary>,
}

impl View for Antichain {
    type V = Seq<Summary>;

    closed spec fn view(&self) -> Seq<Summary> {
        self.elements@
    }
}

impl Antichain {
    /// The elements are pairwise incomparable and listed once each.
    pub open spec fn wf(self) -> bool {
        &&& self@.no_duplicates()
        &&& forall|i: int, j: int|
            0 <= i < self@.len() && 0 <= j < self@.len() && i != j ==> !(#[trigger] self@[i]).le_spec(
                #[trigger] self@[j],
            )
    }

    /// An empty antichain: no internal path exists.
    pub fn new() -> (r: Antichain)
        ensures
            r@ == Seq::<Summary>::empty(),
            r.wf(),
    {
        Antichain { elements: Vec::new() }
    }

    /// The antichain holding exactly one summary.
    pub fn from_elem(s: Summary) -> (r: Antichain)
        ensures
            r@ =~= seq![s],
            r.wf(),
    {
        let mut elements: Vec<Summary> = Vec::new();
        elements.push(s);
        Antichain { elements }
    }

    /// The summaries, each exactly once.
    pub fn elements(&self) -> (r: &Vec<Summary>)
        ensures
            r@ == self@,
    {
        &self.elements
    }
}

} // verus!
