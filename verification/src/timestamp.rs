//! Logical timestamps and path summaries.
//!
//! A timestamp is a product of an outer and an inner coordinate, partially
//! ordered coordinatewise; the outermost scope sits at outer coordinate zero.
//! A summary describes how a timestamp advances when data crosses one graph
//! edge: each coordinate is advanced by a fixed amount, and the advance is
//! undefined (the path is dead) when it would leave the representable range.

use vstd::prelude::*;

verus! {

/// A logical time: an outer scope coordinate paired with an inner one,
/// ordered coordinatewise.
#[derive(Clone, Copy, PartialEq, Eq, Structural, Debug, Hash)]
pub struct Product {
    /// Time of the enclosing (outermost) scope.
    pub outer: u64,
    /// Time within the local scope.
    pub inner: u64,
}

impl Product {
    /// The partial order on timestamps: both coordinates must advance.
    pub open spec fn le_spec(self, other: Product) -> bool {
        self.outer <= other.outer && self.inner <= other.inner
    }

    /// `self` precedes or equals `other` in the partial order.
    pub fn less_equal(&self, other: &Product) -> (r: bool)
        ensures
            r == self.le_spec(*other),
    {
        self.outer <= other.outer && self.inner <= other.inner
    }

    /// The distinguished minimum timestamp.
    pub open spec fn minimum_spec() -> Product {
        Product { outer: 0, inner: 0 }
    }

    /// Returns the distinguished minimum, below every timestamp.
    pub fn minimum() -> (r: Product)
        ensures
            r == Product::minimum_spec(),
            forall|t: Product| r.le_spec(t),
    {
        Product { outer: 0, inner: 0 }
    }

    /// Embeds an inner time at the root of the outermost scope.
    pub fn new(inner: u64) -> (r: Product)
        ensures
            r == (Product { outer: 0, inner }),
    {
        Product { outer: 0, inner }
    }
}

/// A monotone transformation of timestamps along one graph edge: each
/// coordinate advances by a fixed step.
#[derive(Clone, Copy, PartialEq, Eq, Structural, Debug)]
pub struct Summary {
    /// Step applied to the outer coordinate.
    pub outer: u64,
    /// Step applied to the inner coordinate.
    pub inner: u64,
}

impl Summary {
    /// Componentwise order on summaries: one summary precedes another when
    /// it advances every timestamp at most as far.
    pub open spec fn le_spec(self, other: Summary) -> bool {
        self.outer <= other.outer && self.inner <= other.inner
    }

    /// What applying this summary to `t` yields: the advanced timestamp, or
    /// nothing when the edge cannot carry `t` forward.
    pub open spec fn results_in_spec(self, t: Product) -> Option<Product> {
        if t.outer + self.outer <= u64::MAX && t.inner + self.inner <= u64::MAX {
            Some(Product { outer: (t.outer + self.outer) as u64, inner: (t.inner + self.inner) as u64 })
        } else {
            None
        }
    }

    /// Applies the summary to a timestamp, yielding the advanced timestamp
    /// or `None` when this edge cannot carry `t` any further.
    pub fn results_in(&self, t: &Product) -> (r: Option<Product>)
        ensures
            r == self.results_in_spec(*t),
    {
        if t.outer <= u64::MAX - self.outer && t.inner <= u64::MAX - self.inner {
            Some(Product { outer: t.outer + self.outer, inner: t.inner + self.inner })
        } else {
            None
        }
    }

    /// The summary that advances an inner time without leaving the scope.
    pub fn step(inner: u64) -> (r: Summary)
        ensures
            r == (Summary { outer: 0, inner }),
    {
        Summary { outer: 0, inner }
    }
}

/// Applying a summary is monotone: advancing comparable timestamps yields
/// comparable results whenever both advances are defined.
pub proof fn lemma_results_in_monotone(s: Summary, t1: Product, t2: Product)
    requires
        t1.le_spec(t2),
        s.results_in_spec(t1) is Some,
        s.results_in_spec(t2) is Some,
    ensures
        s.results_in_spec(t1)->Some_0.le_spec(s.results_in_spec(t2)->Some_0),
{
}

/// The timestamp order is a partial order: reflexive, transitive, and
/// antisymmetric.
pub proof fn lemma_le_partial_order(a: Product, b: Product, c: Product)
    ensures
        a.le_spec(a),
        a.le_spec(b) && b.le_spec(c) ==> a.le_spec(c),
        a.le_spec(b) && b.le_spec(a) ==> a == b,
{
}

} // verus!
