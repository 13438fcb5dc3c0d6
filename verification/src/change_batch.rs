//! Delta ledgers: batched signed occupancy changes awaiting transfer.
//!
//! A ledger is an ordered sequence of (timestamp, signed delta) pairs.  It is
//! not coalesced as entries arrive; what matters is the net delta per
//! timestamp, and the guarantee that draining moves every pending entry to
//! the destination exactly once.

use vstd::prelude::*;
use crate::timestamp::Product;

verus! {

/// Net signed delta that a sequence of ledger entries applies to `t`.
pub open spec fn net_of(s: Seq<(Product, i64)>, t: Product) -> int
    decreases s.len(),
{
    if s.len() == 0 {
        0
    } else {
        net_of(s.drop_last(), t) + if s.last().0 == t {
            s.last().1 as int
        } else {
            0int
        }
    }
}

/// Net deltas add across concatenation: splitting a ledger in two loses and
/// duplicates nothing.
pub proof fn lemma_net_concat(a: Seq<(Product, i64)>, b: Seq<(Product, i64)>, t: Product)
    ensures
        net_of(a + b, t) == net_of(a, t) + net_of(b, t),
    decreases b.len(),
{
    if b.len() == 0 {
        assert(a + b =~= a);
    } else {
        lemma_net_concat(a, b.drop_last(), t);
        assert((a + b).drop_last() =~= a + b.drop_last());
        assert((a + b).last() == b.last());
    }
}

/// Appending one entry changes the net only at that entry's timestamp.
pub proof fn lemma_net_push(s: Seq<(Product, i64)>, e: (Product, i64), t: Product)
    ensures
        net_of(s.push(e), t) == net_of(s, t) + if e.0 == t {
            e.1 as int
        } else {
            0int
        },
{
    assert(s.push(e).drop_last() =~= s);
}

/// A batch of pending (timestamp, delta) updates, drained atomically.
pub struct ChangeBatch {
    updates: Vec<(Product, i64)>,
}

impl View for ChangeBatch {
    type V = Seq<(Product, i64)>;

    closed spec fn view(&self) -> Seq<(Product, i64)> {
        self.updates@
    }
}

impl ChangeBatch {
    /// Net signed delta this batch applies to `t`.
    pub open spec fn net(self, t: Product) -> int {
        net_of(self@, t)
    }

    /// Creates an empty batch.
    pub fn new() -> (r: ChangeBatch)
        ensures
            r@ == Seq::<(Product, i64)>::empty(),
    {
        ChangeBatch { updates: Vec::new() }
    }

    /// Records a pending change of `delta` at timestamp `t`.
    pub fn update(&mut self, t: Product, delta: i64)
        ensures
            final(self)@ == old(self)@.push((t, delta)),
    {
        self.updates.push((t, delta));
    }

    /// Whether no updates are pending.
    pub fn is_empty(&self) -> (r: bool)
        ensures
            r == (self@.len() == 0),
    {
        self.updates.is_empty()
    }

    /// Number of pending entries.
    pub fn len(&self) -> (r: usize)
        ensures
            r == self@.len(),
    {
        self.updates.len()
    }

    /// The pending entries, oldest first.
    pub fn updates(&self) -> (r: &Vec<(Product, i64)>)
        ensures
            r@ == self@,
    {
        &self.updates
    }

    /// Moves every pending entry into `other`, leaving this batch empty:
    /// an exactly-once transfer, with no duplication and no loss.
    pub fn drain_into(&mut self, other: &mut ChangeBatch)
        ensures
            final(self)@ == Seq::<(Product, i64)>::empty(),
            final(other)@ == old(other)@ + old(self)@,
    {
        other.updates.append(&mut self.updates);
    }
}

/// Draining preserves every net count: afterwards the source carries none
/// and the destination carries the sum of what both sides carried before.
pub proof fn lemma_drain_exactly_once(
    src: Seq<(Product, i64)>,
    dst: Seq<(Product, i64)>,
    t: Product,
)
    ensures
        net_of(dst + src, t) + net_of(Seq::<(Product, i64)>::empty(), t) == net_of(dst, t)
            + net_of(src, t),
{
    lemma_net_concat(dst, src, t);
}

} // verus!
