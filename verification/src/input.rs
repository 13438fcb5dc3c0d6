//! The input operator: binds an external producer to the dataflow.
//!
//! A handle buffers records at its current epoch, flushing automatically
//! when the buffer fills; advancing the epoch flushes, closes the old
//! epoch's session, releases the frontier's hold on the old epoch and
//! acquires one on the new.  The backing operator seeds the global tracker
//! with one hold per graph replica, and each step reports epoch-hold
//! changes and produced-message counts separately, so a downstream tracker
//! can tell "no more data before time T" from "some data was sent".

use vstd::prelude::*;
use crate::timestamp::{Product, Summary};
use crate::change_batch::{ChangeBatch, net_of, lemma_net_push};
use crate::channels::{Bundle, Counter, Message, MessageView, Tee};
use crate::frontier::MutableAntichain;
use crate::antichain::Antichain;
use crate::graph::{GraphBuilder, Stream};
use crate::operate::Operate;

verus! {

/// Records buffered at one epoch before an automatic flush.
pub const BUFFER_CAPACITY: usize = 256;

/// Violations of the input handle's calling discipline.
#[derive(Clone, Copy, PartialEq, Eq, Structural, Debug)]
pub enum InputError {
    /// `advance_to` was given an epoch not strictly greater than the
    /// current one.
    EpochNotAdvanced,
}

/// The consumer queues after an epoch closes: the leftover buffer (if any)
/// as one bundle at `t`, then the end-of-stream signal, appended to every
/// queue.
pub open spec fn closed_queues<D>(
    pre: Seq<Seq<MessageView<D>>>,
    buf: Seq<D>,
    t: Product,
) -> Seq<Seq<MessageView<D>>> {
    pre.map_values(
        |q: Seq<MessageView<D>>|
            if buf.len() > 0 {
                q.push(MessageView::Data(t, buf)).push(MessageView::EndOfStream)
            } else {
                q.push(MessageView::EndOfStream)
            },
    )
}

/// A handle to an input stream, used to introduce data into the dataflow
/// and to tell the tracker that earlier epochs are complete.
pub struct Handle<D> {
    index: usize,
    frontier: MutableAntichain,
    progress: ChangeBatch,
    output: Counter<D>,
    buffer: Vec<D>,
    now_at: Product,
    copies: usize,
}

impl<D> Handle<D> {
    /// Index of the input operator in the graph.
    pub closed spec fn index_spec(self) -> usize {
        self.index
    }

    /// The current epoch (inner coordinate of the current timestamp).
    pub closed spec fn epoch_spec(self) -> u64 {
        self.now_at.inner
    }

    /// The full current timestamp.
    pub closed spec fn now_spec(self) -> Product {
        self.now_at
    }

    /// How many graph replicas announce this input.
    pub closed spec fn copies_spec(self) -> usize {
        self.copies
    }

    /// Records buffered at the current epoch, not yet flushed.
    pub closed spec fn buffered(self) -> Seq<D> {
        self.buffer@
    }

    /// Whether the frontier currently holds `t`.
    pub closed spec fn holds(self, t: Product) -> bool {
        self.frontier.in_frontier(t)
    }

    /// Pending epoch-hold deltas not yet drained by the scheduler.
    pub closed spec fn progress_view(self) -> Seq<(Product, i64)> {
        self.progress@
    }

    /// Pending produced-message deltas.
    pub closed spec fn output_counts(self) -> Seq<(Product, i64)> {
        self.output.counts()
    }

    /// Consumer queues of the input's stream.
    pub closed spec fn output_queues(self) -> Seq<Seq<MessageView<D>>> {
        self.output.queues()
    }

    /// The frontier holds exactly the current epoch, once; the timestamp
    /// sits at the root scope; the replica count is sane.
    pub closed spec fn wf_core(self) -> bool {
        &&& self.frontier.wf()
        &&& (forall|x: Product|
            self.frontier.occ(x) == if x == self.now_at {
                1int
            } else {
                0int
            })
        &&& (forall|x: Product| self.frontier.in_frontier(x) <==> x == self.now_at)
        &&& self.now_at.outer == 0
        &&& 1 <= self.copies
        &&& self.copies as int <= 0x7fff_ffff_ffff_ffff
    }

    /// Internal invariant: the core conditions, and a buffer strictly
    /// below its capacity.
    pub closed spec fn wf(self) -> bool {
        self.wf_core() && self.buffer@.len() < BUFFER_CAPACITY
    }
}

impl<D: Copy> Handle<D> {
    /// Pushes the buffered records as one bundle at the current epoch.
    fn flush(&mut self)
        requires
            old(self).wf_core(),
            0 < old(self).buffered().len() <= BUFFER_CAPACITY,
        ensures
            final(self).wf(),
            final(self).frontier == old(self).frontier,
            final(self).buffered().len() == 0,
            final(self).now_spec() == old(self).now_spec(),
            final(self).epoch_spec() == old(self).epoch_spec(),
            final(self).index_spec() == old(self).index_spec(),
            final(self).copies_spec() == old(self).copies_spec(),
            final(self).progress_view() == old(self).progress_view(),
            final(self).output_counts() == old(self).output_counts().push(
                (old(self).now_spec(), old(self).buffered().len() as i64),
            ),
            final(self).output_queues().len() == old(self).output_queues().len(),
            forall|k: int|
                0 <= k < old(self).output_queues().len() ==> final(self).output_queues()[k] == old(self).output_queues()[k].push(
                    MessageView::Data(old(self).now_spec(), old(self).buffered()),
                ),
    {
        let mut data: Vec<D> = Vec::new();
        core::mem::swap(&mut self.buffer, &mut data);
        let msg = Message::Data(Bundle { time: self.now_at, data });
        self.output.push(&msg);
    }

    /// Sends one record at the current epoch.  Reaching the buffer
    /// capacity triggers exactly one automatic flush, leaving the buffer
    /// empty.
    pub fn send(&mut self, data: D)
        requires
            old(self).wf(),
        ensures
            final(self).wf(),
            final(self).now_spec() == old(self).now_spec(),
            final(self).epoch_spec() == old(self).epoch_spec(),
            final(self).index_spec() == old(self).index_spec(),
            final(self).copies_spec() == old(self).copies_spec(),
            final(self).progress_view() == old(self).progress_view(),
            forall|x: Product| final(self).holds(x) == old(self).holds(x),
            final(self).output_queues().len() == old(self).output_queues().len(),
            old(self).buffered().len() + 1 < BUFFER_CAPACITY ==> final(self).buffered() == old(self).buffered().push(data) && final(self).output_counts() == old(self).output_counts()
                && final(self).output_queues() == old(self).output_queues(),
            old(self).buffered().len() + 1 == BUFFER_CAPACITY ==> final(self).buffered().len() == 0
                && final(self).output_counts() == old(self).output_counts().push(
                (old(self).now_spec(), BUFFER_CAPACITY as i64),
            ) && (forall|k: int|
                0 <= k < old(self).output_queues().len() ==> final(self).output_queues()[k] == old(self).output_queues()[k].push(
                    MessageView::Data(old(self).now_spec(), old(self).buffered().push(data)),
                )),
    {
        self.buffer.push(data);
        if self.buffer.len() == BUFFER_CAPACITY {
            self.flush();
        }
    }

    /// Advances the current epoch to `next`, which must be strictly
    /// greater than the current epoch; otherwise nothing changes and the
    /// call fails.  On success the old epoch's leftover records are
    /// flushed, its session is closed with an end-of-stream signal, the
    /// frontier's hold moves from the old epoch to the new one, and both
    /// hold changes are recorded for the scheduler.
    pub fn advance_to(&mut self, next: u64) -> (r: Result<(), InputError>)
        requires
            old(self).wf(),
        ensures
            final(self).wf(),
            (next > old(self).epoch_spec()) <==> r is Ok,
            r is Err ==> *final(self) == *old(self) && r == Result::<(), InputError>::Err(
                InputError::EpochNotAdvanced,
            ),
            r is Ok ==> (forall|x: Product|
                final(self).holds(x) <==> x == (Product { outer: 0, inner: next })),
            r is Ok ==> final(self).now_spec() == (Product { outer: 0, inner: next })
                && final(self).epoch_spec() == next && final(self).buffered().len() == 0 && final(self).index_spec() == old(self).index_spec() && final(self).copies_spec() == old(self).copies_spec() && final(self).output_counts() == old(self).output_counts() + (if old(self).buffered().len() > 0 {
                seq![(old(self).now_spec(), old(self).buffered().len() as i64)]
            } else {
                Seq::<(Product, i64)>::empty()
            }) && final(self).output_queues() == closed_queues(
                old(self).output_queues(),
                old(self).buffered(),
                old(self).now_spec(),
            ) && (forall|x: Product|
                net_of(final(self).progress_view(), x) == net_of(old(self).progress_view(), x) + (
                if x == (Product { outer: 0, inner: next }) {
                    1int
                } else {
                    0int
                }) - (if x == old(self).now_spec() {
                    1int
                } else {
                    0int
                })),
    {
        if next <= self.now_at.inner {
            return Err(InputError::EpochNotAdvanced);
        }
        let ghost q0 = self.output.queues();
        let ghost c0 = self.output.counts();
        let ghost buf0 = self.buffer@;
        let ghost now0 = self.now_at;
        let ghost fr0 = self.frontier;
        let ghost p0 = self.progress@;
        proof {
            assert(fr0.wf());
            assert(forall|x: Product|
                fr0.occ(x) == (if x == now0 {
                    1int
                } else {
                    0int
                }));
            assert(forall|x: Product| fr0.in_frontier(x) <==> x == now0);
        }
        if self.buffer.len() > 0 {
            self.flush();
        }
        proof {
            assert(self.output.counts() =~= c0 + (if buf0.len() > 0 {
                seq![(now0, buf0.len() as i64)]
            } else {
                Seq::<(Product, i64)>::empty()
            }));
            assert(self.output.queues().len() == q0.len());
            assert forall|k: int|
                0 <= k < q0.len() implies self.output.queues()[k] == (if buf0.len() > 0 {
                q0[k].push(MessageView::Data(now0, buf0))
            } else {
                q0[k]
            }) by {}
        }
        let ghost q1 = self.output.queues();
        self.output.done();
        proof {
            assert forall|k: int|
                0 <= k < q0.len() implies self.output.queues()[k] == closed_queues(
                q0,
                buf0,
                now0,
            )[k] by {
                assert(self.output.queues()[k] == q1[k].push(MessageView::EndOfStream));
            }
            assert(self.output.queues() =~= closed_queues(q0, buf0, now0));
        }
        proof {
            assert(self.frontier == fr0);
            assert(self.progress@ == p0);
        }
        let old_now = self.now_at;
        self.frontier.update_weight(&old_now, -1, &mut self.progress);
        let ghost fr1 = self.frontier;
        let ghost p1 = self.progress@;
        proof {
            self.frontier.lemma_frontier_is_minimal();
            assert forall|x: Product| !fr1.in_frontier(x) by {
                assert(fr1.occ(x) == 0);
                assert(!fr1.is_minimal(x));
            }
            assert forall|x: Product|
                net_of(p1, x) == net_of(p0, x) - (if x == now0 {
                    1int
                } else {
                    0int
                }) by {
                assert(self.progress.net(x) == net_of(p1, x));
                assert(!fr1.in_frontier(x));
            }
        }
        let new_now = Product::new(next);
        self.now_at = new_now;
        self.frontier.update_weight(&new_now, 1, &mut self.progress);
        proof {
            self.frontier.lemma_frontier_is_minimal();
            assert forall|x: Product|
                self.frontier.in_frontier(x) <==> x == self.now_at by {
                assert(self.frontier.occ(x) == (if x == new_now {
                    1int
                } else {
                    0int
                }));
                assert(self.frontier.in_frontier(x) <==> self.frontier.is_minimal(x));
            }
            assert forall|x: Product|
                net_of(self.progress@, x) == net_of(p0, x) + (if x == new_now {
                    1int
                } else {
                    0int
                }) - (if x == now0 {
                    1int
                } else {
                    0int
                }) by {
                assert(self.progress.net(x) == net_of(self.progress@, x));
                assert(net_of(self.progress@, x) == net_of(p1, x) + (if self.frontier.in_frontier(
                    x,
                ) {
                    1int
                } else {
                    0int
                }) - (if fr1.in_frontier(x) {
                    1int
                } else {
                    0int
                }));
            }
        }
        Ok(())
    }

    /// Closes the input: flushes leftover records, sends the end-of-stream
    /// signal, and releases the frontier's hold on the final epoch, so the
    /// hold can never leak.  Returns the epoch-hold ledger and the counting
    /// fan-out, which the scheduler and consumers drain afterwards.
    pub fn close(self) -> (r: (ChangeBatch, Counter<D>))
        requires
            self.wf(),
        ensures
            forall|x: Product|
                net_of(r.0@, x) == net_of(self.progress_view(), x) - (if x == self.now_spec() {
                    1int
                } else {
                    0int
                }),
            r.1.counts() == self.output_counts() + (if self.buffered().len() > 0 {
                seq![(self.now_spec(), self.buffered().len() as i64)]
            } else {
                Seq::<(Product, i64)>::empty()
            }),
            r.1.queues() == closed_queues(self.output_queues(), self.buffered(), self.now_spec()),
    {
        let mut this = self;
        let ghost q0 = this.output.queues();
        let ghost c0 = this.output.counts();
        let ghost buf0 = this.buffer@;
        let ghost now0 = this.now_at;
        let ghost fr0 = this.frontier;
        let ghost p0 = this.progress@;
        proof {
            assert(fr0.wf());
            assert(forall|x: Product|
                fr0.occ(x) == (if x == now0 {
                    1int
                } else {
                    0int
                }));
            assert(forall|x: Product| fr0.in_frontier(x) <==> x == now0);
        }
        if this.buffer.len() > 0 {
            this.flush();
        }
        proof {
            assert(this.output.counts() =~= c0 + (if buf0.len() > 0 {
                seq![(now0, buf0.len() as i64)]
            } else {
                Seq::<(Product, i64)>::empty()
            }));
        }
        let ghost q1 = this.output.queues();
        this.output.done();
        proof {
            assert forall|k: int|
                0 <= k < q0.len() implies this.output.queues()[k] == closed_queues(
                q0,
                buf0,
                now0,
            )[k] by {
                assert(this.output.queues()[k] == q1[k].push(MessageView::EndOfStream));
            }
            assert(this.output.queues() =~= closed_queues(q0, buf0, now0));
        }
        proof {
            assert(this.frontier == fr0);
            assert(this.progress@ == p0);
        }
        let old_now = this.now_at;
        this.frontier.update_weight(&old_now, -1, &mut this.progress);
        proof {
            this.frontier.lemma_frontier_is_minimal();
            assert forall|x: Product|
                net_of(this.progress@, x) == net_of(p0, x) - (if x == now0 {
                    1int
                } else {
                    0int
                }) by {
                assert(this.progress.net(x) == net_of(this.progress@, x));
                assert(this.frontier.occ(x) == 0);
                assert(!this.frontier.is_minimal(x));
                assert(!this.frontier.in_frontier(x));
            }
        }
        let Handle { progress, output, .. } = this;
        (progress, output)
    }

    /// Reports the current epoch.
    pub fn epoch(&self) -> (r: u64)
        ensures
            r == self.epoch_spec(),
    {
        self.now_at.inner
    }

    /// Attaches a consumer to the input's stream.
    pub fn register_consumer(&mut self) -> (i: usize)
        requires
            old(self).wf(),
        ensures
            final(self).wf(),
            i == old(self).output_queues().len(),
            final(self).output_queues().len() == old(self).output_queues().len() + 1,
            forall|k: int|
                0 <= k < old(self).output_queues().len() ==> final(self).output_queues()[k] == old(self).output_queues()[k],
            final(self).output_queues()[i as int] == Seq::<MessageView<D>>::empty(),
            final(self).output_counts() == old(self).output_counts(),
            final(self).progress_view() == old(self).progress_view(),
            final(self).buffered() == old(self).buffered(),
            final(self).now_spec() == old(self).now_spec(),
            final(self).copies_spec() == old(self).copies_spec(),
            final(self).index_spec() == old(self).index_spec(),
            forall|x: Product| final(self).holds(x) == old(self).holds(x),
    {
        self.output.register_consumer()
    }

    /// Drains what the input's stream queued for consumer `i`.
    pub fn take_output(&mut self, i: usize) -> (r: Vec<Message<D>>)
        requires
            old(self).wf(),
            i < old(self).output_queues().len(),
        ensures
            final(self).wf(),
            crate::channels::queue_view(r@) == old(self).output_queues()[i as int],
            final(self).output_queues().len() == old(self).output_queues().len(),
            final(self).output_queues()[i as int] == Seq::<MessageView<D>>::empty(),
            forall|k: int|
                0 <= k < old(self).output_queues().len() && k != i as int ==> final(self).output_queues()[k] == old(self).output_queues()[k],
            final(self).output_counts() == old(self).output_counts(),
            final(self).progress_view() == old(self).progress_view(),
            final(self).buffered() == old(self).buffered(),
            final(self).now_spec() == old(self).now_spec(),
            final(self).copies_spec() == old(self).copies_spec(),
            final(self).index_spec() == old(self).index_spec(),
            forall|x: Product| final(self).holds(x) == old(self).holds(x),
    {
        self.output.take_queue(i)
    }
}

/// Creates a new stream and a handle through which to supply its input.
pub trait Input<D> {
    /// Operator index the next registration receives.
    spec fn allocated_index(&self) -> int;

    /// Channel identifier the next connection receives.
    spec fn next_channel_id(&self) -> int;

    /// How many parallel replicas of the graph exist.
    spec fn replicas(&self) -> int;

    /// Creates a stream for immediate dataflow construction and the handle
    /// later used to introduce data and advance epochs.  The fresh handle
    /// sits at the minimum timestamp with one frontier hold.
    fn new_input(&mut self) -> (r: (Handle<D>, Stream))
        requires
            old(self).allocated_index() < usize::MAX as int,
            1 <= old(self).replicas() <= 0x7fff_ffff_ffff_ffff,
        ensures
            final(self).allocated_index() == old(self).allocated_index() + 1,
            final(self).next_channel_id() == old(self).next_channel_id(),
            final(self).replicas() == old(self).replicas(),
            r.0.wf(),
            forall|x: Product| r.0.holds(x) <==> x == Product::minimum_spec(),
            r.0.index_spec() as int == old(self).allocated_index(),
            r.0.copies_spec() as int == old(self).replicas(),
            r.0.now_spec() == Product::minimum_spec(),
            r.0.epoch_spec() == 0,
            r.0.buffered() == Seq::<D>::empty(),
            r.0.progress_view() == Seq::<(Product, i64)>::empty(),
            r.0.output_counts() == Seq::<(Product, i64)>::empty(),
            r.0.output_queues().len() == 0,
            r.1 == (Stream { index: r.0.index_spec(), port: 0 }),
    ;
}

impl<D: Copy> Input<D> for GraphBuilder {
    open spec fn allocated_index(&self) -> int {
        self.next_index as int
    }

    open spec fn next_channel_id(&self) -> int {
        self.next_channel as int
    }

    open spec fn replicas(&self) -> int {
        self.peers as int
    }

    fn new_input(&mut self) -> (r: (Handle<D>, Stream)) {
        let index = self.add_operator();
        let handle = Handle {
            index,
            frontier: MutableAntichain::new_bottom(Product::minimum()),
            progress: ChangeBatch::new(),
            output: Counter::new(Tee::new()),
            buffer: Vec::new(),
            now_at: Product::minimum(),
            copies: self.peers,
        };
        let stream = Stream { index, port: 0 };
        (handle, stream)
    }
}

impl<D: Copy> Operate for Handle<D> {
    open spec fn op_wf(&self) -> bool {
        self.wf()
    }

    open spec fn summary_paths(&self) -> Seq<Seq<Seq<Summary>>> {
        Seq::empty()
    }

    open spec fn num_outputs(&self) -> int {
        1
    }

    open spec fn initial_capability(&self, t: Product) -> int {
        if self.holds(t) {
            self.copies_spec() as int
        } else {
            0
        }
    }

    open spec fn pending_consumed(&self) -> Seq<(Product, i64)> {
        Seq::empty()
    }

    open spec fn pending_internal(&self) -> Seq<(Product, i64)> {
        self.progress_view()
    }

    open spec fn pending_produced(&self) -> Seq<(Product, i64)> {
        self.output_counts()
    }

    open spec fn name_spec(&self) -> Seq<char> {
        "Input"@
    }

    open spec fn still_active(&self) -> bool {
        false
    }

    open spec fn notify_spec(&self) -> bool {
        false
    }

    fn name(&self) -> (r: &'static str) {
        "Input"
    }

    fn inputs(&self) -> (n: usize) {
        0
    }

    fn outputs(&self) -> (n: usize) {
        1
    }

    fn get_internal_summary(&self) -> (r: (Vec<Vec<Antichain>>, Vec<ChangeBatch>)) {
        let elems = self.frontier.elements();
        proof {
            assert(self.wf());
            assert(self.frontier.in_frontier(self.now_at));
            assert(elems@.contains(self.now_at));
            assert(elems@.len() >= 1);
            assert(elems@[0] == self.now_at) by {
                assert(elems@.contains(elems@[0]));
                assert(self.frontier.in_frontier(elems@[0]));
            }
        }
        let e = elems[0];
        let mut map = ChangeBatch::new();
        map.update(e, self.copies as i64);
        let paths: Vec<Vec<Antichain>> = Vec::new();
        let mut seeds: Vec<ChangeBatch> = Vec::new();
        seeds.push(map);
        proof {
            assert forall|x: Product| net_of(seeds@[0]@, x) == self.initial_capability(x) by {
                lemma_net_push(Seq::<(Product, i64)>::empty(), (e, self.copies as i64), x);
            }
        }
        (paths, seeds)
    }

    fn pull_internal_progress(
        &mut self,
        consumed: &mut ChangeBatch,
        internal: &mut ChangeBatch,
        produced: &mut ChangeBatch,
    ) -> (active: bool) {
        self.progress.drain_into(internal);
        self.output.drain_counts(produced);
        proof {
            assert(consumed@ =~= old(consumed)@ + Seq::<(Product, i64)>::empty());
        }
        false
    }

    fn notify_me(&self) -> (r: bool) {
        false
    }
}

} // verus!
