//! The feedback operator: closes a cycle in the dataflow graph.
//!
//! Data fed into the handle has its timestamp advanced by a fixed summary;
//! a message whose advanced timestamp is undefined or exceeds the
//! configured limit is dropped — that data cannot legally continue around
//! the cycle — while the end-of-stream signal is always forwarded.  The
//! operator itself holds no state: its progress report only passes the
//! consumed and produced counts through.

use vstd::prelude::*;
use crate::timestamp::{Product, Summary};
use crate::change_batch::{ChangeBatch, net_of};
use crate::channels::{Bundle, Counter, Message, MessageView, Tee};
use crate::antichain::Antichain;
use crate::graph::{Connection, GraphBuilder, Stream, Target};
use crate::operate::Operate;

verus! {

/// A handle used to bind the source of a loop variable: the cycle's input
/// side, owning the operator's ledgers and its outgoing fan-out.
pub struct Handle<D> {
    index: usize,
    limit: Product,
    summary: Summary,
    consumed: ChangeBatch,
    output: Counter<D>,
    connection: Option<Connection>,
}

impl<D> Handle<D> {
    /// Index of the feedback operator in the graph.
    pub closed spec fn index_spec(self) -> usize {
        self.index
    }

    /// Timestamps advanced beyond this limit leave the cycle.
    pub closed spec fn limit_spec(self) -> Product {
        self.limit
    }

    /// The summary applied to every timestamp crossing the feedback edge.
    pub closed spec fn summary_spec(self) -> Summary {
        self.summary
    }

    /// Pending "messages consumed" deltas.
    pub closed spec fn consumed_view(self) -> Seq<(Product, i64)> {
        self.consumed@
    }

    /// Pending "messages produced" deltas of the outgoing counter.
    pub closed spec fn output_counts(self) -> Seq<(Product, i64)> {
        self.output.counts()
    }

    /// Consumer queues of the outgoing fan-out.
    pub closed spec fn output_queues(self) -> Seq<Seq<MessageView<D>>> {
        self.output.queues()
    }

    /// The connection that closes the loop, once bound.
    pub closed spec fn connection_spec(self) -> Option<Connection> {
        self.connection
    }

    /// The static configuration of the handle.
    pub open spec fn config(self) -> (usize, Product, Summary) {
        (self.index_spec(), self.limit_spec(), self.summary_spec())
    }

    /// Where a message at time `t` goes: the advanced timestamp if the
    /// summary yields one that stays at or below the limit, otherwise
    /// nowhere — the message is dropped.
    pub open spec fn forwards(self, t: Product) -> Option<Product> {
        match self.summary_spec().results_in_spec(t) {
            Some(nt) => if nt.le_spec(self.limit_spec()) {
                Some(nt)
            } else {
                None
            },
            None => None,
        }
    }
}

/// The feedback forwarding policy: a message at time `t` is forwarded
/// exactly when the summary yields an advanced time at or below the limit,
/// and then it is forwarded at that advanced time; otherwise it is dropped.
pub proof fn lemma_forwarding_policy<D>(h: Handle<D>, t: Product)
    ensures
        h.forwards(t) is Some <==> (h.summary_spec().results_in_spec(t) is Some
            && h.summary_spec().results_in_spec(t)->Some_0.le_spec(h.limit_spec())),
        h.forwards(t) is Some ==> h.forwards(t)->Some_0 == h.summary_spec().results_in_spec(
            t,
        )->Some_0,
{
}

impl<D: Copy> Handle<D> {
    /// Receives one message from the edge that closes the loop: counts it
    /// as consumed at its original time, advances its timestamp by the
    /// summary, and forwards it — or drops it when the summary yields
    /// nothing or the advanced time exceeds the limit.  The end-of-stream
    /// signal is always forwarded and never counted.
    pub fn push(&mut self, msg: Message<D>)
        requires
            msg@ is Data ==> msg@->Data_1.len() <= i64::MAX,
        ensures
            final(self).config() == old(self).config(),
            final(self).connection_spec() == old(self).connection_spec(),
            final(self).output_queues().len() == old(self).output_queues().len(),
            msg@ is EndOfStream ==> final(self).consumed_view() == old(self).consumed_view()
                && final(self).output_counts() == old(self).output_counts() && (forall|k: int|
                0 <= k < old(self).output_queues().len() ==> final(self).output_queues()[k] == old(self).output_queues()[k].push(MessageView::EndOfStream)),
            msg@ is Data ==> final(self).consumed_view() == old(self).consumed_view().push(
                (msg@->Data_0, msg@->Data_1.len() as i64),
            ),
            msg@ is Data && old(self).forwards(msg@->Data_0) is Some ==> final(self).output_counts() == old(self).output_counts().push(
                (old(self).forwards(msg@->Data_0)->Some_0, msg@->Data_1.len() as i64),
            ) && (forall|k: int|
                0 <= k < old(self).output_queues().len() ==> final(self).output_queues()[k] == old(self).output_queues()[k].push(
                    MessageView::Data(old(self).forwards(msg@->Data_0)->Some_0, msg@->Data_1),
                )),
            msg@ is Data && old(self).forwards(msg@->Data_0) is None ==> final(self).output_counts() == old(self).output_counts() && (forall|k: int|
                0 <= k < old(self).output_queues().len() ==> final(self).output_queues()[k] == old(self).output_queues()[k]),
    {
        match msg {
            Message::Data(b) => {
                self.consumed.update(b.time, b.data.len() as i64);
                match self.summary.results_in(&b.time) {
                    Some(new_time) => {
                        if new_time.less_equal(&self.limit) {
                            let fwd = Message::Data(Bundle { time: new_time, data: b.data });
                            self.output.push(&fwd);
                        }
                    },
                    None => {},
                }
            },
            Message::EndOfStream => {
                self.output.done();
            },
        }
    }

    /// Attaches a consumer to the cycle's stream.
    pub fn register_consumer(&mut self) -> (i: usize)
        ensures
            i == old(self).output_queues().len(),
            final(self).output_queues().len() == old(self).output_queues().len() + 1,
            forall|k: int|
                0 <= k < old(self).output_queues().len() ==> final(self).output_queues()[k] == old(self).output_queues()[k],
            final(self).output_queues()[i as int] == Seq::<MessageView<D>>::empty(),
            final(self).output_counts() == old(self).output_counts(),
            final(self).consumed_view() == old(self).consumed_view(),
            final(self).config() == old(self).config(),
            final(self).connection_spec() == old(self).connection_spec(),
    {
        self.output.register_consumer()
    }

    /// Drains what the cycle's stream queued for consumer `i`.
    pub fn take_output(&mut self, i: usize) -> (r: Vec<Message<D>>)
        requires
            i < old(self).output_queues().len(),
        ensures
            crate::channels::queue_view(r@) == old(self).output_queues()[i as int],
            final(self).output_queues().len() == old(self).output_queues().len(),
            final(self).output_queues()[i as int] == Seq::<MessageView<D>>::empty(),
            forall|k: int|
                0 <= k < old(self).output_queues().len() && k != i as int ==> final(self).output_queues()[k] == old(self).output_queues()[k],
            final(self).output_counts() == old(self).output_counts(),
            final(self).consumed_view() == old(self).consumed_view(),
            final(self).config() == old(self).config(),
            final(self).connection_spec() == old(self).connection_spec(),
    {
        self.output.take_queue(i)
    }
}

/// Creates a `Stream` and a `Handle` to later bind the source of that
/// stream, forming a cycle.
pub trait LoopVariable<D> {
    /// Operator index the next registration receives.
    spec fn next_operator(&self) -> int;

    /// Channel identifier the next connection receives.
    spec fn next_channel_id(&self) -> int;

    /// How many parallel replicas of the graph exist.
    spec fn replicas(&self) -> int;

    /// Creates the cycle's stream and the handle that will later be bound,
    /// by a connect step, to the future producer that closes the loop.
    /// Data crossing the handle has its timestamp advanced by `summary` and
    /// is dropped if the result exceeds `limit`.
    fn loop_variable(&mut self, limit: Product, summary: Summary) -> (r: (Handle<D>, Stream))
        requires
            old(self).next_operator() < usize::MAX as int,
        ensures
            final(self).next_operator() == old(self).next_operator() + 1,
            final(self).next_channel_id() == old(self).next_channel_id(),
            final(self).replicas() == old(self).replicas(),
            r.0.index_spec() as int == old(self).next_operator(),
            r.0.limit_spec() == limit,
            r.0.summary_spec() == summary,
            r.0.consumed_view() == Seq::<(Product, i64)>::empty(),
            r.0.output_counts() == Seq::<(Product, i64)>::empty(),
            r.0.output_queues().len() == 0,
            r.0.connection_spec() is None,
            r.1 == (Stream { index: r.0.index_spec(), port: 0 }),
    ;
}

impl<D: Copy> LoopVariable<D> for GraphBuilder {
    open spec fn next_operator(&self) -> int {
        self.next_index as int
    }

    open spec fn next_channel_id(&self) -> int {
        self.next_channel as int
    }

    open spec fn replicas(&self) -> int {
        self.peers as int
    }

    fn loop_variable(&mut self, limit: Product, summary: Summary) -> (r: (Handle<D>, Stream)) {
        let targets: Tee<D> = Tee::new();
        let feedback_output = Counter::new(targets);
        let index = self.add_operator();
        let helper = Handle {
            index,
            limit,
            summary,
            consumed: ChangeBatch::new(),
            output: feedback_output,
            connection: None,
        };
        let stream = Stream { index, port: 0 };
        (helper, stream)
    }
}

/// Connects a `Stream` to be the input of a loop variable.
pub trait ConnectLoop<D> {
    /// The stream being connected.
    spec fn stream_spec(&self) -> Stream;

    /// Binds this stream to the handle's input port, completing the cycle
    /// under a fresh channel identifier.
    fn connect_loop(&self, builder: &mut GraphBuilder, helper: &mut Handle<D>)
        requires
            old(builder).next_channel < usize::MAX,
        ensures
            final(builder).next_channel == old(builder).next_channel + 1,
            final(builder).peers == old(builder).peers,
            final(builder).next_index == old(builder).next_index,
            final(helper).connection_spec() == Some(
                Connection {
                    source: self.stream_spec(),
                    target: Target { index: old(helper).index_spec(), port: 0 },
                    channel: old(builder).next_channel,
                },
            ),
            final(helper).config() == old(helper).config(),
            final(helper).consumed_view() == old(helper).consumed_view(),
            final(helper).output_counts() == old(helper).output_counts(),
            final(helper).output_queues() == old(helper).output_queues(),
    ;
}

impl<D: Copy> ConnectLoop<D> for Stream {
    open spec fn stream_spec(&self) -> Stream {
        *self
    }

    fn connect_loop(&self, builder: &mut GraphBuilder, helper: &mut Handle<D>) {
        let channel = builder.new_identifier();
        let target = Target { index: helper.index, port: 0 };
        helper.connection = Some(Connection { source: *self, target, channel });
    }
}

impl<D: Copy> Operate for Handle<D> {
    open spec fn op_wf(&self) -> bool {
        true
    }

    open spec fn summary_paths(&self) -> Seq<Seq<Seq<Summary>>> {
        seq![seq![seq![self.summary_spec()]]]
    }

    open spec fn num_outputs(&self) -> int {
        1
    }

    open spec fn initial_capability(&self, t: Product) -> int {
        0
    }

    open spec fn pending_consumed(&self) -> Seq<(Product, i64)> {
        self.consumed_view()
    }

    open spec fn pending_internal(&self) -> Seq<(Product, i64)> {
        Seq::empty()
    }

    open spec fn pending_produced(&self) -> Seq<(Product, i64)> {
        self.output_counts()
    }

    open spec fn name_spec(&self) -> Seq<char> {
        "Feedback"@
    }

    open spec fn still_active(&self) -> bool {
        false
    }

    open spec fn notify_spec(&self) -> bool {
        false
    }

    fn name(&self) -> (r: &'static str) {
        "Feedback"
    }

    fn inputs(&self) -> (n: usize) {
        1
    }

    fn outputs(&self) -> (n: usize) {
        1
    }

    fn get_internal_summary(&self) -> (r: (Vec<Vec<Antichain>>, Vec<ChangeBatch>)) {
        let mut inner: Vec<Antichain> = Vec::new();
        inner.push(Antichain::from_elem(self.summary));
        let mut paths: Vec<Vec<Antichain>> = Vec::new();
        paths.push(inner);
        let mut seeds: Vec<ChangeBatch> = Vec::new();
        seeds.push(ChangeBatch::new());
        proof {
            assert(paths@.len() == 1);
            assert(paths@[0]@.len() == 1);
            assert(paths@[0]@[0]@ =~= seq![self.summary]);
            assert(self.summary_paths()[0][0] =~= seq![self.summary]);
            assert forall|x: Product| net_of(seeds@[0]@, x) == self.initial_capability(x) by {
                assert(seeds@[0]@.len() == 0);
            }
        }
        (paths, seeds)
    }

    fn pull_internal_progress(
        &mut self,
        consumed: &mut ChangeBatch,
        internal: &mut ChangeBatch,
        produced: &mut ChangeBatch,
    ) -> (active: bool) {
        self.consumed.drain_into(consumed);
        self.output.drain_counts(produced);
        proof {
            assert(internal@ =~= old(internal)@ + Seq::<(Product, i64)>::empty());
        }
        false
    }

    fn notify_me(&self) -> (r: bool) {
        false
    }
}

} // verus!
