//! Counting pushers: the record-transmission path of an operator.
//!
//! A `Tee` fans one stream of messages out to every registered consumer; a
//! `Counter` wraps it and records, for every bundle forwarded, a timestamp
//! delta that the operator later reports to the progress tracker.  A message
//! is either a bundle of records at one timestamp or the end-of-stream
//! signal, which is always forwarded and never counted.

use vstd::prelude::*;
use crate::timestamp::Product;
use crate::change_batch::ChangeBatch;

verus! {

/// A batch of records all bearing one timestamp.
pub struct Bundle<D> {
    /// The logical time of every record in the batch.
    pub time: Product,
    /// The records.
    pub data: Vec<D>,
}

/// What crosses a channel: a bundle, or the signal that the sender closed.
pub enum Message<D> {
    /// A batch of records at one timestamp.
    Data(Bundle<D>),
    /// The sending side will push nothing further.
    EndOfStream,
}

/// Abstract value of a message.
pub enum MessageView<D> {
    /// Timestamp and record sequence of a bundle.
    Data(Product, Seq<D>),
    /// The close signal.
    EndOfStream,
}

impl<D> View for Message<D> {
    type V = MessageView<D>;

    open spec fn view(&self) -> MessageView<D> {
        match self {
            Message::Data(b) => MessageView::Data(b.time, b.data@),
            Message::EndOfStream => MessageView::EndOfStream,
        }
    }
}

/// The abstract values of a queue of messages, oldest first.
pub open spec fn queue_view<D>(q: Seq<Message<D>>) -> Seq<MessageView<D>> {
    q.map_values(|m: Message<D>| m@)
}

/// Copies a vector of plain values.
fn copy_vec<D: Copy>(v: &Vec<D>) -> (r: Vec<D>)
    ensures
        r@ == v@,
{
    let mut r: Vec<D> = Vec::new();
    let mut i: usize = 0;
    while i < v.len()
        invariant
            i <= v@.len(),
            r@ == v@.take(i as int),
        decreases v@.len() - i,
    {
        r.push(v[i]);
        proof {
            assert(v@.take(i as int + 1) =~= v@.take(i as int).push(v@[i as int]));
        }
        i += 1;
    }
    proof {
        assert(v@.take(v@.len() as int) =~= v@);
    }
    r
}

/// Copies a message, preserving its abstract value.
fn copy_message<D: Copy>(m: &Message<D>) -> (r: Message<D>)
    ensures
        r@ == m@,
{
    match m {
        Message::Data(b) => Message::Data(Bundle { time: b.time, data: copy_vec(&b.data) }),
        Message::EndOfStream => Message::EndOfStream,
    }
}

/// Fans one stream of messages out to every registered consumer queue.
/// Consumers attach after the producer exists, which is what lets a cycle's
/// stream be built before the edge that closes the loop.
pub struct Tee<D> {
    queues: Vec<Vec<Message<D>>>,
}

impl<D> View for Tee<D> {
    type V = Seq<Seq<MessageView<D>>>;

    closed spec fn view(&self) -> Seq<Seq<MessageView<D>>> {
        self.queues@.map_values(|q: Vec<Message<D>>| queue_view(q@))
    }
}

impl<D: Copy> Tee<D> {
    /// A fan-out with no consumers yet.
    pub fn new() -> (r: Tee<D>)
        ensures
            r@.len() == 0,
    {
        Tee { queues: Vec::new() }
    }

    /// Attaches a consumer; its queue starts empty.  Returns the consumer's
    /// index.
    pub fn register(&mut self) -> (i: usize)
        ensures
            i == old(self)@.len(),
            final(self)@.len() == old(self)@.len() + 1,
            forall|k: int| 0 <= k < old(self)@.len() ==> final(self)@[k] == old(self)@[k],
            final(self)@[i as int] == Seq::<MessageView<D>>::empty(),
    {
        let i = self.queues.len();
        self.queues.push(Vec::new());
        proof {
            assert(queue_view(Seq::<Message<D>>::empty()) =~= Seq::<MessageView<D>>::empty());
        }
        i
    }

    /// Delivers one message to every registered consumer.
    pub fn push(&mut self, msg: &Message<D>)
        ensures
            final(self)@.len() == old(self)@.len(),
            forall|k: int|
                0 <= k < old(self)@.len() ==> final(self)@[k] == old(self)@[k].push(msg@),
    {
        let ghost q0 = self@;
        let mut k: usize = 0;
        while k < self.queues.len()
            invariant
                k <= q0.len(),
                self@.len() == q0.len(),
                forall|j: int| 0 <= j < k ==> self@[j] == q0[j].push(msg@),
                forall|j: int| k <= j < q0.len() ==> self@[j] == q0[j],
            decreases q0.len() - k,
        {
            let m = copy_message(msg);
            let ghost pre = self@;
            let ghost qpre = self.queues@;
            self.queues[k].push(m);
            proof {
                assert forall|j: int| 0 <= j < self@.len() implies self@[j] == (if j == k as int {
                    pre[j].push(msg@)
                } else {
                    pre[j]
                }) by {
                    assert(self@[j] == queue_view(self.queues@[j]@));
                    assert(pre[j] == queue_view(qpre[j]@));
                    if j == k as int {
                        assert(self.queues@[j]@ == qpre[j]@.push(m));
                        assert(queue_view(qpre[j]@.push(m)) =~= queue_view(qpre[j]@).push(m@));
                    } else {
                        assert(self.queues@[j] == qpre[j]);
                    }
                }
            }
            k += 1;
        }
    }

    /// Hands out everything queued for consumer `i`, leaving its queue
    /// empty: the channel-side drain.
    pub fn take(&mut self, i: usize) -> (r: Vec<Message<D>>)
        requires
            i < old(self)@.len(),
        ensures
            queue_view(r@) == old(self)@[i as int],
            final(self)@.len() == old(self)@.len(),
            final(self)@[i as int] == Seq::<MessageView<D>>::empty(),
            forall|k: int|
                0 <= k < old(self)@.len() && k != i as int ==> final(self)@[k] == old(self)@[k],
    {
        let mut out: Vec<Message<D>> = Vec::new();
        core::mem::swap(&mut self.queues[i], &mut out);
        proof {
            assert(queue_view(Seq::<Message<D>>::empty()) =~= Seq::<MessageView<D>>::empty());
        }
        out
    }

}

/// Wraps a fan-out so that every record leaving the operator is also
/// recorded as a timestamp delta visible to the progress tracker.
pub struct Counter<D> {
    counts: ChangeBatch,
    tee: Tee<D>,
}

impl<D> Counter<D> {
    /// The pending (timestamp, record-count) deltas not yet drained.
    pub closed spec fn counts(self) -> Seq<(Product, i64)> {
        self.counts@
    }

    /// The consumer queues of the wrapped fan-out.
    pub closed spec fn queues(self) -> Seq<Seq<MessageView<D>>> {
        self.tee@
    }
}

impl<D: Copy> Counter<D> {
    /// Wraps a fan-out with an empty ledger.
    pub fn new(tee: Tee<D>) -> (r: Counter<D>)
        ensures
            r.counts() == Seq::<(Product, i64)>::empty(),
            r.queues() == tee@,
    {
        Counter { counts: ChangeBatch::new(), tee }
    }

    /// Forwards a message to every consumer; a bundle is also counted as
    /// `data.len()` records at its timestamp, while an end-of-stream signal
    /// is forwarded uncounted.
    pub fn push(&mut self, msg: &Message<D>)
        requires
            msg@ is Data ==> msg@->Data_1.len() <= i64::MAX,
        ensures
            final(self).queues().len() == old(self).queues().len(),
            forall|k: int|
                0 <= k < old(self).queues().len() ==> final(self).queues()[k] == old(
                    self,
                ).queues()[k].push(msg@),
            final(self).counts() == (if msg@ is Data {
                old(self).counts().push((msg@->Data_0, msg@->Data_1.len() as i64))
            } else {
                old(self).counts()
            }),
    {
        match msg {
            Message::Data(b) => {
                self.counts.update(b.time, b.data.len() as i64);
            },
            Message::EndOfStream => {},
        }
        self.tee.push(msg);
    }

    /// Forwards the end-of-stream signal: closes the sending side without
    /// touching the counts.
    pub fn done(&mut self)
        ensures
            final(self).queues().len() == old(self).queues().len(),
            forall|k: int|
                0 <= k < old(self).queues().len() ==> final(self).queues()[k] == old(
                    self,
                ).queues()[k].push(MessageView::EndOfStream),
            final(self).counts() == old(self).counts(),
    {
        let m: Message<D> = Message::EndOfStream;
        self.tee.push(&m);
    }

    /// Moves every pending count into `into`, exactly once.
    pub fn drain_counts(&mut self, into: &mut ChangeBatch)
        ensures
            final(self).counts() == Seq::<(Product, i64)>::empty(),
            final(into)@ == old(into)@ + old(self).counts(),
            final(self).queues() == old(self).queues(),
    {
        self.counts.drain_into(into);
    }

    /// Attaches a consumer to the fan-out.
    pub fn register_consumer(&mut self) -> (i: usize)
        ensures
            i == old(self).queues().len(),
            final(self).queues().len() == old(self).queues().len() + 1,
            forall|k: int|
                0 <= k < old(self).queues().len() ==> final(self).queues()[k] == old(
                    self,
                ).queues()[k],
            final(self).queues()[i as int] == Seq::<MessageView<D>>::empty(),
            final(self).counts() == old(self).counts(),
    {
        self.tee.register()
    }

    /// Drains consumer `i`'s queue.
    pub fn take_queue(&mut self, i: usize) -> (r: Vec<Message<D>>)
        requires
            i < old(self).queues().len(),
        ensures
            queue_view(r@) == old(self).queues()[i as int],
            final(self).queues().len() == old(self).queues().len(),
            final(self).queues()[i as int] == Seq::<MessageView<D>>::empty(),
            forall|k: int|
                0 <= k < old(self).queues().len() && k != i as int ==> final(self).queues()[k]
                    == old(self).queues()[k],
            final(self).counts() == old(self).counts(),
    {
        self.tee.take(i)
    }
}

} // verus!
