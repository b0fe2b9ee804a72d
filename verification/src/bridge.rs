//! The bounded hand-off between the capture callback and the worker.

use vstd::prelude::*;
use crate::overflow::OverflowEvent;
use crate::overflow::OverflowTracker;
use crate::overflow::next_streak;
use crate::overflow::event_of;
use crate::overflow::HARD_DROP_THRESHOLD;
use crate::ring::RingConsumer;
use crate::ring::RingProducer;
use crate::ring::SampleRing;
use crate::ring::accepted_len;
use crate::ring::consumer_try_pop;
use crate::ring::producer_push_slice;
use crate::ring::ring_split;
use crate::ring::ring_capacity;
use crate::ring::ring_contents;
use crate::ring::ring_new;
use crate::ring::ring_push_slice;
use crate::ring::ring_try_pop;

verus! {

/// Largest capacity, in samples, that a bridge can be built with.
pub const MAX_BRIDGE_CAPACITY: usize = 0x0100_0000;

/// Capacity of the bridge behind a microphone: one second at 48 kHz.
pub const MICROPHONE_BRIDGE_CAPACITY: usize = 48000;

/// Capacity of the bridge behind a system-audio tap: 128 Ki samples, about
/// 2.7 seconds at 48 kHz.
pub const SPEAKER_BRIDGE_CAPACITY: usize = 0x2_0000;

/// How many samples a drain of at most `max_batch` removes from a queue of
/// `queued` samples.
pub open spec fn drained_len(queued: nat, max_batch: nat) -> nat {
    if queued <= max_batch {
        queued
    } else {
        max_batch
    }
}

/// One operation on a bridge: a batch offered, or a drain of at most so
/// many samples.
pub enum BridgeOp {
    Push(Seq<u32>),
    Drain(nat),
}

/// The queue of a bridge together with a tally of everything that has
/// happened to it.
pub struct BridgeTrace {
    /// The samples now queued, eldest first.
    pub queue: Seq<u32>,
    /// All samples ever offered, counted.
    pub pushed: nat,
    /// All samples that were offered and did not fit, counted.
    pub dropped: nat,
    /// All samples ever handed out by a drain, counted.
    pub drained: nat,
    /// All samples ever written to the queue, in order.
    pub written: Seq<u32>,
    /// All samples ever handed out by a drain, in order.
    pub read: Seq<u32>,
}

/// The trace of a bridge on which nothing has happened yet.
pub open spec fn empty_trace() -> BridgeTrace {
    BridgeTrace {
        queue: Seq::empty(),
        pushed: 0,
        dropped: 0,
        drained: 0,
        written: Seq::empty(),
        read: Seq::empty(),
    }
}

/// The trace after one more operation on a bridge of `capacity` slots:
/// what `CaptureBridge::push` and `CaptureBridge::drain` do to the queue,
/// with the tally kept.
pub open spec fn apply_op(capacity: nat, t: BridgeTrace, op: BridgeOp) -> BridgeTrace {
    match op {
        BridgeOp::Push(batch) => {
            let accepted = accepted_len(capacity, t.queue.len(), batch.len());
            BridgeTrace {
                queue: t.queue + batch.take(accepted as int),
                pushed: t.pushed + batch.len(),
                dropped: t.dropped + (batch.len() - accepted) as nat,
                drained: t.drained,
                written: t.written + batch.take(accepted as int),
                read: t.read,
            }
        },
        BridgeOp::Drain(max_batch) => {
            let n = drained_len(t.queue.len(), max_batch);
            BridgeTrace {
                queue: t.queue.skip(n as int),
                pushed: t.pushed,
                dropped: t.dropped,
                drained: t.drained + n,
                written: t.written,
                read: t.read + t.queue.take(n as int),
            }
        },
    }
}

/// The trace of an empty bridge of `capacity` slots after the operations
/// `ops`, applied first to last.
pub open spec fn replay(capacity: nat, ops: Seq<BridgeOp>) -> BridgeTrace
    decreases ops.len(),
{
    if ops.len() == 0 {
        empty_trace()
    } else {
        apply_op(capacity, replay(capacity, ops.drop_last()), ops.last())
    }
}

/// Conservation: after any sequence of pushes and drains on a bridge that
/// started empty, every sample ever offered has been drained, has been
/// dropped, or is still queued; and what came out, followed by what is
/// queued, is exactly what went in, in order. The queue never exceeds the
/// capacity.
pub proof fn lemma_conservation(capacity: nat, ops: Seq<BridgeOp>)
    ensures
        replay(capacity, ops).pushed == replay(capacity, ops).drained + replay(
            capacity,
            ops,
        ).dropped + replay(capacity, ops).queue.len(),
        replay(capacity, ops).written == replay(capacity, ops).read + replay(capacity, ops).queue,
        replay(capacity, ops).queue.len() <= capacity,
        replay(capacity, ops).drained == replay(capacity, ops).read.len(),
    decreases ops.len(),
{
    if ops.len() > 0 {
        lemma_conservation(capacity, ops.drop_last());
        let t = replay(capacity, ops.drop_last());
        match ops.last() {
            BridgeOp::Push(batch) => {
                let accepted = accepted_len(capacity, t.queue.len(), batch.len());
                assert(t.written + batch.take(accepted as int) == t.read + (t.queue + batch.take(
                    accepted as int,
                )));
            },
            BridgeOp::Drain(max_batch) => {
                let n = drained_len(t.queue.len(), max_batch);
                assert(t.queue == t.queue.take(n as int) + t.queue.skip(n as int));
                assert(t.written == (t.read + t.queue.take(n as int)) + t.queue.skip(n as int));
            },
        }
    }
}

/// Once the queue has been drained empty, the samples drained and the
/// samples dropped add up to the samples offered.
pub proof fn lemma_drained_plus_dropped(capacity: nat, ops: Seq<BridgeOp>)
    requires
        replay(capacity, ops).queue.len() == 0,
    ensures
        replay(capacity, ops).drained + replay(capacity, ops).dropped == replay(
            capacity,
            ops,
        ).pushed,
{
    lemma_conservation(capacity, ops);
}

/// What one push did.
#[derive(Clone, Copy, Debug)]
pub struct PushOutcome {
    /// Samples written to the queue: a prefix of the batch.
    pub accepted: usize,
    /// Samples of the batch that did not fit and were discarded.
    pub dropped: usize,
    /// What the write did to the overflow tracker.
    pub event: OverflowEvent,
}

/// A bounded FIFO of raw samples with its overflow tracker, held by one owner.
pub struct CaptureBridge {
    ring: SampleRing,
    tracker: OverflowTracker,
}

/// The write end of a bridge, for the capture callback. It never blocks and
/// never allocates.
pub struct BridgeProducer {
    ring: RingProducer,
    tracker: OverflowTracker,
}

/// The read end of a bridge, for the worker.
pub struct BridgeConsumer {
    ring: RingConsumer,
}

impl CaptureBridge {
    /// The queue never holds more samples than it has slots.
    pub closed spec fn wf(&self) -> bool {
        &&& 0 < ring_capacity(self.ring)
        &&& ring_contents(self.ring).len() <= ring_capacity(self.ring)
    }

    /// The queued samples, eldest first.
    pub closed spec fn queued(&self) -> Seq<u32> {
        ring_contents(self.ring)
    }

    /// The fixed number of slots.
    pub closed spec fn capacity(&self) -> nat {
        ring_capacity(self.ring)
    }

    /// The overflow tracker.
    pub closed spec fn tracker(&self) -> OverflowTracker {
        self.tracker
    }

    /// An empty bridge with `capacity` slots, or `None` when `capacity` is
    /// zero or larger than `MAX_BRIDGE_CAPACITY`.
    pub fn new(capacity: usize) -> (bridge: Option<Self>)
        ensures
            bridge.is_some() <==> 0 < capacity <= MAX_BRIDGE_CAPACITY,
            bridge matches Some(b) ==> {
                &&& b.wf()
                &&& b.queued() == Seq::<u32>::empty()
                &&& b.capacity() == capacity
                &&& b.tracker().streak() == 0
                &&& !b.tracker().terminated()
            },
    {
        if capacity == 0 || capacity > MAX_BRIDGE_CAPACITY {
            return None;
        }
        let ring = ring_new(capacity);
        Some(CaptureBridge { ring, tracker: OverflowTracker::new() })
    }

    /// Offers a batch to the queue. As many samples as fit are appended, in
    /// order; the rest of the batch is discarded, and the overflow tracker
    /// records whether the write was complete.
    pub fn push(&mut self, batch: &[u32]) -> (outcome: PushOutcome)
        requires
            old(self).wf(),
        ensures
            final(self).wf(),
            outcome.accepted == accepted_len(
                old(self).capacity(),
                old(self).queued().len(),
                batch@.len(),
            ),
            outcome.accepted + outcome.dropped == batch@.len(),
            final(self).queued() == old(self).queued() + batch@.take(outcome.accepted as int),
            final(self).capacity() == old(self).capacity(),
            final(self).tracker().streak() == next_streak(
                old(self).tracker().streak(),
                batch@.len(),
                outcome.accepted as nat,
            ),
            final(self).tracker().terminated() == (old(self).tracker().terminated()
                || final(self).tracker().streak() >= HARD_DROP_THRESHOLD),
            outcome.event == event_of(final(self).tracker().streak()),
    {
        let accepted = ring_push_slice(&mut self.ring, batch);
        let event = self.tracker.record(batch.len(), accepted);
        PushOutcome { accepted, dropped: batch.len() - accepted, event }
    }

    /// Removes up to `max_batch` samples from the front of the queue and
    /// returns them in order.
    pub fn drain(&mut self, max_batch: usize) -> (out: Vec<u32>)
        requires
            old(self).wf(),
        ensures
            final(self).wf(),
            out@.len() == drained_len(old(self).queued().len(), max_batch as nat),
            out@ == old(self).queued().take(out@.len() as int),
            final(self).queued() == old(self).queued().skip(out@.len() as int),
            final(self).capacity() == old(self).capacity(),
            final(self).tracker() == old(self).tracker(),
    {
        let mut out: Vec<u32> = Vec::new();
        let ghost before = self.queued();
        loop
            invariant
                out@.len() <= max_batch,
                out@.len() <= before.len(),
                out@ == before.take(out@.len() as int),
                ring_contents(self.ring) == before.skip(out@.len() as int),
                ring_capacity(self.ring) == old(self).capacity(),
                before.len() <= ring_capacity(self.ring),
                0 < ring_capacity(self.ring),
                self.tracker == old(self).tracker,
            ensures
                out@.len() == drained_len(before.len(), max_batch as nat),
            decreases max_batch - out@.len(),
        {
            if out.len() >= max_batch {
                break;
            }
            match ring_try_pop(&mut self.ring) {
                Some(sample) => {
                    out.push(sample);
                },
                None => {
                    break;
                },
            }
        }
        out
    }

    /// Splits the bridge into its two ends, so that one thread can write
    /// while another reads. The overflow tracker goes with the write end.
    pub fn split(self) -> (ends: (BridgeProducer, BridgeConsumer))
        ensures
            ends.0.tracker() == self.tracker(),
    {
        let tracker = self.tracker;
        let (producer, consumer) = ring_split(self.ring);
        (BridgeProducer { ring: producer, tracker }, BridgeConsumer { ring: consumer })
    }
}

impl BridgeProducer {
    /// The overflow tracker.
    pub closed spec fn tracker(&self) -> OverflowTracker {
        self.tracker
    }

    /// Offers a batch to the queue. A prefix of the batch is written; how
    /// long it is depends on how far the reader has come. The overflow
    /// tracker records whether the write was complete.
    pub fn push(&mut self, batch: &[u32]) -> (outcome: PushOutcome)
        ensures
            outcome.accepted + outcome.dropped == batch@.len(),
            final(self).tracker().streak() == next_streak(
                old(self).tracker().streak(),
                batch@.len(),
                outcome.accepted as nat,
            ),
            final(self).tracker().terminated() == (old(self).tracker().terminated()
                || final(self).tracker().streak() >= HARD_DROP_THRESHOLD),
            outcome.event == event_of(final(self).tracker().streak()),
    {
        let accepted = producer_push_slice(&mut self.ring, batch);
        let event = self.tracker.record(batch.len(), accepted);
        PushOutcome { accepted, dropped: batch.len() - accepted, event }
    }

    /// Length of the current streak of partial writes.
    pub fn consecutive_drops(&self) -> (n: u32)
        ensures
            n == self.tracker().streak(),
    {
        self.tracker.consecutive_drops()
    }

    /// Whether sustained overflow has requested termination. The flag is
    /// advisory: the worker reads it at its next iteration.
    pub fn should_terminate(&self) -> (b: bool)
        ensures
            b == self.tracker().terminated(),
    {
        self.tracker.should_terminate()
    }
}

impl BridgeConsumer {
    /// Removes up to `max_batch` samples that the writer has made visible
    /// and returns them in order. It does not wait for more.
    pub fn drain(&mut self, max_batch: usize) -> (out: Vec<u32>)
        ensures
            out@.len() <= max_batch,
    {
        let mut out: Vec<u32> = Vec::new();
        loop
            invariant
                out@.len() <= max_batch,
            decreases max_batch - out@.len(),
        {
            if out.len() >= max_batch {
                break;
            }
            match consumer_try_pop(&mut self.ring) {
                Some(sample) => {
                    out.push(sample);
                },
                None => {
                    break;
                },
            }
        }
        out
    }
}

} // verus!
