//! The lock-free ring buffer that carries raw samples, and what is taken on
//! trust about it.
//!
//! Everything here is believed, not proved. A ring with a single owner is
//! deterministic, so its contents have a name that the contracts speak of.
//! Once a ring is split into a producer and a consumer end, the other end may
//! act between any two calls; of those ends only what holds of every
//! interleaving is stated.

use vstd::prelude::*;
use ringbuf::traits::Consumer;
use ringbuf::traits::Producer;
use ringbuf::traits::Split;

verus! {

/// A heap-allocated ring of raw samples with a single owner
/// (`ringbuf::HeapRb<u32>`).
#[verifier::external_body]
pub struct SampleRing {
    inner: ringbuf::HeapRb<u32>,
}

/// The write end of a ring that has been split (`ringbuf::HeapProd<u32>`).
#[verifier::external_body]
pub struct RingProducer {
    inner: ringbuf::HeapProd<u32>,
}

/// The read end of a ring that has been split (`ringbuf::HeapCons<u32>`).
#[verifier::external_body]
pub struct RingConsumer {
    inner: ringbuf::HeapCons<u32>,
}

/// The samples queued in a ring that has a single owner, eldest first.
pub uninterp spec fn ring_contents(ring: SampleRing) -> Seq<u32>;

/// The fixed number of slots of a ring.
pub uninterp spec fn ring_capacity(ring: SampleRing) -> nat;

/// How many of `offered` samples fit into a ring of `capacity` slots that
/// already holds `queued` samples.
pub open spec fn accepted_len(capacity: nat, queued: nat, offered: nat) -> nat {
    if queued + offered <= capacity {
        offered
    } else if queued <= capacity {
        (capacity - queued) as nat
    } else {
        0
    }
}

/// `HeapRb::new`, which panics on a capacity of zero and on a byte size that
/// a `Vec` cannot have: the result is an empty ring with exactly `capacity`
/// slots.
#[verifier::external_body]
pub(crate) fn ring_new(capacity: usize) -> (ring: SampleRing)
    requires
        0 < capacity,
        capacity * 4 <= isize::MAX,
    ensures
        ring_contents(ring) == Seq::<u32>::empty(),
        ring_capacity(ring) == capacity,
{
    SampleRing { inner: ringbuf::HeapRb::<u32>::new(capacity) }
}

/// `Producer::push_slice` on a ring with a single owner: the longest prefix
/// of `batch` that fits into the vacant slots is appended, and its length is
/// returned.
#[verifier::external_body]
pub(crate) fn ring_push_slice(ring: &mut SampleRing, batch: &[u32]) -> (accepted: usize)
    ensures
        accepted == accepted_len(
            ring_capacity(*old(ring)),
            ring_contents(*old(ring)).len(),
            batch@.len(),
        ),
        ring_contents(*final(ring)) == ring_contents(*old(ring)) + batch@.take(accepted as int),
        ring_capacity(*final(ring)) == ring_capacity(*old(ring)),
{
    ring.inner.push_slice(batch)
}

/// `Consumer::try_pop` on a ring with a single owner: the eldest sample is
/// removed and returned, or `None` when the ring is empty.
#[verifier::external_body]
pub(crate) fn ring_try_pop(ring: &mut SampleRing) -> (sample: Option<u32>)
    ensures
        ring_capacity(*final(ring)) == ring_capacity(*old(ring)),
        ring_contents(*old(ring)).len() == 0 ==> sample.is_none() && ring_contents(*final(ring))
            == ring_contents(*old(ring)),
        ring_contents(*old(ring)).len() > 0 ==> sample == Some(ring_contents(*old(ring))[0])
            && ring_contents(*final(ring)) == ring_contents(*old(ring)).skip(1),
{
    ring.inner.try_pop()
}

/// `Split::split`: the two ends of the ring. Nothing is stated of them.
#[verifier::external_body]
pub(crate) fn ring_split(ring: SampleRing) -> (ends: (RingProducer, RingConsumer)) {
    let (producer, consumer) = ring.inner.split();
    (RingProducer { inner: producer }, RingConsumer { inner: consumer })
}

/// `Producer::push_slice` on the write end: some prefix of `batch` is
/// appended and its length returned. How long it is depends on what the read
/// end has taken out by then.
#[verifier::external_body]
pub(crate) fn producer_push_slice(producer: &mut RingProducer, batch: &[u32]) -> (accepted: usize)
    ensures
        accepted <= batch@.len(),
{
    producer.inner.push_slice(batch)
}

/// `Consumer::try_pop` on the read end: the eldest sample, if the write end
/// has made one visible. Nothing is stated of it.
#[verifier::external_body]
pub(crate) fn consumer_try_pop(consumer: &mut RingConsumer) -> (sample: Option<u32>) {
    consumer.inner.try_pop()
}

} // verus!
