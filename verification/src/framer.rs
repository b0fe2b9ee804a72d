//! Slicing of the canonical sample stream into fixed-size frames.

use vstd::prelude::*;
use vstd::arithmetic::div_mod::*;
use crate::stream::blocks;
use crate::stream::concat;

verus! {

/// Samples in a frame: 100 ms at the canonical rate.
pub const FRAME_SIZE: usize = 1600;

/// The number of whole frames in `stream`.
pub open spec fn frame_count(stream: Seq<i16>) -> nat {
    stream.len() / (FRAME_SIZE as nat)
}

/// The whole frames of `stream`, in order.
pub open spec fn frames_of(stream: Seq<i16>) -> Seq<Seq<i16>> {
    Seq::new(
        frame_count(stream),
        |k: int| stream.subrange(k * FRAME_SIZE, k * FRAME_SIZE + FRAME_SIZE),
    )
}

/// What is left of `stream` behind its last whole frame.
pub open spec fn remainder_of(stream: Seq<i16>) -> Seq<i16> {
    stream.skip(frame_count(stream) * FRAME_SIZE)
}

/// Framing loses nothing: the frames, joined, followed by the remainder are
/// the stream. Every frame has exactly `FRAME_SIZE` samples and the
/// remainder has fewer.
pub proof fn lemma_framing_is_lossless(stream: Seq<i16>)
    ensures
        concat(frames_of(stream)) + remainder_of(stream) == stream,
        forall|k: int| 0 <= k < frames_of(stream).len() ==> (#[trigger] frames_of(stream)[k]).len()
            == FRAME_SIZE,
        remainder_of(stream).len() < FRAME_SIZE,
        frames_of(stream).len() * FRAME_SIZE + remainder_of(stream).len() == stream.len(),
{
    lemma_frames_prefix(stream, frame_count(stream));
    assert(frames_of(stream).take(frame_count(stream) as int) == frames_of(stream));
    assert(stream == stream.take(frame_count(stream) * FRAME_SIZE) + remainder_of(stream));
}

/// The first `n` frames, joined, are the first `n * FRAME_SIZE` samples.
proof fn lemma_frames_prefix(stream: Seq<i16>, n: nat)
    requires
        n <= frame_count(stream),
    ensures
        concat(frames_of(stream).take(n as int)) == stream.take(n * FRAME_SIZE),
    decreases n,
{
    let first = frames_of(stream).take(n as int);
    if n == 0 {
        assert(first.len() == 0);
        assert(stream.take(0) == Seq::<i16>::empty());
    } else {
        lemma_frames_prefix(stream, (n - 1) as nat);
        assert(first.drop_last() == frames_of(stream).take(n - 1));
        assert(first.last() == stream.subrange((n - 1) * FRAME_SIZE, (n - 1) * FRAME_SIZE
            + FRAME_SIZE));
        assert(stream.take((n - 1) * FRAME_SIZE) + first.last() == stream.take(n * FRAME_SIZE));
    }
}

/// Framing does not depend on how the stream is cut into batches: framing
/// `first`, and then `second` behind what was left over, gives the frames and
/// the remainder of framing both at once.
pub proof fn lemma_framing_composes(first: Seq<i16>, second: Seq<i16>)
    ensures
        frames_of(first) + frames_of(remainder_of(first) + second) == frames_of(first + second),
        remainder_of(remainder_of(first) + second) == remainder_of(first + second),
{
    let size = FRAME_SIZE as int;
    let whole = first + second;
    let n = frame_count(first) as int;
    let rest = remainder_of(first) + second;
    let m = frame_count(rest) as int;
    lemma_framing_is_lossless(first);
    assert(rest.len() == whole.len() - n * size);
    assert(frame_count(whole) == n + m) by {
        lemma_fundamental_div_mod(rest.len() as int, size);
        lemma_mod_bound(rest.len() as int, size);
        assert(size * m == m * size) by (nonlinear_arith);
        assert(whole.len() == (n + m) * size + rest.len() % (size as nat)) by (nonlinear_arith)
            requires
                whole.len() == n * size + rest.len(),
                rest.len() == m * size + rest.len() % (size as nat),
        ;
        assert(size * (n + m) == (n + m) * size) by (nonlinear_arith);
        lemma_fundamental_div_mod_converse(
            whole.len() as int,
            size,
            n + m,
            (rest.len() % (size as nat)) as int,
        );
    }
    assert(rest =~= whole.skip(n * size));
    let joined = frames_of(first) + frames_of(rest);
    assert(joined.len() == frames_of(whole).len());
    assert forall|k: int| 0 <= k < joined.len() implies joined[k] == frames_of(whole)[k] by {
        if k < n {
            assert(k * size + size <= n * size) by (nonlinear_arith)
                requires
                    k < n,
                    size > 0,
            ;
            assert(first.subrange(k * size, k * size + size) =~= whole.subrange(
                k * size,
                k * size + size,
            ));
        } else {
            let j = k - n;
            assert(j * size + n * size == k * size) by (nonlinear_arith)
                requires
                    j == k - n,
            ;
            assert(j * size + size <= m * size) by (nonlinear_arith)
                requires
                    j < m,
                    size > 0,
            ;
            assert(frames_of(rest)[j] == rest.subrange(j * size, j * size + size));
            assert(rest.subrange(j * size, j * size + size) =~= whole.subrange(
                k * size,
                k * size + size,
            ));
        }
    }
    assert(joined =~= frames_of(whole));
    assert((n + m) * size == n * size + m * size) by (nonlinear_arith);
    assert(remainder_of(rest) =~= remainder_of(whole));
}

/// The accumulator of samples that do not yet fill a frame.
#[derive(Debug)]
pub struct Framer {
    pending: Vec<i16>,
}

impl Framer {
    /// The samples held back, eldest first.
    pub closed spec fn pending(&self) -> Seq<i16> {
        self.pending@
    }

    /// Fewer samples are held back than make a frame.
    pub closed spec fn wf(&self) -> bool {
        self.pending@.len() < FRAME_SIZE
    }

    /// A framer that holds nothing.
    pub fn new() -> (framer: Self)
        ensures
            framer.wf(),
            framer.pending() == Seq::<i16>::empty(),
    {
        Framer { pending: Vec::with_capacity(FRAME_SIZE) }
    }

    /// The number of samples held back.
    pub fn pending_len(&self) -> (n: usize)
        ensures
            n == self.pending().len(),
    {
        self.pending.len()
    }

    /// Appends `samples` to what is held back and cuts every whole frame
    /// off the front. The frames come in stream order; what does not fill a
    /// frame is held back for the next call.
    pub fn push(&mut self, samples: &[i16]) -> (frames: Vec<Vec<i16>>)
        requires
            old(self).wf(),
        ensures
            final(self).wf(),
            blocks(frames) == frames_of(old(self).pending() + samples@),
            final(self).pending() == remainder_of(old(self).pending() + samples@),
            concat(blocks(frames)) + final(self).pending() == old(self).pending() + samples@,
            forall|k: int| 0 <= k < frames@.len() ==> (#[trigger] frames@[k])@.len() == FRAME_SIZE,
    {
        let ghost stream = self.pending@ + samples@;
        let ghost held = self.pending@.len();
        let mut frames: Vec<Vec<i16>> = Vec::new();
        let mut i: usize = 0;
        while i < samples.len()
            invariant
                i <= samples@.len(),
                stream == old(self).pending@ + samples@,
                held == old(self).pending@.len(),
                held < FRAME_SIZE,
                self.pending@.len() < FRAME_SIZE,
                frames@.len() * FRAME_SIZE + self.pending@.len() == held + i,
                self.pending@ == stream.subrange(frames@.len() * FRAME_SIZE, held + i),
                forall|k: int|
                    0 <= k < frames@.len() ==> (#[trigger] frames@[k])@ == stream.subrange(
                        k * FRAME_SIZE,
                        k * FRAME_SIZE + FRAME_SIZE,
                    ),
            decreases samples@.len() - i,
        {
            self.pending.push(samples[i]);
            i = i + 1;
            assert(self.pending@ == stream.subrange(frames@.len() * FRAME_SIZE, held + i));
            if self.pending.len() == FRAME_SIZE {
                let mut full: Vec<i16> = Vec::with_capacity(FRAME_SIZE);
                std::mem::swap(&mut self.pending, &mut full);
                frames.push(full);
                assert(self.pending@ == stream.subrange(frames@.len() * FRAME_SIZE, held + i));
            }
        }
        proof {
            assert(frames@.len() == frame_count(stream));
            assert(blocks(frames) =~= frames_of(stream));
            assert(self.pending@ == remainder_of(stream));
            lemma_framing_is_lossless(stream);
        }
        frames
    }
}

} // verus!
