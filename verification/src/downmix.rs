//! Reduction of interleaved multi-channel capture data to mono, ahead of
//! the bridge.
//!
//! One channel passes as it is. Two channels are averaged pair by pair.
//! With any other number of channels the first channel of each frame is
//! taken.

use vstd::prelude::*;
use vstd::arithmetic::div_mod::*;
use crate::mixing::average;
use crate::mixing::average_of;

verus! {

/// The first channel of every whole frame of `channels` samples. With no
/// channels there are no frames.
pub open spec fn first_channel(interleaved: Seq<u32>, channels: nat) -> Seq<u32> {
    if channels == 0 {
        Seq::empty()
    } else {
        Seq::new(interleaved.len() / channels, |i: int| interleaved[i * channels])
    }
}

/// The average of left and right for every whole stereo frame.
pub open spec fn averaged_pairs(interleaved: Seq<u32>) -> Seq<u32> {
    Seq::new(
        interleaved.len() / 2,
        |i: int| average_of(interleaved[2 * i], interleaved[2 * i + 1]) as u32,
    )
}

/// The mono rendering of interleaved samples: the samples themselves for one
/// channel, the averaged pairs for two, the first channel of each frame
/// otherwise.
pub open spec fn mono_of(interleaved: Seq<u32>, channels: nat) -> Seq<u32> {
    if channels == 1 {
        interleaved
    } else if channels == 2 {
        averaged_pairs(interleaved)
    } else {
        first_channel(interleaved, channels)
    }
}

/// Replaces the contents of `mono` by the first channel of every whole frame.
pub fn take_first_channel(interleaved: &[u32], channels: usize, mono: &mut Vec<u32>)
    ensures
        final(mono)@ == first_channel(interleaved@, channels as nat),
{
    mono.clear();
    if channels == 0 {
        return ;
    }
    let mut start: usize = 0;
    while interleaved.len() - start >= channels
        invariant
            channels > 0,
            start <= interleaved@.len(),
            start == mono@.len() * channels,
            forall|i: int| 0 <= i < mono@.len() ==> mono@[i] == interleaved@[i * channels],
        decreases interleaved@.len() - start,
    {
        mono.push(interleaved[start]);
        proof {
            let n = mono@.len() as int;
            assert(n * channels == (n - 1) * channels + channels) by (nonlinear_arith);
        }
        start = start + channels;
    }
    proof {
        let n = mono@.len() as int;
        let rest = interleaved@.len() - start;
        assert(channels * n == n * channels) by (nonlinear_arith);
        lemma_fundamental_div_mod_converse(interleaved@.len() as int, channels as int, n, rest);
        assert(mono@ =~= first_channel(interleaved@, channels as nat));
    }
}

/// Replaces the contents of `mono` by the average of left and right for
/// every whole stereo frame.
pub fn average_pairs(interleaved: &[u32], mono: &mut Vec<u32>)
    ensures
        final(mono)@ == averaged_pairs(interleaved@),
{
    mono.clear();
    let mut start: usize = 0;
    while interleaved.len() - start >= 2
        invariant
            start <= interleaved@.len(),
            start == mono@.len() * 2,
            forall|i: int|
                0 <= i < mono@.len() ==> mono@[i] == average_of(
                    interleaved@[2 * i],
                    interleaved@[2 * i + 1],
                ),
        decreases interleaved@.len() - start,
    {
        mono.push(average(interleaved[start], interleaved[start + 1]));
        start = start + 2;
    }
    assert(mono@ =~= averaged_pairs(interleaved@));
}

/// Replaces the contents of `mono` by the mono rendering of `interleaved`.
pub fn downmix(interleaved: &[u32], channels: usize, mono: &mut Vec<u32>)
    ensures
        final(mono)@ == mono_of(interleaved@, channels as nat),
{
    if channels == 2 {
        average_pairs(interleaved, mono);
    } else {
        take_first_channel(interleaved, channels, mono);
        assert(channels == 1 ==> mono@ =~= interleaved@);
    }
}

} // verus!
