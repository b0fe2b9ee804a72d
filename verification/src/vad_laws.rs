//! What holds of the voice-activity detector over whole streams of frames.

use vstd::prelude::*;
use crate::stream::concat;
use crate::stream::lemma_concat_add;
use crate::stream::lemma_concat_front;
use crate::stream::lemma_concat_push;
use crate::stream::lemma_concat_small;
use crate::vad::GateState;
use crate::vad::GateStep;
use crate::vad::VadConfig;
use crate::vad::VadPhase;
use crate::vad::gate_run;
use crate::vad::gate_step;
use crate::vad::initial_state;
use crate::vad::valid_config;
use crate::vad::valid_state;
use crate::vad::voiced;

verus! {

/// One step keeps the state valid and emits no empty segment.
pub proof fn lemma_step_valid(config: VadConfig, state: GateState, frame: Seq<i16>)
    requires
        valid_config(config),
        valid_state(config, state),
    ensures
        valid_state(config, gate_step(config, state, frame).state),
        gate_step(config, state, frame).emitted.len() <= 1,
        forall|k: int|
            0 <= k < gate_step(config, state, frame).emitted.len() ==> (#[trigger] gate_step(
                config,
                state,
                frame,
            ).emitted[k]).len() > 0,
{
}

/// Whatever the stream, the detector's state stays valid and no segment it
/// emits is empty.
pub proof fn lemma_never_emits_empty(config: VadConfig, state: GateState, frames: Seq<Seq<i16>>)
    requires
        valid_config(config),
        valid_state(config, state),
    ensures
        valid_state(config, gate_run(config, state, frames).state),
        forall|k: int|
            0 <= k < gate_run(config, state, frames).emitted.len() ==> (#[trigger] gate_run(
                config,
                state,
                frames,
            ).emitted[k]).len() > 0,
    decreases frames.len(),
{
    if frames.len() > 0 {
        lemma_never_emits_empty(config, state, frames.drop_last());
        let before = gate_run(config, state, frames.drop_last());
        lemma_step_valid(config, before.state, frames.last());
    }
}

/// One step loses nothing of an utterance: unless the detector is closed and the
/// frame unvoiced, what was held followed by the frame is what is emitted
/// followed by what is held afterwards.
pub proof fn lemma_step_conserves(config: VadConfig, state: GateState, frame: Seq<i16>)
    requires
        state.phase == VadPhase::Speech || voiced(frame, config.energy_threshold as nat),
    ensures
        concat(gate_step(config, state, frame).emitted) + concat(
            gate_step(config, state, frame).state.held,
        ) == concat(state.held) + frame,
{
    let step = gate_step(config, state, frame);
    lemma_concat_small(concat(state.held) + frame);
    if step.emitted.len() == 0 {
        if frame.len() > 0 {
            lemma_concat_push(state.held, frame);
        }
        assert(concat(state.held) + frame == Seq::<i16>::empty() + (concat(state.held) + frame));
    } else {
        assert(step.emitted == seq![concat(state.held) + frame]);
        assert(step.state.held == Seq::<Seq<i16>>::empty());
        assert(concat(state.held) + frame == (concat(state.held) + frame) + Seq::<i16>::empty());
    }
}

/// An open detector neither drops nor repeats a sample: for as long as it stays
/// open, pauses included, what it held at first followed by all the frames
/// it took is what it emitted followed by what it holds now. The last frame
/// may be the one that closes it.
pub proof fn lemma_open_gate_is_lossless(
    config: VadConfig,
    state: GateState,
    frames: Seq<Seq<i16>>,
)
    requires
        forall|n: int|
            0 <= n < frames.len() ==> (#[trigger] gate_run(
                config,
                state,
                frames.take(n),
            )).state.phase == VadPhase::Speech,
    ensures
        concat(gate_run(config, state, frames).emitted) + concat(
            gate_run(config, state, frames).state.held,
        ) == concat(state.held) + concat(frames),
    decreases frames.len(),
{
    if frames.len() == 0 {
        lemma_concat_small(Seq::empty());
        assert(Seq::<i16>::empty() + concat(state.held) == concat(state.held) + Seq::<i16>::empty());
    } else {
        let init = frames.drop_last();
        let last = frames.last();
        assert forall|n: int| 0 <= n < init.len() implies (#[trigger] gate_run(
            config,
            state,
            init.take(n),
        )).state.phase == VadPhase::Speech by {
            assert(init.take(n) == frames.take(n));
        }
        lemma_open_gate_is_lossless(config, state, init);
        let before = gate_run(config, state, init);
        assert(frames.take(frames.len() - 1) == init);
        assert(before.state.phase == VadPhase::Speech);
        let step = gate_step(config, before.state, last);
        lemma_step_conserves(config, before.state, last);
        lemma_concat_add(before.emitted, step.emitted);
        let a = concat(before.emitted);
        let b = concat(step.emitted);
        let c = concat(step.state.held);
        assert((a + b) + c == a + (b + c));
        assert(a + (concat(before.state.held) + last) == (a + concat(before.state.held)) + last);
        assert((concat(state.held) + concat(init)) + last == concat(state.held) + (concat(init)
            + last));
    }
}

/// Running the detector over two streams in a row is running it over the first
/// and then, from where that ended, over the second.
pub proof fn lemma_run_add(
    config: VadConfig,
    state: GateState,
    first: Seq<Seq<i16>>,
    second: Seq<Seq<i16>>,
)
    ensures
        gate_run(config, state, first + second).state == gate_run(
            config,
            gate_run(config, state, first).state,
            second,
        ).state,
        gate_run(config, state, first + second).emitted == gate_run(config, state, first).emitted
            + gate_run(config, gate_run(config, state, first).state, second).emitted,
    decreases second.len(),
{
    let middle = gate_run(config, state, first).state;
    if second.len() == 0 {
        assert(first + second == first);
        assert(gate_run(config, state, first).emitted + Seq::<Seq<i16>>::empty() == gate_run(
            config,
            state,
            first,
        ).emitted);
    } else {
        lemma_run_add(config, state, first, second.drop_last());
        assert((first + second).drop_last() == first + second.drop_last());
        assert((first + second).last() == second.last());
        let a = gate_run(config, state, first).emitted;
        let b = gate_run(config, middle, second.drop_last()).emitted;
        let c = gate_step(
            config,
            gate_run(config, middle, second.drop_last()).state,
            second.last(),
        ).emitted;
        assert((a + b) + c == a + (b + c));
    }
}

/// A closed detector that holds nothing stays so over unvoiced frames, and emits
/// nothing.
pub proof fn lemma_silence_passes_nothing(config: VadConfig, frames: Seq<Seq<i16>>)
    requires
        forall|i: int|
            0 <= i < frames.len() ==> !voiced(#[trigger] frames[i], config.energy_threshold as nat),
    ensures
        gate_run(config, initial_state(), frames).state == initial_state(),
        gate_run(config, initial_state(), frames).emitted == Seq::<Seq<i16>>::empty(),
    decreases frames.len(),
{
    if frames.len() > 0 {
        lemma_silence_passes_nothing(config, frames.drop_last());
        assert(frames.drop_last().len() == frames.len() - 1);
        assert(!voiced(frames[frames.len() - 1], config.energy_threshold as nat));
    }
}

/// The first `n` frames of a voiced run, offered to a closed detector that holds
/// nothing: short of the onset length they are held; from the onset length
/// on, the detector is open, the first segment is the onset run joined and every
/// later frame is a segment of its own.
proof fn lemma_onset(config: VadConfig, speech: Seq<Seq<i16>>, n: nat)
    requires
        valid_config(config),
        n <= speech.len(),
        forall|i: int|
            0 <= i < speech.len() ==> voiced(#[trigger] speech[i], config.energy_threshold as nat),
    ensures
        n < config.onset_frames ==> gate_run(config, initial_state(), speech.take(n as int))
            == (GateStep {
            state: GateState { phase: VadPhase::Silence, held: speech.take(n as int) },
            emitted: Seq::empty(),
        }),
        n >= config.onset_frames ==> gate_run(config, initial_state(), speech.take(n as int))
            == (GateStep {
            state: GateState { phase: VadPhase::Speech, held: Seq::empty() },
            emitted: seq![concat(speech.take(config.onset_frames as int))] + speech.subrange(
                config.onset_frames as int,
                n as int,
            ),
        }),
    decreases n,
{
    let k = config.onset_frames as int;
    let run = gate_run(config, initial_state(), speech.take(n as int));
    if n == 0 {
        assert(speech.take(0) =~= Seq::<Seq<i16>>::empty());
        assert(run.state.held =~= speech.take(0));
    } else {
        lemma_onset(config, speech, (n - 1) as nat);
        assert(speech.take(n as int).drop_last() == speech.take(n - 1));
        assert(speech.take(n as int).last() == speech[n - 1]);
        let frame = speech[n - 1];
        assert(voiced(frame, config.energy_threshold as nat));
        let before = gate_run(config, initial_state(), speech.take(n - 1));
        let step = gate_step(config, before.state, frame);
        if n < k {
            assert(step.state.held == speech.take(n as int));
            assert(run.emitted =~= Seq::<Seq<i16>>::empty());
        } else if n == k {
            lemma_concat_push(speech.take(n - 1), frame);
            assert(speech.take(n - 1).push(frame) == speech.take(n as int));
            assert(speech.subrange(k, n as int) =~= Seq::<Seq<i16>>::empty());
            assert(run.emitted =~= seq![concat(speech.take(k))] + speech.subrange(k, n as int));
        } else {
            lemma_concat_small(frame);
            assert(concat(Seq::<Seq<i16>>::empty()) + frame == frame);
            assert(step.emitted == seq![frame]);
            assert(speech.subrange(k, n - 1) + seq![frame] == speech.subrange(k, n as int));
            assert(run.emitted =~= seq![concat(speech.take(k))] + speech.subrange(k, n as int));
        }
    }
}

/// The first `n` frames of an unvoiced run, offered to an open detector that
/// holds nothing: short of the hangover length they are held; at the
/// hangover length the detector closes and emits them joined.
proof fn lemma_hangover(config: VadConfig, tail: Seq<Seq<i16>>, n: nat)
    requires
        valid_config(config),
        n <= tail.len(),
        n <= config.hangover_frames,
        forall|i: int|
            0 <= i < tail.len() ==> (#[trigger] tail[i]).len() > 0 && !voiced(
                tail[i],
                config.energy_threshold as nat,
            ),
    ensures
        n < config.hangover_frames ==> gate_run(
            config,
            GateState { phase: VadPhase::Speech, held: Seq::empty() },
            tail.take(n as int),
        ) == (GateStep {
            state: GateState { phase: VadPhase::Speech, held: tail.take(n as int) },
            emitted: Seq::empty(),
        }),
        n == config.hangover_frames ==> gate_run(
            config,
            GateState { phase: VadPhase::Speech, held: Seq::empty() },
            tail.take(n as int),
        ) == (GateStep { state: initial_state(), emitted: seq![concat(tail.take(n as int))] }),
    decreases n,
{
    let open = GateState { phase: VadPhase::Speech, held: Seq::empty() };
    let run = gate_run(config, open, tail.take(n as int));
    if n == 0 {
        assert(tail.take(0) =~= Seq::<Seq<i16>>::empty());
        assert(run.state.held =~= tail.take(0));
    } else {
        lemma_hangover(config, tail, (n - 1) as nat);
        assert(tail.take(n as int).drop_last() == tail.take(n - 1));
        assert(tail.take(n as int).last() == tail[n - 1]);
        let frame = tail[n - 1];
        assert(frame.len() > 0 && !voiced(frame, config.energy_threshold as nat));
        let before = gate_run(config, open, tail.take(n - 1));
        let step = gate_step(config, before.state, frame);
        assert(tail.take(n - 1).push(frame) == tail.take(n as int));
        if n < config.hangover_frames {
            assert(run.emitted =~= Seq::<Seq<i16>>::empty());
        } else {
            lemma_concat_push(tail.take(n - 1), frame);
            assert(run.emitted =~= seq![concat(tail.take(n as int))]);
        }
    }
}

/// An isolated utterance comes out whole. Let a closed detector that holds
/// nothing take unvoiced frames, then a voiced run at least as long as the
/// onset length, then an unvoiced run of exactly the hangover length. It then
/// emits: the onset run joined into a first segment, so that the start of the
/// utterance is not clipped; every further voiced frame as a segment of its
/// own; and the hangover run joined into a closing segment. Joined, the
/// segments are the voiced run followed by the hangover run, sample for
/// sample. The detector ends closed, holding nothing.
pub proof fn lemma_isolated_utterance(
    config: VadConfig,
    lead: Seq<Seq<i16>>,
    speech: Seq<Seq<i16>>,
    tail: Seq<Seq<i16>>,
)
    requires
        valid_config(config),
        forall|i: int|
            0 <= i < lead.len() ==> !voiced(#[trigger] lead[i], config.energy_threshold as nat),
        forall|i: int|
            0 <= i < speech.len() ==> voiced(#[trigger] speech[i], config.energy_threshold as nat),
        forall|i: int|
            0 <= i < tail.len() ==> (#[trigger] tail[i]).len() > 0 && !voiced(
                tail[i],
                config.energy_threshold as nat,
            ),
        speech.len() >= config.onset_frames,
        tail.len() == config.hangover_frames,
    ensures
        gate_run(config, initial_state(), lead + speech + tail).state == initial_state(),
        gate_run(config, initial_state(), lead + speech + tail).emitted == seq![
            concat(speech.take(config.onset_frames as int)),
        ] + speech.skip(config.onset_frames as int) + seq![concat(tail)],
        concat(gate_run(config, initial_state(), lead + speech + tail).emitted) == concat(
            speech + tail,
        ),
{
    let k = config.onset_frames as int;
    let open = GateState { phase: VadPhase::Speech, held: Seq::empty() };
    lemma_silence_passes_nothing(config, lead);
    lemma_onset(config, speech, speech.len());
    lemma_hangover(config, tail, tail.len());
    assert(speech.take(speech.len() as int) == speech);
    assert(tail.take(tail.len() as int) == tail);
    assert(speech.subrange(k, speech.len() as int) == speech.skip(k));
    lemma_run_add(config, initial_state(), lead, speech);
    lemma_run_add(config, initial_state(), lead + speech, tail);
    let first = seq![concat(speech.take(k))];
    let emitted = gate_run(config, initial_state(), lead + speech + tail).emitted;
    assert(emitted == Seq::<Seq<i16>>::empty() + (first + speech.skip(k)) + seq![concat(tail)]);
    assert(emitted == first + speech.skip(k) + seq![concat(tail)]);
    // Joined, the segments are the frames of the utterance.
    lemma_concat_add(first + speech.skip(k), seq![concat(tail)]);
    lemma_concat_small(concat(tail));
    lemma_concat_front(concat(speech.take(k)), speech.skip(k));
    lemma_concat_add(speech.take(k), speech.skip(k));
    assert(speech.take(k) + speech.skip(k) == speech);
    lemma_concat_add(speech, tail);
}

} // verus!
