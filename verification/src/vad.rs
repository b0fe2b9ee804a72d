//! The voice-activity detector: a two-state machine over fixed-size frames that
//! lets speech through and holds silence back.
//!
//! A frame is voiced when its mean energy reaches a threshold. The detector opens
//! after a run of voiced frames and closes after a run of unvoiced ones.
//! While it waits to open it holds the voiced frames seen so far, so that the
//! start of an utterance is not clipped; while it is open it holds unvoiced
//! frames until it knows whether they are a pause or the end.

use vstd::prelude::*;
use crate::stream::blocks;
use crate::stream::concat;
use crate::stream::lemma_concat_push;

verus! {

/// Consecutive voiced frames that open the detector, by default.
pub const DEFAULT_ONSET_FRAMES: usize = 3;

/// Consecutive unvoiced frames that close the detector, by default.
pub const DEFAULT_HANGOVER_FRAMES: usize = 5;

/// Mean energy per sample from which a frame counts as voiced, by default:
/// an RMS level of 500, about 36 dB below full scale.
pub const DEFAULT_ENERGY_THRESHOLD: u64 = 250_000;

/// The tunable constants of the detector.
#[derive(Clone, Copy, Debug, PartialEq, Eq, Structural)]
pub struct VadConfig {
    /// Consecutive voiced frames that open the detector; at least one.
    pub onset_frames: usize,
    /// Consecutive unvoiced frames that close the detector; at least one.
    pub hangover_frames: usize,
    /// Mean energy per sample from which a frame counts as voiced.
    pub energy_threshold: u64,
}

/// Whether the detector is closed or open.
#[derive(Clone, Copy, Debug, PartialEq, Eq, Structural)]
pub enum VadPhase {
    Silence,
    Speech,
}

/// The state of the detector: its phase and the frames it holds back, eldest
/// first. In `Silence` these are the voiced frames of a run that has not yet
/// opened the detector; in `Speech` they are the unvoiced frames of a run that
/// has not yet closed it.
pub struct GateState {
    pub phase: VadPhase,
    pub held: Seq<Seq<i16>>,
}

/// What the detector does with one frame: its next state and the segments it
/// emits.
pub struct GateStep {
    pub state: GateState,
    pub emitted: Seq<Seq<i16>>,
}

/// The sum of the squares of the samples.
pub open spec fn energy(frame: Seq<i16>) -> nat
    decreases frame.len(),
{
    if frame.len() == 0 {
        0
    } else {
        energy(frame.drop_last()) + (frame.last() as int * frame.last() as int) as nat
    }
}

/// A frame is voiced when it is not empty and its mean energy per sample is
/// at least the threshold.
pub open spec fn voiced(frame: Seq<i16>, threshold: nat) -> bool {
    frame.len() > 0 && energy(frame) >= threshold * frame.len()
}

/// Both run lengths are at least one frame.
pub open spec fn valid_config(config: VadConfig) -> bool {
    config.onset_frames >= 1 && config.hangover_frames >= 1
}

/// The detector holds back fewer frames than would change its phase, and none
/// of them is empty.
pub open spec fn valid_state(config: VadConfig, state: GateState) -> bool {
    &&& state.phase == VadPhase::Silence ==> state.held.len() < config.onset_frames
    &&& state.phase == VadPhase::Speech ==> state.held.len() < config.hangover_frames
    &&& forall|i: int| 0 <= i < state.held.len() ==> (#[trigger] state.held[i]).len() > 0
}

/// The state in which every detector starts: closed, holding nothing.
pub open spec fn initial_state() -> GateState {
    GateState { phase: VadPhase::Silence, held: Seq::empty() }
}

/// The detector's transition on one frame.
///
/// Closed: an unvoiced frame discards what is held. A voiced frame is held,
/// unless it completes the onset run: then the detector opens and emits the
/// held frames and this one as a single segment. Open: a voiced frame is
/// emitted at once, behind any unvoiced frames held before it. An unvoiced
/// frame is held, unless it completes the hangover run: then the detector closes
/// and emits the held frames and this one as the closing segment. An empty
/// frame changes nothing.
pub open spec fn gate_step(config: VadConfig, state: GateState, frame: Seq<i16>) -> GateStep {
    let is_voiced = voiced(frame, config.energy_threshold as nat);
    let flushed = GateState { phase: VadPhase::Speech, held: Seq::empty() };
    let segment = seq![concat(state.held) + frame];
    if frame.len() == 0 {
        GateStep { state, emitted: Seq::empty() }
    } else if state.phase == VadPhase::Silence {
        if !is_voiced {
            GateStep { state: initial_state(), emitted: Seq::empty() }
        } else if state.held.len() + 1 >= config.onset_frames {
            GateStep { state: flushed, emitted: segment }
        } else {
            GateStep {
                state: GateState { phase: VadPhase::Silence, held: state.held.push(frame) },
                emitted: Seq::empty(),
            }
        }
    } else {
        if is_voiced {
            GateStep { state: flushed, emitted: segment }
        } else if state.held.len() + 1 >= config.hangover_frames {
            GateStep { state: initial_state(), emitted: segment }
        } else {
            GateStep {
                state: GateState { phase: VadPhase::Speech, held: state.held.push(frame) },
                emitted: Seq::empty(),
            }
        }
    }
}

/// The detector's state after the frames `frames`, taken first to last, and all
/// the segments emitted on the way, in order.
pub open spec fn gate_run(config: VadConfig, state: GateState, frames: Seq<Seq<i16>>) -> GateStep
    decreases frames.len(),
{
    if frames.len() == 0 {
        GateStep { state, emitted: Seq::empty() }
    } else {
        let before = gate_run(config, state, frames.drop_last());
        let step = gate_step(config, before.state, frames.last());
        GateStep { state: step.state, emitted: before.emitted + step.emitted }
    }
}

/// The voice-activity detector.
#[derive(Debug)]
pub struct VadGate {
    config: VadConfig,
    phase: VadPhase,
    held: Vec<Vec<i16>>,
}

/// Appends the samples of `block` to `segment`.
fn append_block(segment: &mut Vec<i16>, block: &[i16])
    ensures
        final(segment)@ == old(segment)@ + block@,
{
    let mut i: usize = 0;
    while i < block.len()
        invariant
            i <= block@.len(),
            segment@ == old(segment)@ + block@.take(i as int),
        decreases block@.len() - i,
    {
        segment.push(block[i]);
        i = i + 1;
        assert(block@.take(i as int) == block@.take(i - 1).push(block@[i - 1]));
    }
    assert(block@.take(i as int) == block@);
}

/// Whether a frame is voiced at the given threshold.
pub fn is_voiced(frame: &[i16], threshold: u64) -> (b: bool)
    ensures
        b == voiced(frame@, threshold as nat),
{
    if frame.len() == 0 {
        return false;
    }
    let mut sum: u128 = 0;
    let mut i: usize = 0;
    while i < frame.len()
        invariant
            i <= frame@.len(),
            sum == energy(frame@.take(i as int)),
            sum <= i * 0x4000_0000,
        decreases frame@.len() - i,
    {
        let sample: i64 = frame[i] as i64;
        assert(0 <= sample * sample <= 0x4000_0000) by (nonlinear_arith)
            requires
                -32768 <= sample <= 32767,
        ;
        let square: u128 = (sample * sample) as u128;
        sum = sum + square;
        i = i + 1;
        assert(frame@.take(i as int).drop_last() == frame@.take(i - 1));
    }
    assert(frame@.take(i as int) == frame@);
    assert(threshold * frame@.len() < 0x1_0000_0000_0000_0000 * 0x1_0000_0000_0000_0000)
        by (nonlinear_arith)
        requires
            threshold < 0x1_0000_0000_0000_0000,
            frame@.len() < 0x1_0000_0000_0000_0000,
    ;
    let floor: u128 = (threshold as u128) * (frame.len() as u128);
    sum >= floor
}

impl VadGate {
    /// The constants the detector was made with.
    pub closed spec fn config(&self) -> VadConfig {
        self.config
    }

    /// The state of the detector.
    pub closed spec fn state(&self) -> GateState {
        GateState { phase: self.phase, held: blocks(self.held) }
    }

    /// The constants and the state are valid.
    pub open spec fn wf(&self) -> bool {
        valid_config(self.config()) && valid_state(self.config(), self.state())
    }

    /// A closed detector with the default constants.
    pub fn new() -> (gate: Self)
        ensures
            gate.wf(),
            gate.state() == initial_state(),
            gate.config() == (VadConfig {
                onset_frames: DEFAULT_ONSET_FRAMES,
                hangover_frames: DEFAULT_HANGOVER_FRAMES,
                energy_threshold: DEFAULT_ENERGY_THRESHOLD,
            }),
    {
        let gate = VadGate {
            config: VadConfig {
                onset_frames: DEFAULT_ONSET_FRAMES,
                hangover_frames: DEFAULT_HANGOVER_FRAMES,
                energy_threshold: DEFAULT_ENERGY_THRESHOLD,
            },
            phase: VadPhase::Silence,
            held: Vec::new(),
        };
        assert(gate.state().held =~= Seq::<Seq<i16>>::empty());
        gate
    }

    /// A closed detector with the given constants, or `None` when a run length
    /// is zero.
    pub fn with_config(config: VadConfig) -> (gate: Option<Self>)
        ensures
            gate.is_some() <==> valid_config(config),
            gate matches Some(g) ==> g.wf() && g.state() == initial_state() && g.config() == config,
    {
        if config.onset_frames == 0 || config.hangover_frames == 0 {
            return None;
        }
        let gate = VadGate { config, phase: VadPhase::Silence, held: Vec::new() };
        assert(gate.state().held =~= Seq::<Seq<i16>>::empty());
        Some(gate)
    }

    /// Whether the detector is closed or open.
    pub fn phase(&self) -> (phase: VadPhase)
        ensures
            phase == self.state().phase,
    {
        self.phase
    }

    /// The number of frames held back.
    pub fn held_frames(&self) -> (n: usize)
        ensures
            n == self.state().held.len(),
    {
        self.held.len()
    }

    /// Joins the held frames and `frame` into one segment and lets go of the
    /// held frames.
    fn flush(&mut self, frame: Vec<i16>) -> (segment: Vec<i16>)
        ensures
            segment@ == concat(old(self).state().held) + frame@,
            final(self).held@.len() == 0,
            final(self).config == old(self).config,
            final(self).phase == old(self).phase,
    {
        let mut segment: Vec<i16> = Vec::new();
        let mut i: usize = 0;
        let ghost held = blocks(self.held);
        while i < self.held.len()
            invariant
                i <= self.held@.len(),
                held == blocks(self.held),
                segment@ == concat(held.take(i as int)),
                self.config == old(self).config,
                self.phase == old(self).phase,
                self.held == old(self).held,
            decreases self.held@.len() - i,
        {
            append_block(&mut segment, self.held[i].as_slice());
            i = i + 1;
            proof {
                assert(held.take(i as int) == held.take(i - 1).push(held[i - 1]));
                lemma_concat_push(held.take(i - 1), held[i - 1]);
            }
        }
        assert(held.take(i as int) == held);
        append_block(&mut segment, frame.as_slice());
        self.held.clear();
        segment
    }

    /// Takes the next frame of the stream and returns the segments that it
    /// releases: none, or one. No segment is empty.
    pub fn process(&mut self, frame: Vec<i16>) -> (emitted: Vec<Vec<i16>>)
        requires
            old(self).wf(),
        ensures
            final(self).wf(),
            final(self).config() == old(self).config(),
            final(self).state() == gate_step(old(self).config(), old(self).state(), frame@).state,
            blocks(emitted) == gate_step(old(self).config(), old(self).state(), frame@).emitted,
            forall|k: int| 0 <= k < emitted@.len() ==> (#[trigger] emitted@[k])@.len() > 0,
    {
        let ghost before = self.state();
        let ghost step = gate_step(self.config, before, frame@);
        let mut emitted: Vec<Vec<i16>> = Vec::new();
        if frame.len() == 0 {
            assert(blocks(emitted) =~= step.emitted);
            return emitted;
        }
        let is_voiced = is_voiced(frame.as_slice(), self.config.energy_threshold);
        match self.phase {
            VadPhase::Silence => {
                if !is_voiced {
                    self.held.clear();
                } else if self.held.len() + 1 >= self.config.onset_frames {
                    let segment = self.flush(frame);
                    self.phase = VadPhase::Speech;
                    emitted.push(segment);
                } else {
                    self.held.push(frame);
                }
            },
            VadPhase::Speech => {
                if is_voiced {
                    let segment = self.flush(frame);
                    emitted.push(segment);
                } else if self.held.len() + 1 >= self.config.hangover_frames {
                    let segment = self.flush(frame);
                    self.phase = VadPhase::Silence;
                    emitted.push(segment);
                } else {
                    self.held.push(frame);
                }
            },
        }
        assert(self.state().held =~= step.state.held);
        assert(blocks(emitted) =~= step.emitted);
        emitted
    }
}

} // verus!
