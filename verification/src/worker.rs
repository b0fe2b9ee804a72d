//! The worker's side of the pipeline: drain, convert, frame, detect, emit.
//!
//! The worker owns the read end of the bridge and all state behind it. It
//! makes every decision of an iteration; what it cannot do itself (sleeping,
//! running the platform converter, handing segments to the sink) it asks of
//! its caller through the step it returns.

use vstd::prelude::*;
use crate::bridge::BridgeConsumer;
use crate::format::StreamDescription;
use crate::framer::Framer;
use crate::framer::frame_count;
use crate::framer::frames_of;
use crate::framer::lemma_framing_composes;
use crate::framer::remainder_of;
use crate::resampler::ConvertPlan;
use crate::resampler::ResampleMode;
use crate::resampler::Resampled;
use crate::resampler::Resampler;
use crate::resampler::ResamplerError;
use crate::resampler::expected_frames;
use crate::resampler::grown_capacity;
use crate::sample::pcm_seq;
use crate::stream::blocks;
use crate::vad::GateState;
use crate::vad::VadConfig;
use crate::vad::VadGate;
use crate::vad::VadPhase;
use crate::vad::gate_run;
use crate::vad_laws::lemma_run_add;

verus! {

/// The most samples taken from the bridge in one iteration: 100 ms at
/// 48 kHz.
pub const MAX_DRAIN_BATCH: usize = 4800;

/// How long the caller sleeps when an iteration completed no frame, in
/// milliseconds.
pub const IDLE_SLEEP_MS: u64 = 1;

/// What the caller has to do after one call of the worker.
#[derive(Debug)]
pub enum WorkerStep {
    /// Stop or termination was asked for: leave the loop.
    Exit,
    /// No frame was completed: sleep for `IDLE_SLEEP_MS`, then poll again.
    Sleep,
    /// At least one frame was completed: forward these segments, in order,
    /// then poll again at once.
    Deliver(Vec<Vec<i16>>),
    /// Run the platform converter on these raw samples as the plan says,
    /// then hand its output to `PipelineWorker::finish`.
    Convert(Vec<u32>, ConvertPlan),
}

/// All state behind the bridge: resampler, accumulator and detector.
pub struct PipelineWorker {
    consumer: BridgeConsumer,
    resampler: Resampler,
    framer: Framer,
    gate: VadGate,
}

/// The step that follows from taking `pcm` into an accumulator that holds
/// `pending`, with the detector in `state`: `Sleep` when that completes no frame,
/// else the delivery of what the detector emits for the completed frames.
pub open spec fn ingest_outcome(
    config: VadConfig,
    state: GateState,
    pending: Seq<i16>,
    pcm: Seq<i16>,
    step: WorkerStep,
) -> bool {
    if frame_count(pending + pcm) == 0 {
        step is Sleep
    } else {
        &&& step matches WorkerStep::Deliver(segments)
        &&& blocks(segments) == gate_run(config, state, frames_of(pending + pcm)).emitted
    }
}

/// How the canonical stream is cut into batches does not show in what
/// comes out: taking `first` and then `second` leaves the accumulator and the
/// detector where taking both at once leaves them, and the segments emitted
/// for `first` followed by those emitted for `second` are the segments
/// emitted for both.
pub proof fn lemma_batching_is_invisible(
    config: VadConfig,
    state: GateState,
    pending: Seq<i16>,
    first: Seq<i16>,
    second: Seq<i16>,
)
    ensures
        ({
            let one = gate_run(config, state, frames_of(pending + first));
            let two = gate_run(
                config,
                one.state,
                frames_of(remainder_of(pending + first) + second),
            );
            let both = gate_run(config, state, frames_of(pending + (first + second)));
            &&& two.state == both.state
            &&& one.emitted + two.emitted == both.emitted
            &&& remainder_of(remainder_of(pending + first) + second) == remainder_of(
                pending + (first + second),
            )
        }),
{
    lemma_framing_composes(pending + first, second);
    assert((pending + first) + second == pending + (first + second));
    lemma_run_add(
        config,
        state,
        frames_of(pending + first),
        frames_of(remainder_of(pending + first) + second),
    );
}

impl PipelineWorker {
    /// The resampler.
    pub closed spec fn resampler(&self) -> Resampler {
        self.resampler
    }

    /// The read end of the bridge that the worker drains.
    pub closed spec fn consumer(&self) -> BridgeConsumer {
        self.consumer
    }

    /// The canonical samples that do not yet fill a frame.
    pub closed spec fn pending(&self) -> Seq<i16> {
        self.framer.pending()
    }

    /// The constants of the detector.
    pub closed spec fn gate_config(&self) -> VadConfig {
        self.gate.config()
    }

    /// The state of the detector.
    pub closed spec fn gate_state(&self) -> GateState {
        self.gate.state()
    }

    /// Every part is well formed.
    pub closed spec fn wf(&self) -> bool {
        &&& self.resampler.wf()
        &&& self.framer.wf()
        &&& self.gate.wf()
    }

    /// What does not change while the worker runs: the input rate, the mode
    /// and the detector's constants.
    pub open spec fn same_setup(&self, other: &Self) -> bool {
        &&& self.resampler().rate() == other.resampler().rate()
        &&& self.resampler().spec_mode() == other.resampler().spec_mode()
        &&& self.gate_config() == other.gate_config()
    }

    /// Nothing has changed but the resampler's bookkeeping.
    pub open spec fn same_stream(&self, other: &Self) -> bool {
        &&& self.pending() == other.pending()
        &&& self.gate_state() == other.gate_state()
    }

    /// A worker for input at `input_rate` Hz, with an empty accumulator and
    /// a closed detector with the default constants.
    pub fn new(consumer: BridgeConsumer, input_rate: u32) -> (made: Result<Self, ResamplerError>)
        ensures
            made.is_ok() <==> input_rate > 0,
            made matches Ok(w) ==> {
                &&& w.wf()
                &&& w.consumer() == consumer
                &&& w.resampler().rate() == input_rate
                &&& w.pending() == Seq::<i16>::empty()
                &&& w.gate_state() == crate::vad::initial_state()
            },
    {
        match Resampler::new(input_rate) {
            Ok(resampler) => Ok(
                PipelineWorker { consumer, resampler, framer: Framer::new(), gate: VadGate::new() },
            ),
            Err(e) => Err(e),
        }
    }

    /// Gives the read end of the bridge back, when the loop has been left:
    /// the end that the worker was made with, as its polls have left it.
    pub fn into_consumer(self) -> (consumer: BridgeConsumer)
        ensures
            consumer == self.consumer(),
    {
        self.consumer
    }

    /// The format in which the platform converter is fed.
    pub fn input_format(&self) -> (format: StreamDescription)
        ensures
            format == self.resampler().spec_input_format(),
    {
        self.resampler.input_format()
    }

    /// The format in which the platform converter answers.
    pub fn output_format(&self) -> (format: StreamDescription)
        ensures
            format == self.resampler().spec_output_format(),
    {
        self.resampler.output_format()
    }

    /// The capacity, in frames, of the converter's output buffer.
    pub fn output_capacity(&self) -> (capacity: u32)
        ensures
            capacity == self.resampler().spec_capacity(),
    {
        self.resampler.capacity()
    }

    /// The resampler's mode.
    pub fn mode(&self) -> (mode: ResampleMode)
        ensures
            mode == self.resampler().spec_mode(),
    {
        self.resampler.mode()
    }

    /// The number of batches lost to a failed conversion so far.
    pub fn conversion_failures(&self) -> (failures: u64)
        ensures
            failures == self.resampler().spec_failures(),
    {
        self.resampler.failures()
    }

    /// The number of canonical samples that do not yet fill a frame.
    pub fn pending_len(&self) -> (n: usize)
        ensures
            n == self.pending().len(),
    {
        self.framer.pending_len()
    }

    /// Whether the detector is closed or open.
    pub fn phase(&self) -> (phase: VadPhase)
        ensures
            phase == self.gate_state().phase,
    {
        self.gate.phase()
    }

    /// One iteration of the loop. The stop flag and the terminate flag are
    /// read first: if either is set, nothing is touched. Otherwise up to
    /// `MAX_DRAIN_BATCH` samples are drained from the bridge and taken through
    /// the pipeline as `process_batch` says.
    pub fn poll(&mut self, stop: bool, terminate: bool) -> (step: WorkerStep)
        requires
            old(self).wf(),
        ensures
            final(self).wf(),
            final(self).same_setup(old(self)),
            step is Exit <==> stop || terminate,
            step is Exit ==> final(self).same_stream(old(self)) && final(self).resampler() == old(
                self,
            ).resampler() && final(self).consumer() == old(self).consumer(),
            step matches WorkerStep::Convert(raw, _) ==> 0 < raw@.len() <= MAX_DRAIN_BATCH,
            step is Convert ==> old(self).resampler().spec_mode() == ResampleMode::Convert,
            step is Deliver ==> old(self).resampler().spec_mode() == ResampleMode::Passthrough,
            step is Convert ==> final(self).same_stream(old(self)),
    {
        if stop || terminate {
            return WorkerStep::Exit;
        }
        let raw = self.consumer.drain(MAX_DRAIN_BATCH);
        self.process_batch(raw)
    }

    /// Takes one drained batch through the pipeline.
    ///
    /// An empty batch leaves everything as it is. In passthrough mode the
    /// batch is converted, framed and gated at once. In convert mode the batch
    /// comes back with the plan for the platform converter; a batch too large
    /// to plan for is dropped.
    pub fn process_batch(&mut self, raw: Vec<u32>) -> (step: WorkerStep)
        requires
            old(self).wf(),
        ensures
            final(self).wf(),
            final(self).same_setup(old(self)),
            final(self).consumer() == old(self).consumer(),
            !(step is Exit),
            raw@.len() == 0 ==> step is Sleep && final(self).same_stream(old(self))
                && final(self).resampler() == old(self).resampler(),
            raw@.len() > 0 && old(self).resampler().spec_mode() == ResampleMode::Passthrough ==> {
                &&& ingest_outcome(
                    old(self).gate_config(),
                    old(self).gate_state(),
                    old(self).pending(),
                    pcm_seq(raw@),
                    step,
                )
                &&& final(self).pending() == remainder_of(old(self).pending() + pcm_seq(raw@))
                &&& final(self).gate_state() == gate_run(
                    old(self).gate_config(),
                    old(self).gate_state(),
                    frames_of(old(self).pending() + pcm_seq(raw@)),
                ).state
                &&& final(self).resampler() == old(self).resampler()
            },
            raw@.len() > 0 && old(self).resampler().spec_mode() == ResampleMode::Convert ==> {
                let expected = expected_frames(raw@.len(), old(self).resampler().rate());
                let grown = grown_capacity(old(self).resampler().spec_capacity(), expected);
                &&& final(self).same_stream(old(self))
                &&& final(self).resampler().spec_failures() == old(self).resampler().spec_failures()
                &&& if grown <= u32::MAX {
                    &&& step == WorkerStep::Convert(
                        raw,
                        ConvertPlan {
                            frames: raw@.len() as u32,
                            out_capacity: grown as u32,
                            grow: old(self).resampler().spec_capacity() < expected,
                        },
                    )
                    &&& final(self).resampler().spec_capacity() == grown
                } else {
                    &&& step is Sleep
                    &&& final(self).resampler().spec_capacity() == old(
                        self,
                    ).resampler().spec_capacity()
                }
            },
    {
        if raw.len() == 0 {
            return WorkerStep::Sleep;
        }
        match self.resampler.resample(raw.as_slice()) {
            Ok(Resampled::Ready(pcm)) => self.ingest(pcm.as_slice()),
            Ok(Resampled::Pending(plan)) => WorkerStep::Convert(raw, plan),
            Err(_) => WorkerStep::Sleep,
        }
    }

    /// Takes what the platform converter made of the batch that the last
    /// `Convert` step handed out: `None` when it failed, else its output. A
    /// failed batch is dropped and counted, and the loop goes on; a converted
    /// one is framed and gated.
    pub fn finish(&mut self, output: Option<Vec<i16>>) -> (step: WorkerStep)
        requires
            old(self).wf(),
        ensures
            final(self).wf(),
            final(self).same_setup(old(self)),
            final(self).consumer() == old(self).consumer(),
            final(self).resampler().spec_capacity() == old(self).resampler().spec_capacity(),
            match output {
                Some(pcm) if pcm@.len() <= old(self).resampler().spec_capacity() => {
                    &&& ingest_outcome(
                        old(self).gate_config(),
                        old(self).gate_state(),
                        old(self).pending(),
                        pcm@,
                        step,
                    )
                    &&& final(self).pending() == remainder_of(old(self).pending() + pcm@)
                    &&& final(self).gate_state() == gate_run(
                        old(self).gate_config(),
                        old(self).gate_state(),
                        frames_of(old(self).pending() + pcm@),
                    ).state
                    &&& final(self).resampler().spec_failures() == old(
                        self,
                    ).resampler().spec_failures()
                },
                _ => {
                    &&& step is Sleep
                    &&& final(self).same_stream(old(self))
                    &&& final(self).resampler().spec_failures() == if old(
                        self,
                    ).resampler().spec_failures() == u64::MAX {
                        u64::MAX as nat
                    } else {
                        old(self).resampler().spec_failures() + 1
                    }
                },
            },
    {
        match self.resampler.complete(output) {
            Ok(pcm) => self.ingest(pcm.as_slice()),
            Err(_) => WorkerStep::Sleep,
        }
    }

    /// Appends canonical samples to the accumulator, cuts the whole frames
    /// off its front and feeds them to the detector in order.
    pub fn ingest(&mut self, pcm: &[i16]) -> (step: WorkerStep)
        requires
            old(self).wf(),
        ensures
            final(self).wf(),
            final(self).consumer() == old(self).consumer(),
            final(self).resampler() == old(self).resampler(),
            final(self).gate_config() == old(self).gate_config(),
            ingest_outcome(
                old(self).gate_config(),
                old(self).gate_state(),
                old(self).pending(),
                pcm@,
                step,
            ),
            final(self).pending() == remainder_of(old(self).pending() + pcm@),
            final(self).gate_state() == gate_run(
                old(self).gate_config(),
                old(self).gate_state(),
                frames_of(old(self).pending() + pcm@),
            ).state,
            step matches WorkerStep::Deliver(segments) ==> forall|k: int|
                0 <= k < segments@.len() ==> (#[trigger] segments@[k])@.len() > 0,
    {
        let ghost config = self.gate.config();
        let ghost start = self.gate.state();
        let ghost cut = frames_of(self.framer.pending() + pcm@);
        let frames = self.framer.push(pcm);
        if frames.len() == 0 {
            assert(cut =~= Seq::<Seq<i16>>::empty());
            return WorkerStep::Sleep;
        }
        let mut segments: Vec<Vec<i16>> = Vec::new();
        assert(blocks(segments) =~= Seq::<Seq<i16>>::empty());
        assert(cut.take(0) =~= Seq::<Seq<i16>>::empty());
        for frame in iter: frames
            invariant
                self.gate.wf(),
                self.gate.config() == config,
                self.consumer == old(self).consumer,
                self.resampler == old(self).resampler,
                self.resampler.wf(),
                self.framer.wf(),
                self.framer.pending() == remainder_of(old(self).pending() + pcm@),
                iter.seq().len() == cut.len(),
                forall|j: int| 0 <= j < cut.len() ==> (#[trigger] iter.seq()[j])@ == cut[j],
                self.gate.state() == gate_run(config, start, cut.take(iter.index() as int)).state,
                blocks(segments) == gate_run(config, start, cut.take(iter.index() as int)).emitted,
                forall|k: int| 0 <= k < segments@.len() ==> (#[trigger] segments@[k])@.len() > 0,
        {
            let ghost n = iter.index() as int;
            let ghost taken = blocks(segments);
            let ghost sample_frame = frame@;
            let mut emitted = self.gate.process(frame);
            let ghost released = blocks(emitted);
            segments.append(&mut emitted);
            proof {
                assert(cut.take(n + 1).drop_last() == cut.take(n));
                assert(cut.take(n + 1).last() == sample_frame);
                assert(blocks(segments) =~= taken + released);
            }
        }
        assert(cut.take(cut.len() as int) == cut);
        WorkerStep::Deliver(segments)
    }
}

} // verus!
