//! Conversion of raw capture samples to the canonical format: 16 kHz, mono,
//! signed 16-bit.
//!
//! At the canonical rate the resampler only changes the sample format. At
//! any other rate the platform's sample-rate converter does the work; the
//! resampler decides how much room that converter must be given, keeps the
//! size of the reusable output buffer, and checks what comes back.

use vstd::prelude::*;
use vstd::arithmetic::div_mod::*;
use crate::format::StreamDescription;
use crate::format::create_format;
use crate::format::description_of;
use crate::sample::pcm_seq;
use crate::sample::pcm_of;
use crate::sample::sample_to_pcm;

verus! {

/// The canonical output rate, in Hz.
pub const CANONICAL_RATE: u32 = 16000;

/// Input rates closer than this to the canonical rate, in Hz, need no rate
/// conversion.
pub const PASSTHROUGH_TOLERANCE: u32 = 1;

/// Frames added to the estimated output length, as room for the converter's
/// own rounding.
pub const CAPACITY_MARGIN: u32 = 10;

/// Frames of output buffer that a passthrough resampler starts with.
pub const PASSTHROUGH_CAPACITY: u32 = 1024;

/// Frames of output buffer that a converting resampler starts with.
pub const CONVERT_CAPACITY: u32 = 2048;

/// How the resampler treats its input.
#[derive(Clone, Copy, Debug, PartialEq, Eq, Structural)]
pub enum ResampleMode {
    /// The input is at the canonical rate: format conversion only.
    Passthrough,
    /// The input is at another rate: the platform converter is needed.
    Convert,
}

/// Why a resampler could not be built.
#[derive(Clone, Copy, Debug, PartialEq, Eq, Structural)]
pub enum ResamplerError {
    /// No input format can be described: the input rate is zero.
    InputFormat,
}

/// Why one batch was not resampled. The resampler stays usable.
#[derive(Clone, Copy, Debug, PartialEq, Eq, Structural)]
pub enum ResampleError {
    /// The batch needs a larger output buffer than the converter can have.
    BatchTooLarge,
    /// The platform converter reported a failure.
    ConversionFailed,
    /// The platform converter returned more frames than it was given room
    /// for.
    OutputOverrun,
}

/// What the platform converter must be asked to do for one batch.
#[derive(Clone, Copy, Debug, PartialEq, Eq, Structural)]
pub struct ConvertPlan {
    /// Number of input frames.
    pub frames: u32,
    /// Capacity, in frames, that the output buffer must have. It is emptied
    /// before the converter runs.
    pub out_capacity: u32,
    /// Whether the output buffer has to be replaced by one of `out_capacity`
    /// frames, because the one in use is too small.
    pub grow: bool,
}

/// The result of offering one batch to the resampler.
#[derive(Debug)]
pub enum Resampled {
    /// The canonical samples.
    Ready(Vec<i16>),
    /// The platform converter has to run, as the plan says; its output goes
    /// to `Resampler::complete`.
    Pending(ConvertPlan),
}

/// The mode for an input rate: passthrough when the rate is within the
/// tolerance of the canonical rate.
pub open spec fn mode_for(input_rate: nat) -> ResampleMode {
    if input_rate < CANONICAL_RATE + PASSTHROUGH_TOLERANCE && CANONICAL_RATE < input_rate
        + PASSTHROUGH_TOLERANCE {
        ResampleMode::Passthrough
    } else {
        ResampleMode::Convert
    }
}

/// The number of output frames that `input_len` input frames at
/// `input_rate` amount to, rounded up.
pub open spec fn output_frames_ceil(input_len: nat, input_rate: nat) -> nat {
    ((input_len * CANONICAL_RATE + input_rate - 1) / (input_rate as int)) as nat
}

/// The output capacity to provide for `input_len` input frames: the
/// rounded-up output length plus the margin, and never less than the input
/// length.
pub open spec fn expected_frames(input_len: nat, input_rate: nat) -> nat {
    let estimate = output_frames_ceil(input_len, input_rate) + CAPACITY_MARGIN as nat;
    if estimate >= input_len {
        estimate
    } else {
        input_len
    }
}

/// The capacity of the output buffer after a batch that needs `expected`
/// frames: unchanged while it suffices, else twice what is needed.
pub open spec fn grown_capacity(capacity: nat, expected: nat) -> nat {
    if capacity < expected {
        2 * expected
    } else {
        capacity
    }
}

/// The estimate is a true ceiling: it covers the exact output length, and one
/// frame less would not.
pub proof fn lemma_output_frames_ceil(input_len: nat, input_rate: nat)
    requires
        input_rate > 0,
    ensures
        output_frames_ceil(input_len, input_rate) * input_rate >= input_len * CANONICAL_RATE,
        output_frames_ceil(input_len, input_rate) * input_rate < input_len * CANONICAL_RATE
            + input_rate,
{
    let x = (input_len * CANONICAL_RATE + input_rate - 1) as int;
    let d = input_rate as int;
    lemma_fundamental_div_mod(x, d);
    lemma_mod_bound(x, d);
    assert(d * (x / d) == (x / d) * d) by (nonlinear_arith);
}

/// The planned capacity never truncates: it holds the whole output of the
/// batch and is at least as long as the input, and growing never shrinks the
/// buffer.
pub proof fn lemma_capacity_suffices(capacity: nat, input_len: nat, input_rate: nat)
    requires
        input_rate > 0,
    ensures
        expected_frames(input_len, input_rate) >= input_len,
        expected_frames(input_len, input_rate) * input_rate >= input_len * CANONICAL_RATE,
        grown_capacity(capacity, expected_frames(input_len, input_rate)) >= expected_frames(
            input_len,
            input_rate,
        ),
        grown_capacity(capacity, expected_frames(input_len, input_rate)) >= capacity,
{
    lemma_output_frames_ceil(input_len, input_rate);
    let c = output_frames_ceil(input_len, input_rate) as int;
    let e = expected_frames(input_len, input_rate) as int;
    let r = input_rate as int;
    assert(e * r >= c * r) by (nonlinear_arith)
        requires
            e >= c,
            r > 0,
    ;
}

/// State of the resampler: the input rate and the two stream formats, the
/// mode chosen for the rate, the capacity of the reusable output buffer, and
/// a count of failed conversions.
#[derive(Debug)]
pub struct Resampler {
    input_rate: u32,
    input_format: StreamDescription,
    output_format: StreamDescription,
    mode: ResampleMode,
    capacity: u32,
    failures: u64,
}

impl Resampler {
    /// The declared input rate, in Hz.
    pub closed spec fn rate(&self) -> nat {
        self.input_rate as nat
    }

    /// The mode.
    pub closed spec fn spec_mode(&self) -> ResampleMode {
        self.mode
    }

    /// The capacity of the output buffer, in frames.
    pub closed spec fn spec_capacity(&self) -> nat {
        self.capacity as nat
    }

    /// The number of conversions that have failed so far, capped at
    /// `u64::MAX`.
    pub closed spec fn spec_failures(&self) -> nat {
        self.failures as nat
    }

    /// The input format: mono 32-bit floating point at the input rate.
    pub closed spec fn spec_input_format(&self) -> StreamDescription {
        self.input_format
    }

    /// The output format: mono 16-bit signed integers at the canonical rate.
    pub closed spec fn spec_output_format(&self) -> StreamDescription {
        self.output_format
    }

    /// The rate is positive, the formats describe the two ends, and the mode
    /// is the one that belongs to the rate.
    pub closed spec fn wf(&self) -> bool {
        &&& self.input_rate > 0
        &&& self.mode == mode_for(self.input_rate as nat)
        &&& self.input_format == description_of(self.input_rate, 1, true)
        &&& self.output_format == description_of(CANONICAL_RATE, 1, false)
    }

    /// A resampler for input at `input_rate` Hz.
    pub fn new(input_rate: u32) -> (made: Result<Self, ResamplerError>)
        ensures
            made.is_ok() <==> input_rate > 0,
            made.is_err() ==> made == Err::<Self, ResamplerError>(ResamplerError::InputFormat),
            made matches Ok(r) ==> {
                &&& r.wf()
                &&& r.rate() == input_rate
                &&& r.spec_input_format() == description_of(input_rate, 1, true)
                &&& r.spec_output_format() == description_of(CANONICAL_RATE, 1, false)
                &&& r.spec_mode() == mode_for(input_rate as nat)
                &&& r.spec_capacity() == if r.spec_mode() == ResampleMode::Passthrough {
                    PASSTHROUGH_CAPACITY
                } else {
                    CONVERT_CAPACITY
                }
                &&& r.spec_failures() == 0
            },
    {
        let output_format = match create_format(CANONICAL_RATE, 1, false) {
            Some(format) => format,
            None => unreached(),
        };
        let input_format = match create_format(input_rate, 1, true) {
            Some(format) => format,
            None => { return Err(ResamplerError::InputFormat); },
        };
        let passthrough = input_rate == CANONICAL_RATE;
        Ok(
            Resampler {
                input_rate,
                input_format,
                output_format,
                mode: if passthrough {
                    ResampleMode::Passthrough
                } else {
                    ResampleMode::Convert
                },
                capacity: if passthrough {
                    PASSTHROUGH_CAPACITY
                } else {
                    CONVERT_CAPACITY
                },
                failures: 0,
            },
        )
    }

    /// The input format: mono 32-bit floating point at the input rate.
    pub fn input_format(&self) -> (format: StreamDescription)
        ensures
            format == self.spec_input_format(),
    {
        self.input_format
    }

    /// The output format: mono 16-bit signed integers at the canonical rate.
    pub fn output_format(&self) -> (format: StreamDescription)
        ensures
            format == self.spec_output_format(),
    {
        self.output_format
    }

    /// The declared input rate, in Hz.
    pub fn input_rate(&self) -> (rate: u32)
        ensures
            rate == self.rate(),
    {
        self.input_rate
    }

    /// The mode.
    pub fn mode(&self) -> (mode: ResampleMode)
        ensures
            mode == self.spec_mode(),
    {
        self.mode
    }

    /// The capacity of the output buffer, in frames.
    pub fn capacity(&self) -> (capacity: u32)
        ensures
            capacity == self.spec_capacity(),
    {
        self.capacity
    }

    /// The number of conversions that have failed so far.
    pub fn failures(&self) -> (failures: u64)
        ensures
            failures == self.spec_failures(),
    {
        self.failures
    }

    /// Offers one batch of raw samples.
    ///
    /// In passthrough mode, and for an empty batch, the canonical samples come
    /// back at once: one for each input sample. Otherwise the result is the
    /// plan for the platform converter, and the output buffer's capacity has
    /// grown if the batch needs more than it had.
    pub fn resample(&mut self, input: &[u32]) -> (result: Result<Resampled, ResampleError>)
        requires
            old(self).wf(),
        ensures
            final(self).wf(),
            final(self).rate() == old(self).rate(),
            final(self).spec_mode() == old(self).spec_mode(),
            final(self).spec_input_format() == old(self).spec_input_format(),
            final(self).spec_output_format() == old(self).spec_output_format(),
            final(self).spec_failures() == old(self).spec_failures(),
            old(self).spec_mode() == ResampleMode::Passthrough || input@.len() == 0 ==> {
                &&& result matches Ok(Resampled::Ready(out))
                &&& out@ == pcm_seq(input@)
                &&& *final(self) == *old(self)
            },
            old(self).spec_mode() == ResampleMode::Convert && input@.len() > 0 ==> {
                let expected = expected_frames(input@.len(), old(self).rate());
                let grown = grown_capacity(old(self).spec_capacity(), expected);
                if grown <= u32::MAX {
                    &&& result == Ok::<Resampled, ResampleError>(
                        Resampled::Pending(
                            ConvertPlan {
                                frames: input@.len() as u32,
                                out_capacity: grown as u32,
                                grow: old(self).spec_capacity() < expected,
                            },
                        ),
                    )
                    &&& final(self).spec_capacity() == grown
                    &&& input@.len() <= u32::MAX
                } else {
                    &&& result == Err::<Resampled, ResampleError>(ResampleError::BatchTooLarge)
                    &&& final(self).spec_capacity() == old(self).spec_capacity()
                }
            },
    {
        match self.mode {
            ResampleMode::Passthrough => { return Ok(Resampled::Ready(passthrough(input))); },
            ResampleMode::Convert => {},
        }
        if input.len() == 0 {
            return Ok(Resampled::Ready(passthrough(input)));
        }
        proof {
            lemma_capacity_suffices(
                self.capacity as nat,
                input@.len(),
                self.input_rate as nat,
            );
        }
        if input.len() > u32::MAX as usize {
            return Err(ResampleError::BatchTooLarge);
        }
        let frames: u64 = input.len() as u64;
        let rate: u64 = self.input_rate as u64;
        assert(frames * 16000 + rate - 1 < 0x1_0000_0000 * 16001) by (nonlinear_arith)
            requires
                frames <= 0xffff_ffff,
                rate <= 0xffff_ffff,
        ;
        let ceiling: u64 = (frames * (CANONICAL_RATE as u64) + rate - 1) / rate;
        proof {
            lemma_div_is_ordered_by_denominator(
                (frames * 16000 + rate - 1) as int,
                1,
                rate as int,
            );
            lemma_div_basics_3((frames * 16000 + rate - 1) as int);
        }
        let estimate: u64 = ceiling + CAPACITY_MARGIN as u64;
        let expected: u64 = if estimate >= frames {
            estimate
        } else {
            frames
        };
        assert(expected == expected_frames(input@.len(), self.input_rate as nat));
        let grow = (self.capacity as u64) < expected;
        if grow {
            if expected > (u32::MAX / 2) as u64 {
                return Err(ResampleError::BatchTooLarge);
            }
            self.capacity = (expected * 2) as u32;
        }
        Ok(
            Resampled::Pending(
                ConvertPlan { frames: frames as u32, out_capacity: self.capacity, grow },
            ),
        )
    }

    /// Takes what the platform converter made of the batch last planned:
    /// `None` when it failed, else its output. A failure, or more output than
    /// the buffer holds, is counted and reported; the batch is then lost and
    /// the resampler carries on.
    pub fn complete(&mut self, output: Option<Vec<i16>>) -> (result: Result<Vec<i16>, ResampleError>)
        requires
            old(self).wf(),
        ensures
            final(self).wf(),
            final(self).rate() == old(self).rate(),
            final(self).spec_mode() == old(self).spec_mode(),
            final(self).spec_input_format() == old(self).spec_input_format(),
            final(self).spec_output_format() == old(self).spec_output_format(),
            final(self).spec_capacity() == old(self).spec_capacity(),
            match output {
                None => result == Err::<Vec<i16>, ResampleError>(ResampleError::ConversionFailed),
                Some(samples) => if samples@.len() <= old(self).spec_capacity() {
                    result == Ok::<Vec<i16>, ResampleError>(samples)
                } else {
                    result == Err::<Vec<i16>, ResampleError>(ResampleError::OutputOverrun)
                },
            },
            final(self).spec_failures() == if result.is_ok() || old(self).spec_failures()
                == u64::MAX {
                old(self).spec_failures()
            } else {
                old(self).spec_failures() + 1
            },
    {
        match output {
            Some(samples) => {
                if samples.len() <= self.capacity as usize {
                    return Ok(samples);
                }
                self.note_failure();
                Err(ResampleError::OutputOverrun)
            },
            None => {
                self.note_failure();
                Err(ResampleError::ConversionFailed)
            },
        }
    }

    fn note_failure(&mut self)
        requires
            old(self).wf(),
        ensures
            final(self).wf(),
            final(self).input_rate == old(self).input_rate,
            final(self).input_format == old(self).input_format,
            final(self).output_format == old(self).output_format,
            final(self).mode == old(self).mode,
            final(self).capacity == old(self).capacity,
            final(self).failures == if old(self).failures == u64::MAX {
                u64::MAX
            } else {
                (old(self).failures + 1) as u64
            },
    {
        if self.failures < u64::MAX {
            self.failures = self.failures + 1;
        }
    }
}

/// Format conversion alone: each raw sample becomes
/// `round(clamp(x, -1, 1) * 32767)`, so the output is as long as the input.
pub fn passthrough(input: &[u32]) -> (out: Vec<i16>)
    ensures
        out@ == pcm_seq(input@),
        out@.len() == input@.len(),
        forall|i: int| 0 <= i < input@.len() ==> out@[i] as int == pcm_of(#[trigger] input@[i]),
{
    let mut out: Vec<i16> = Vec::with_capacity(input.len());
    let mut i: usize = 0;
    while i < input.len()
        invariant
            i <= input@.len(),
            out@.len() == i,
            forall|j: int| 0 <= j < i ==> out@[j] as int == pcm_of(#[trigger] input@[j]),
        decreases input@.len() - i,
    {
        out.push(sample_to_pcm(input[i]));
        i = i + 1;
    }
    assert(out@ =~= pcm_seq(input@));
    out
}

} // verus!
