//! Real-time audio ingestion: a bounded capture bridge, a rate and format
//! resampler, a fixed-size framer and a voice-activity detector, with the
//! overflow policy that ties them together.
//!
//! Raw capture samples are IEEE-754 single-precision numbers. They travel as
//! their bit patterns (`u32`), and all arithmetic on them is done on
//! integers, exactly. Everything downstream of the resampler is 16 kHz,
//! mono, signed 16-bit PCM.
//!
//! The path of a sample: capture data is brought to the raw representation
//! (`integer_samples`), reduced to mono (`downmix`, `mixing`) and pushed
//! into the bridge (`bridge`, over `ring`, with `overflow`). The worker
//! (`worker`) drains the bridge, converts (`resampler`, `sample`, `format`),
//! frames (`framer`) and detects speech (`vad`, `vad_laws`, over `stream`);
//! what it emits is encoded for the sink (`pcm`). `devices` holds the rules
//! by which capture devices are listed and chosen.

pub mod overflow;
pub mod ring;
pub mod bridge;
pub mod sample;
pub mod integer_samples;
pub mod mixing;
pub mod downmix;
pub mod format;
pub mod resampler;
pub mod stream;
pub mod framer;
pub mod vad;
pub mod vad_laws;
pub mod pcm;
pub mod worker;
pub mod devices;
