//! Descriptions of linear PCM streams, as the platform's audio layer wants
//! them spelled out.

use vstd::prelude::*;

verus! {

/// The format identifier of linear PCM: the four characters `lpcm`.
pub const FORMAT_LINEAR_PCM: u32 = 0x6c70_636d;

/// Flag: the samples are floating point.
pub const FLAG_IS_FLOAT: u32 = 1;

/// Flag: the samples are signed integers.
pub const FLAG_IS_SIGNED_INTEGER: u32 = 4;

/// Flag: the sample bits fill the whole of each sample's bytes.
pub const FLAG_IS_PACKED: u32 = 8;

/// A packed, interleaved linear PCM layout, field for field.
#[derive(Clone, Copy, Debug, PartialEq, Eq, Structural)]
pub struct StreamDescription {
    /// Frames per second.
    pub sample_rate: u32,
    /// Always `FORMAT_LINEAR_PCM`.
    pub format_id: u32,
    /// `FLAG_IS_PACKED` with either `FLAG_IS_FLOAT` or
    /// `FLAG_IS_SIGNED_INTEGER`.
    pub format_flags: u32,
    /// Equal to `bytes_per_frame`: a packet is one frame.
    pub bytes_per_packet: u32,
    /// Always one.
    pub frames_per_packet: u32,
    /// Bytes of one sample times the number of channels.
    pub bytes_per_frame: u32,
    /// Number of interleaved channels.
    pub channels_per_frame: u32,
    /// 32 for floating point, 16 for signed integers.
    pub bits_per_channel: u32,
}

/// Bytes of one sample: four for 32-bit floating point, two for 16-bit
/// integers.
pub open spec fn sample_bytes(is_float: bool) -> nat {
    if is_float {
        4
    } else {
        2
    }
}

/// Whether a stream of this rate and channel count can be described: both
/// are positive and a frame's byte size fits the field for it.
pub open spec fn describable(sample_rate: u32, channels: u32, is_float: bool) -> bool {
    sample_rate > 0 && channels > 0 && sample_bytes(is_float) * channels <= u32::MAX
}

/// The description of a describable stream.
pub open spec fn description_of(sample_rate: u32, channels: u32, is_float: bool) -> StreamDescription {
    StreamDescription {
        sample_rate,
        format_id: FORMAT_LINEAR_PCM,
        format_flags: if is_float {
            (FLAG_IS_FLOAT + FLAG_IS_PACKED) as u32
        } else {
            (FLAG_IS_SIGNED_INTEGER + FLAG_IS_PACKED) as u32
        },
        bytes_per_packet: (sample_bytes(is_float) * channels) as u32,
        frames_per_packet: 1,
        bytes_per_frame: (sample_bytes(is_float) * channels) as u32,
        channels_per_frame: channels,
        bits_per_channel: (8 * sample_bytes(is_float)) as u32,
    }
}

/// Describes a packed linear PCM stream of 32-bit floating-point or 16-bit
/// signed integer samples, or returns `None` for a stream that cannot be
/// described.
pub fn create_format(sample_rate: u32, channels: u32, is_float: bool) -> (made: Option<
    StreamDescription,
>)
    ensures
        made == if describable(sample_rate, channels, is_float) {
            Some(description_of(sample_rate, channels, is_float))
        } else {
            None
        },
{
    if sample_rate == 0 || channels == 0 {
        return None;
    }
    let width: u32 = if is_float {
        4
    } else {
        2
    };
    if channels > u32::MAX / width {
        return None;
    }
    let flags: u32 = if is_float {
        FLAG_IS_FLOAT | FLAG_IS_PACKED
    } else {
        FLAG_IS_SIGNED_INTEGER | FLAG_IS_PACKED
    };
    assert(1u32 | 8u32 == 9u32) by (bit_vector);
    assert(4u32 | 8u32 == 12u32) by (bit_vector);
    Some(
        StreamDescription {
            sample_rate,
            format_id: FORMAT_LINEAR_PCM,
            format_flags: flags,
            bytes_per_packet: width * channels,
            frames_per_packet: 1,
            bytes_per_frame: width * channels,
            channels_per_frame: channels,
            bits_per_channel: 8 * width,
        },
    )
}

} // verus!
