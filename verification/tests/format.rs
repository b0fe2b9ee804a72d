use audio_pipeline::format::create_format;
use audio_pipeline::format::StreamDescription;
use audio_pipeline::format::FORMAT_LINEAR_PCM;

#[test]
fn float_mono_format() {
    assert_eq!(
        create_format(44100, 1, true),
        Some(StreamDescription {
            sample_rate: 44100,
            format_id: 1819304813,
            format_flags: 1 | 8,
            bytes_per_packet: 4,
            frames_per_packet: 1,
            bytes_per_frame: 4,
            channels_per_frame: 1,
            bits_per_channel: 32,
        })
    );
    assert_eq!(FORMAT_LINEAR_PCM, u32::from_be_bytes(*b"lpcm"));
}

#[test]
fn integer_stereo_format() {
    assert_eq!(
        create_format(16000, 2, false),
        Some(StreamDescription {
            sample_rate: 16000,
            format_id: 0x6c70636d,
            format_flags: 4 | 8,
            bytes_per_packet: 4,
            frames_per_packet: 1,
            bytes_per_frame: 4,
            channels_per_frame: 2,
            bits_per_channel: 16,
        })
    );
}

#[test]
fn undescribable_streams() {
    assert_eq!(create_format(0, 1, true), None);
    assert_eq!(create_format(48000, 0, false), None);
    assert_eq!(create_format(48000, u32::MAX, false), None);
    assert_eq!(create_format(48000, 0x4000_0000, true), None);
    assert!(create_format(48000, 0x3fff_ffff, true).is_some());
    assert_eq!(create_format(48000, 0x7fff_ffff, false).unwrap().bytes_per_frame, 0xffff_fffe);
    assert_eq!(create_format(48000, 0x8000_0000, false), None);
}
