use audio_pipeline::integer_samples::i16_to_raw;
use audio_pipeline::integer_samples::u16_to_raw;
use audio_pipeline::sample::sample_to_pcm;

#[test]
fn signed_samples_match_float_division_everywhere() {
    for sample in i16::MIN..=i16::MAX {
        let expected = (sample as f32) / (i16::MAX as f32);
        assert_eq!(i16_to_raw(sample), expected.to_bits(), "sample {}", sample);
    }
}

#[test]
fn unsigned_samples_match_float_arithmetic_everywhere() {
    for sample in u16::MIN..=u16::MAX {
        let expected = ((sample as f32) - (u16::MAX as f32 / 2.0)) / (u16::MAX as f32 / 2.0);
        assert_eq!(u16_to_raw(sample), expected.to_bits(), "sample {}", sample);
    }
}

#[test]
fn integer_samples_exact_values() {
    assert_eq!(i16_to_raw(0), 0.0f32.to_bits());
    assert_eq!(i16_to_raw(32767), 1.0f32.to_bits());
    assert_eq!(i16_to_raw(-32767), (-1.0f32).to_bits());
    assert_eq!(i16_to_raw(1), 0x3800_0100);
    assert_eq!(i16_to_raw(-32768), 0xbf80_0100);
    assert_eq!(u16_to_raw(0), (-1.0f32).to_bits());
    assert_eq!(u16_to_raw(65535), 1.0f32.to_bits());
    assert_eq!(u16_to_raw(32768), 0x3780_0080);
    assert_eq!(u16_to_raw(32767), 0xb780_0080);
}

#[test]
fn signed_samples_survive_the_format_round_trip() {
    for sample in i16::MIN..=i16::MAX {
        let expected = if sample == i16::MIN { -32767 } else { sample };
        assert_eq!(sample_to_pcm(i16_to_raw(sample)), expected);
    }
}
