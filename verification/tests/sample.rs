use audio_pipeline::resampler::passthrough;
use audio_pipeline::sample::sample_to_pcm;

fn reference(x: f32) -> i16 {
    if x.is_nan() {
        return 0;
    }
    // The product of a 24-bit and a 15-bit significand is exact in f64.
    ((x as f64).clamp(-1.0, 1.0) * 32767.0).round() as i16
}

#[test]
fn converts_exact_values() {
    assert_eq!(sample_to_pcm(0.0f32.to_bits()), 0);
    assert_eq!(sample_to_pcm((-0.0f32).to_bits()), 0);
    assert_eq!(sample_to_pcm(1.0f32.to_bits()), 32767);
    assert_eq!(sample_to_pcm((-1.0f32).to_bits()), -32767);
    assert_eq!(sample_to_pcm(0.5f32.to_bits()), 16384);
    assert_eq!(sample_to_pcm((-0.5f32).to_bits()), -16384);
    assert_eq!(sample_to_pcm(0.25f32.to_bits()), 8192);
    assert_eq!(sample_to_pcm(0.75f32.to_bits()), 24575);
    assert_eq!(sample_to_pcm(0.1f32.to_bits()), 3277);
    assert_eq!(sample_to_pcm((-0.1f32).to_bits()), -3277);
}

#[test]
fn clamps_to_full_scale() {
    assert_eq!(sample_to_pcm(2.0f32.to_bits()), 32767);
    assert_eq!(sample_to_pcm((-2.0f32).to_bits()), -32767);
    assert_eq!(sample_to_pcm(1.000001f32.to_bits()), 32767);
    assert_eq!(sample_to_pcm(f32::MAX.to_bits()), 32767);
    assert_eq!(sample_to_pcm(f32::MIN.to_bits()), -32767);
    assert_eq!(sample_to_pcm(f32::INFINITY.to_bits()), 32767);
    assert_eq!(sample_to_pcm(f32::NEG_INFINITY.to_bits()), -32767);
}

#[test]
fn nan_is_silence() {
    assert_eq!(sample_to_pcm(f32::NAN.to_bits()), 0);
    assert_eq!(sample_to_pcm(0x7f80_0001), 0);
    assert_eq!(sample_to_pcm(0xffff_ffff), 0);
}

#[test]
fn rounds_half_away_from_zero() {
    // 1.5 / 32767 is not a float; the nearest floats lie on either side.
    let just_below_one = 0.99999f32;
    assert_eq!(sample_to_pcm(just_below_one.to_bits()), 32767);
    let half_step = (0.5f64 / 32767.0) as f32;
    assert_eq!(sample_to_pcm(half_step.to_bits()), reference(half_step));
    assert_eq!(sample_to_pcm((1.0f32 / 65536.0).to_bits()), 0);
    assert_eq!(sample_to_pcm((1.0f32 / 65000.0).to_bits()), 1);
    assert_eq!(sample_to_pcm((1.0f32 / 32768.0).to_bits()), 1);
    assert_eq!(sample_to_pcm((-1.0f32 / 32768.0).to_bits()), -1);
}

#[test]
fn tiny_and_subnormal_samples_are_zero() {
    assert_eq!(sample_to_pcm(1), 0);
    assert_eq!(sample_to_pcm(0x007f_ffff), 0);
    assert_eq!(sample_to_pcm(0x8000_0001), 0);
    assert_eq!(sample_to_pcm(f32::MIN_POSITIVE.to_bits()), 0);
    assert_eq!(sample_to_pcm(1.0e-10f32.to_bits()), 0);
    assert_eq!(sample_to_pcm(1.0e-5f32.to_bits()), 0);
}

#[test]
fn agrees_with_exact_arithmetic_on_a_sweep() {
    let mut bits: u32 = 0;
    let mut checked: u32 = 0;
    loop {
        let x = f32::from_bits(bits);
        assert_eq!(sample_to_pcm(bits), reference(x), "bits {:#010x}", bits);
        checked += 1;
        match bits.checked_add(2039) {
            Some(next) => bits = next,
            None => break,
        }
    }
    assert!(checked > 2_000_000);
}

#[test]
fn agrees_with_exact_arithmetic_near_every_step() {
    for k in -32767i32..=32767 {
        for half in [-1.0f64, 0.0, 1.0] {
            let centre = ((k as f64 + 0.5 * half) / 32767.0) as f32;
            let mut bits = centre.to_bits().wrapping_sub(3);
            for _ in 0..7 {
                let x = f32::from_bits(bits);
                assert_eq!(sample_to_pcm(bits), reference(x), "bits {:#010x}", bits);
                bits = bits.wrapping_add(1);
            }
        }
    }
}

#[test]
fn result_is_symmetric_and_within_full_scale() {
    let mut bits: u32 = 0x3000_0000;
    while bits < 0x4000_0000 {
        let positive = sample_to_pcm(bits);
        let negative = sample_to_pcm(bits | 0x8000_0000);
        assert_eq!(negative, -positive);
        assert!((0..=32767).contains(&positive));
        bits += 104_729;
    }
}

#[test]
fn passthrough_keeps_length_and_converts_each_sample() {
    let input: Vec<f32> = vec![0.0, 0.5, -0.5, 1.0, -1.0, 3.0, f32::NAN, 0.1, -0.25];
    let raw: Vec<u32> = input.iter().map(|x| x.to_bits()).collect();
    let out = passthrough(&raw);
    assert_eq!(out.len(), input.len());
    assert_eq!(out, vec![0, 16384, -16384, 32767, -32767, 32767, 0, 3277, -8192]);
    for (x, y) in input.iter().zip(out.iter()) {
        assert_eq!(*y, reference(*x));
    }
    assert_eq!(passthrough(&[]), Vec::<i16>::new());
}
