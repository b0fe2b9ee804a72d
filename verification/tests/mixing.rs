use audio_pipeline::mixing::average;
use audio_pipeline::mixing::QUIET_NAN;

fn hardware(left: u32, right: u32) -> u32 {
    ((f32::from_bits(left) + f32::from_bits(right)) * 0.5).to_bits()
}

fn check(left: u32, right: u32) {
    let expected = hardware(left, right);
    let got = average(left, right);
    if f32::from_bits(expected).is_nan() {
        assert_eq!(got, QUIET_NAN, "average({:#010x}, {:#010x})", left, right);
    } else {
        assert_eq!(got, expected, "average({:#010x}, {:#010x})", left, right);
    }
}

fn interesting() -> Vec<u32> {
    let mut values = vec![
        0x0000_0000, 0x8000_0000, 0x0000_0001, 0x8000_0001, 0x0000_0002, 0x0000_0003,
        0x007f_ffff, 0x807f_ffff, 0x0080_0000, 0x8080_0000, 0x0080_0001, 0x00ff_ffff,
        0x0100_0000, 0x0100_0001, 0x3f80_0000, 0xbf80_0000, 0x3f7f_ffff, 0x3f80_0001,
        0x3f00_0000, 0xbf00_0000, 0x4000_0000, 0x7f7f_ffff, 0xff7f_ffff, 0x7f7f_fffe,
        0x7f00_0000, 0x7f80_0000, 0xff80_0000, 0x7fc0_0000, 0xffc0_0000, 0x7f80_0001,
        0x7fff_ffff, 0x3400_0000, 0x3380_0000, 0x3300_0000, 0x4b00_0000, 0x4b80_0000,
        0x4b7f_ffff, 0x4a80_0001, 0x0c80_0000, 0x0d00_0000, 0x0cff_ffff,
    ];
    for x in [0.1f32, 0.2, 0.3, 0.25, 0.75, 1.5, 3.0, 1.0e-3, 1.0e-30, 1.0e-38, 1.0e-40, 1.0e30, 3.0e38] {
        values.push(x.to_bits());
        values.push((-x).to_bits());
    }
    values
}

#[test]
fn average_exact_values() {
    assert_eq!(average(1.0f32.to_bits(), 0.0f32.to_bits()), 0.5f32.to_bits());
    assert_eq!(average(0.5f32.to_bits(), (-0.5f32).to_bits()), 0.0f32.to_bits());
    assert_eq!(average(0.25f32.to_bits(), 0.75f32.to_bits()), 0.5f32.to_bits());
    assert_eq!(average((-1.0f32).to_bits(), (-0.5f32).to_bits()), (-0.75f32).to_bits());
    assert_eq!(average(0x8000_0000, 0x8000_0000), 0x8000_0000);
    assert_eq!(average(0x8000_0000, 0x0000_0000), 0x0000_0000);
    assert_eq!(average(0x0000_0001, 0x0000_0000), 0x0000_0000);
    assert_eq!(average(0x0000_0003, 0x0000_0000), 0x0000_0002);
    assert_eq!(average(0x0000_0001, 0x0000_0002), 0x0000_0002);
    assert_eq!(average(0x7f7f_ffff, 0x7f7f_ffff), 0x7f80_0000);
    assert_eq!(average(0x7f80_0000, 0xff80_0000), QUIET_NAN);
    assert_eq!(average(0x7f80_0000, 0x3f80_0000), 0x7f80_0000);
    assert_eq!(average(0xff80_0000, 0x7f7f_ffff), 0xff80_0000);
    assert_eq!(average(0x7fc0_0001, 0x3f80_0000), QUIET_NAN);
    assert_eq!(average(0x3f80_0000, 0xffff_ffff), QUIET_NAN);
}

#[test]
fn average_agrees_on_all_pairs_of_interesting_values() {
    let values = interesting();
    for left in &values {
        for right in &values {
            check(*left, *right);
        }
    }
}

#[test]
fn average_agrees_near_interesting_values() {
    let values = interesting();
    for left in &values {
        for right in &values {
            for dl in 0..3u32 {
                for dr in 0..3u32 {
                    check(left.wrapping_add(dl), right.wrapping_sub(dr));
                }
            }
        }
    }
}

#[test]
fn average_agrees_on_random_pairs() {
    let mut state: u64 = 0x9e37_79b9_7f4a_7c15;
    let mut next = move || {
        state ^= state << 13;
        state ^= state >> 7;
        state ^= state << 17;
        state
    };
    for _ in 0..1_500_000 {
        let word = next();
        check(word as u32, (word >> 32) as u32);
    }
}

#[test]
fn average_agrees_on_pairs_with_close_exponents() {
    let mut state: u64 = 0x2545_f491_4f6c_dd1d;
    let mut next = move || {
        state ^= state << 13;
        state ^= state >> 7;
        state ^= state << 17;
        state
    };
    for _ in 0..1_500_000 {
        let word = next();
        let left = word as u32;
        let exponent = (left >> 23) & 0xff;
        let offset = ((word >> 32) % 61) as i64 - 30;
        let other = (exponent as i64 + offset).clamp(0, 255) as u32;
        let right = ((word >> 40) as u32 & 0x807f_ffff) | (other << 23);
        check(left, right);
    }
}

#[test]
fn average_agrees_on_audio_range_samples() {
    let mut state: u64 = 0x1234_5678_9abc_def1;
    let mut next = move || {
        state ^= state << 13;
        state ^= state >> 7;
        state ^= state << 17;
        state
    };
    for _ in 0..1_000_000 {
        let word = next();
        let left = ((word & 0xffff_ffff) as f32 / 2147483648.0 - 1.0).to_bits();
        let right = ((word >> 32) as f32 / 2147483648.0 - 1.0).to_bits();
        check(left, right);
        check(left, right ^ 0x8000_0000);
        check(left, left ^ 0x8000_0000);
    }
}
