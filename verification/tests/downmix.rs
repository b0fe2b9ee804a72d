use audio_pipeline::downmix::average_pairs;
use audio_pipeline::downmix::downmix;
use audio_pipeline::downmix::take_first_channel;

fn bits(samples: &[f32]) -> Vec<u32> {
    samples.iter().map(|x| x.to_bits()).collect()
}

#[test]
fn first_channel_of_each_whole_frame() {
    let mut mono = vec![99];
    take_first_channel(&[1, 2, 3, 4, 5, 6, 7, 8], 3, &mut mono);
    assert_eq!(mono, vec![1, 4]);
    take_first_channel(&[1, 2, 3, 4, 5, 6], 3, &mut mono);
    assert_eq!(mono, vec![1, 4]);
    take_first_channel(&[1, 2, 3, 4], 1, &mut mono);
    assert_eq!(mono, vec![1, 2, 3, 4]);
    take_first_channel(&[1, 2, 3, 4], 5, &mut mono);
    assert_eq!(mono, Vec::<u32>::new());
    take_first_channel(&[1, 2, 3, 4], 0, &mut mono);
    assert_eq!(mono, Vec::<u32>::new());
    take_first_channel(&[], 2, &mut mono);
    assert_eq!(mono, Vec::<u32>::new());
}

#[test]
fn stereo_pairs_are_averaged() {
    let mut mono = Vec::new();
    average_pairs(&bits(&[1.0, 0.0, 0.5, -0.5, 0.25, 0.75, 9.0]), &mut mono);
    assert_eq!(mono, bits(&[0.5, 0.0, 0.5]));
    average_pairs(&bits(&[1.0]), &mut mono);
    assert_eq!(mono, Vec::<u32>::new());
}

#[test]
fn stereo_average_is_what_float_arithmetic_gives() {
    let left = [0.1f32, -0.3, 1.0e-3, 0.999_999, -1.0, 3.3e-7];
    let right = [0.2f32, 0.7, -1.0e-3, 0.999_998, 0.333_333, 1.1e-9];
    let mut interleaved = Vec::new();
    for (l, r) in left.iter().zip(right.iter()) {
        interleaved.push(l.to_bits());
        interleaved.push(r.to_bits());
    }
    let mut mono = Vec::new();
    average_pairs(&interleaved, &mut mono);
    let expected: Vec<u32> =
        left.iter().zip(right.iter()).map(|(l, r)| ((l + r) * 0.5).to_bits()).collect();
    assert_eq!(mono, expected);
}

#[test]
fn downmix_picks_the_rule_by_channel_count() {
    let input = bits(&[0.5, -0.5, 0.25, 0.75, 1.0, 0.0]);
    let mut mono = Vec::new();
    downmix(&input, 1, &mut mono);
    assert_eq!(mono, input);
    downmix(&input, 2, &mut mono);
    assert_eq!(mono, bits(&[0.0, 0.5, 0.5]));
    downmix(&input, 3, &mut mono);
    assert_eq!(mono, bits(&[0.5, 0.75]));
    downmix(&input, 6, &mut mono);
    assert_eq!(mono, bits(&[0.5]));
    downmix(&input, 0, &mut mono);
    assert_eq!(mono, Vec::<u32>::new());
}
