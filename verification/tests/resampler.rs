use audio_pipeline::format::create_format;
use audio_pipeline::resampler::ConvertPlan;
use audio_pipeline::resampler::ResampleError;
use audio_pipeline::resampler::ResampleMode;
use audio_pipeline::resampler::Resampled;
use audio_pipeline::resampler::Resampler;
use audio_pipeline::resampler::ResamplerError;
use audio_pipeline::resampler::CANONICAL_RATE;

fn plan_of(result: Result<Resampled, ResampleError>) -> ConvertPlan {
    match result {
        Ok(Resampled::Pending(plan)) => plan,
        other => panic!("expected a plan, got {:?}", other),
    }
}

fn ready_of(result: Result<Resampled, ResampleError>) -> Vec<i16> {
    match result {
        Ok(Resampled::Ready(samples)) => samples,
        other => panic!("expected samples, got {:?}", other),
    }
}

#[test]
fn canonical_rate_is_passthrough() {
    let resampler = Resampler::new(16000).unwrap();
    assert_eq!(resampler.mode(), ResampleMode::Passthrough);
    assert_eq!(resampler.input_rate(), 16000);
    assert_eq!(resampler.capacity(), 1024);
    assert_eq!(resampler.failures(), 0);
    assert_eq!(CANONICAL_RATE, 16000);
}

#[test]
fn other_rates_convert() {
    for rate in [1u32, 8000, 15999, 16001, 44100, 48000, 96000, u32::MAX] {
        let resampler = Resampler::new(rate).unwrap();
        assert_eq!(resampler.mode(), ResampleMode::Convert);
        assert_eq!(resampler.capacity(), 2048);
        assert_eq!(resampler.input_rate(), rate);
    }
}

#[test]
fn zero_rate_is_refused() {
    assert_eq!(Resampler::new(0).err(), Some(ResamplerError::InputFormat));
}

#[test]
fn resampler_describes_both_ends() {
    let resampler = Resampler::new(44100).unwrap();
    assert_eq!(Some(resampler.input_format()), create_format(44100, 1, true));
    assert_eq!(Some(resampler.output_format()), create_format(16000, 1, false));
}

#[test]
fn passthrough_resample_converts_in_place() {
    let mut resampler = Resampler::new(16000).unwrap();
    let raw: Vec<u32> = [0.0f32, 1.0, -1.0, 0.5].iter().map(|x| x.to_bits()).collect();
    let out = ready_of(resampler.resample(&raw));
    assert_eq!(out, vec![0, 32767, -32767, 16384]);
    assert_eq!(resampler.capacity(), 1024);
    let long: Vec<u32> = vec![0.5f32.to_bits(); 5000];
    let out = ready_of(resampler.resample(&long));
    assert_eq!(out.len(), 5000);
    assert!(out.iter().all(|s| *s == 16384));
    assert_eq!(resampler.capacity(), 1024);
}

#[test]
fn empty_batch_needs_no_converter() {
    let mut resampler = Resampler::new(48000).unwrap();
    assert_eq!(ready_of(resampler.resample(&[])), Vec::<i16>::new());
    assert_eq!(resampler.capacity(), 2048);
}

#[test]
fn tone_of_480_samples_at_48k_is_planned_and_160_accepted() {
    let mut resampler = Resampler::new(48000).unwrap();
    assert_eq!(resampler.mode(), ResampleMode::Convert);
    let tone: Vec<u32> = vec![0.25f32.to_bits(); 480];
    let plan = plan_of(resampler.resample(&tone));
    // ceil(480 * 16000 / 48000) + 10 = 170, but never less than the input.
    assert_eq!(plan, ConvertPlan { frames: 480, out_capacity: 2048, grow: false });
    let converted = vec![8192i16; 160];
    assert_eq!(resampler.complete(Some(converted.clone())), Ok(converted));
    assert_eq!(resampler.failures(), 0);
}

#[test]
fn capacity_grows_to_twice_the_estimate_and_never_shrinks() {
    let mut resampler = Resampler::new(8000).unwrap();
    let batch: Vec<u32> = vec![0; 4800];
    // ceil(4800 * 16000 / 8000) + 10 = 9610 > 2048
    let plan = plan_of(resampler.resample(&batch));
    assert_eq!(plan, ConvertPlan { frames: 4800, out_capacity: 19220, grow: true });
    assert_eq!(resampler.capacity(), 19220);
    let plan = plan_of(resampler.resample(&batch));
    assert_eq!(plan, ConvertPlan { frames: 4800, out_capacity: 19220, grow: false });
    let plan = plan_of(resampler.resample(&batch[..10]));
    assert_eq!(plan, ConvertPlan { frames: 10, out_capacity: 19220, grow: false });
    assert_eq!(resampler.capacity(), 19220);
}

#[test]
fn estimate_rounds_up_and_adds_the_margin() {
    // 44100 Hz: 1000 frames -> ceil(362.81...) = 363, + 10 = 373 < 1000
    let mut resampler = Resampler::new(44100).unwrap();
    let plan = plan_of(resampler.resample(&vec![0u32; 1000]));
    assert_eq!(plan, ConvertPlan { frames: 1000, out_capacity: 2048, grow: false });
    // 12000 Hz: 1537 frames -> ceil(2049.33...) = 2050, + 10 = 2060 > 2048
    let mut resampler = Resampler::new(12000).unwrap();
    let plan = plan_of(resampler.resample(&vec![0u32; 1537]));
    assert_eq!(plan, ConvertPlan { frames: 1537, out_capacity: 4120, grow: true });
    // 12000 Hz: 1528 frames -> ceil(2037.33...) = 2038, + 10 = 2048: fits exactly
    let mut resampler = Resampler::new(12000).unwrap();
    let plan = plan_of(resampler.resample(&vec![0u32; 1528]));
    assert_eq!(plan, ConvertPlan { frames: 1528, out_capacity: 2048, grow: false });
}

#[test]
fn severe_downsampling_keeps_capacity_at_least_input_length() {
    let mut resampler = Resampler::new(192000).unwrap();
    let plan = plan_of(resampler.resample(&vec![0u32; 4096]));
    // ceil(4096 / 12) + 10 = 352 < 4096, so the input length decides.
    assert_eq!(plan, ConvertPlan { frames: 4096, out_capacity: 8192, grow: true });
}

#[test]
fn oversized_batch_is_refused_and_changes_nothing() {
    let mut resampler = Resampler::new(1).unwrap();
    // 200000 frames at 1 Hz would need 2 * (3.2e9 + 10) frames of output.
    let result = resampler.resample(&vec![0u32; 200_000]);
    assert!(matches!(result, Err(ResampleError::BatchTooLarge)));
    assert_eq!(resampler.capacity(), 2048);
    assert_eq!(resampler.failures(), 0);
}

#[test]
fn failed_conversion_is_counted_and_survived() {
    let mut resampler = Resampler::new(48000).unwrap();
    plan_of(resampler.resample(&vec![0u32; 480]));
    assert_eq!(resampler.complete(None), Err(ResampleError::ConversionFailed));
    assert_eq!(resampler.failures(), 1);
    plan_of(resampler.resample(&vec![0u32; 480]));
    assert_eq!(resampler.complete(Some(vec![1, 2, 3])), Ok(vec![1, 2, 3]));
    assert_eq!(resampler.failures(), 1);
}

#[test]
fn output_longer_than_the_buffer_is_an_overrun() {
    let mut resampler = Resampler::new(48000).unwrap();
    plan_of(resampler.resample(&vec![0u32; 480]));
    assert_eq!(resampler.complete(Some(vec![0; 2049])), Err(ResampleError::OutputOverrun));
    assert_eq!(resampler.failures(), 1);
    assert_eq!(resampler.complete(Some(vec![0; 2048])), Ok(vec![0; 2048]));
    assert_eq!(resampler.capacity(), 2048);
}
