use audio_pipeline::bridge::BridgeConsumer;
use audio_pipeline::bridge::BridgeProducer;
use audio_pipeline::bridge::CaptureBridge;
use audio_pipeline::resampler::ConvertPlan;
use audio_pipeline::resampler::ResampleMode;
use audio_pipeline::vad::VadPhase;
use audio_pipeline::worker::PipelineWorker;
use audio_pipeline::worker::WorkerStep;
use audio_pipeline::worker::IDLE_SLEEP_MS;
use audio_pipeline::worker::MAX_DRAIN_BATCH;

fn ends(capacity: usize) -> (BridgeProducer, BridgeConsumer) {
    CaptureBridge::new(capacity).unwrap().split()
}

fn tone(len: usize, amplitude: f32) -> Vec<u32> {
    (0..len).map(|i| if i % 2 == 0 { amplitude } else { -amplitude }.to_bits()).collect()
}

fn delivered(step: WorkerStep) -> Vec<Vec<i16>> {
    match step {
        WorkerStep::Deliver(segments) => segments,
        other => panic!("expected a delivery, got {:?}", other),
    }
}

#[test]
fn constants_bound_the_iteration() {
    assert_eq!(MAX_DRAIN_BATCH, 4800);
    assert!(IDLE_SLEEP_MS <= 5);
}

#[test]
fn worker_needs_a_positive_rate() {
    let (_producer, consumer) = ends(16);
    assert!(PipelineWorker::new(consumer, 0).is_err());
    let (_producer, consumer) = ends(16);
    let worker = PipelineWorker::new(consumer, 16000).unwrap();
    assert_eq!(worker.mode(), ResampleMode::Passthrough);
    assert_eq!(worker.pending_len(), 0);
    assert_eq!(worker.phase(), VadPhase::Silence);
    assert_eq!(worker.conversion_failures(), 0);
}

#[test]
fn zeros_4800_at_16k_are_framed_and_emit_nothing() {
    let (mut producer, consumer) = ends(8192);
    let mut worker = PipelineWorker::new(consumer, 16000).unwrap();
    let outcome = producer.push(&vec![0.0f32.to_bits(); 4800]);
    assert_eq!(outcome.accepted, 4800);
    // three frames were completed, so the loop goes on at once, with nothing to forward
    assert_eq!(delivered(worker.poll(false, false)), Vec::<Vec<i16>>::new());
    assert_eq!(worker.pending_len(), 0);
    assert_eq!(worker.phase(), VadPhase::Silence);
    assert!(matches!(worker.poll(false, false), WorkerStep::Sleep));
}

#[test]
fn stop_and_terminate_leave_the_loop_untouched() {
    let (mut producer, consumer) = ends(8192);
    let mut worker = PipelineWorker::new(consumer, 16000).unwrap();
    producer.push(&tone(100, 0.5));
    assert!(matches!(worker.poll(true, false), WorkerStep::Exit));
    assert!(matches!(worker.poll(false, true), WorkerStep::Exit));
    assert!(matches!(worker.poll(true, true), WorkerStep::Exit));
    assert_eq!(worker.pending_len(), 0);
    // the samples are still in the bridge
    assert!(matches!(worker.poll(false, false), WorkerStep::Sleep));
    assert_eq!(worker.pending_len(), 100);
}

#[test]
fn terminate_flag_of_the_producer_ends_the_worker() {
    let (mut producer, consumer) = ends(4);
    let mut worker = PipelineWorker::new(consumer, 16000).unwrap();
    producer.push(&[0; 4]);
    for _ in 0..51 {
        producer.push(&[0; 4]);
    }
    assert!(producer.should_terminate());
    assert!(matches!(worker.poll(false, producer.should_terminate()), WorkerStep::Exit));
}

#[test]
fn poll_drains_at_most_one_batch() {
    let (mut producer, consumer) = ends(16384);
    let mut worker = PipelineWorker::new(consumer, 16000).unwrap();
    producer.push(&vec![0; 10_000]);
    delivered(worker.poll(false, false));
    assert_eq!(worker.pending_len(), 4800 % 1600);
    delivered(worker.poll(false, false));
    assert_eq!(worker.pending_len(), 9600 % 1600);
    assert!(matches!(worker.poll(false, false), WorkerStep::Sleep));
    assert_eq!(worker.pending_len(), 400);
}

#[test]
fn passthrough_utterance_comes_out_whole() {
    let (mut producer, consumer) = ends(1 << 16);
    let mut worker = PipelineWorker::new(consumer, 16000).unwrap();
    let mut segments: Vec<Vec<i16>> = Vec::new();
    let mut run = |producer: &mut BridgeProducer, worker: &mut PipelineWorker, raw: Vec<u32>| {
        assert_eq!(producer.push(&raw).dropped, 0);
        loop {
            match worker.poll(false, false) {
                WorkerStep::Deliver(out) => segments.extend(out),
                WorkerStep::Sleep => break,
                other => panic!("unexpected step {:?}", other),
            }
        }
    };
    run(&mut producer, &mut worker, tone(2 * 1600, 0.0));
    run(&mut producer, &mut worker, tone(4 * 1600, 0.5));
    run(&mut producer, &mut worker, tone(7 * 1600, 0.001));
    drop(run);
    assert_eq!(worker.phase(), VadPhase::Silence);
    // onset segment of three frames, one more voiced frame, closing segment of five
    let lengths: Vec<usize> = segments.iter().map(|s| s.len()).collect();
    assert_eq!(lengths, vec![3 * 1600, 1600, 5 * 1600]);
    let joined: Vec<i16> = segments.concat();
    assert_eq!(joined[0], 16384);
    assert_eq!(joined[1], -16384);
    assert_eq!(joined[4 * 1600 - 1], -16384);
    assert_eq!(joined[4 * 1600], 33);
    assert_eq!(joined[4 * 1600 + 1], -33);
    assert_eq!(joined.len(), 9 * 1600);
}

#[test]
fn convert_mode_hands_the_batch_out_with_a_plan() {
    let (mut producer, consumer) = ends(8192);
    let mut worker = PipelineWorker::new(consumer, 48000).unwrap();
    assert_eq!(worker.mode(), ResampleMode::Convert);
    assert!(matches!(worker.poll(false, false), WorkerStep::Sleep));
    let raw = tone(480, 0.5);
    producer.push(&raw);
    match worker.poll(false, false) {
        WorkerStep::Convert(batch, plan) => {
            assert_eq!(batch, raw);
            assert_eq!(plan, ConvertPlan { frames: 480, out_capacity: 2048, grow: false });
        },
        other => panic!("expected a conversion request, got {:?}", other),
    }
    // 160 converted samples do not fill a frame
    assert!(matches!(worker.finish(Some(vec![100; 160])), WorkerStep::Sleep));
    assert_eq!(worker.pending_len(), 160);
    assert_eq!(worker.conversion_failures(), 0);
}

#[test]
fn failed_conversion_drops_the_batch_and_goes_on() {
    let (mut producer, consumer) = ends(8192);
    let mut worker = PipelineWorker::new(consumer, 44100).unwrap();
    producer.push(&tone(441, 0.5));
    assert!(matches!(worker.poll(false, false), WorkerStep::Convert(_, _)));
    assert!(matches!(worker.finish(None), WorkerStep::Sleep));
    assert_eq!(worker.conversion_failures(), 1);
    assert_eq!(worker.pending_len(), 0);
    assert!(matches!(worker.finish(Some(vec![0; 3000])), WorkerStep::Sleep));
    assert_eq!(worker.conversion_failures(), 2);
    assert_eq!(worker.pending_len(), 0);
    let out = delivered(worker.finish(Some(vec![0; 1700])));
    assert!(out.is_empty());
    assert_eq!(worker.pending_len(), 100);
    assert_eq!(worker.conversion_failures(), 2);
}

#[test]
fn process_batch_and_ingest_follow_the_same_path() {
    let (_producer, consumer) = ends(16);
    let mut worker = PipelineWorker::new(consumer, 16000).unwrap();
    assert!(matches!(worker.process_batch(Vec::new()), WorkerStep::Sleep));
    assert!(matches!(worker.process_batch(tone(1599, 0.5)), WorkerStep::Sleep));
    assert_eq!(worker.pending_len(), 1599);
    let out = delivered(worker.ingest(&[1]));
    assert!(out.is_empty());
    assert_eq!(worker.pending_len(), 0);
    delivered(worker.process_batch(tone(1600, 0.5)));
    let out = delivered(worker.process_batch(tone(1600, 0.5)));
    assert_eq!(out.len(), 1);
    assert_eq!(out[0].len(), 3 * 1600);
    assert_eq!(out[0][1598], 16384);
    assert_eq!(out[0][1599], 1);
    assert_eq!(worker.phase(), VadPhase::Speech);
}

#[test]
fn into_consumer_gives_the_same_read_end_back() {
    let (mut producer, consumer) = ends(64);
    let mut worker = PipelineWorker::new(consumer, 16000).unwrap();
    producer.push(&[1, 2, 3]);
    assert!(matches!(worker.poll(false, false), WorkerStep::Sleep));
    assert_eq!(worker.pending_len(), 3);
    producer.push(&[7, 8, 9, 10]);
    assert!(matches!(worker.poll(true, false), WorkerStep::Exit));
    let mut consumer = worker.into_consumer();
    assert_eq!(consumer.drain(2), vec![7, 8]);
    producer.push(&[11]);
    assert_eq!(consumer.drain(10), vec![9, 10, 11]);
    let mut again = PipelineWorker::new(consumer, 16000).unwrap();
    producer.push(&[0; 5]);
    assert!(matches!(again.poll(false, false), WorkerStep::Sleep));
    assert_eq!(again.pending_len(), 5);
}
