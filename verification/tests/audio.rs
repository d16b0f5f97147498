use voxmim::audio::noise_filter::{NoiseFilter, NoiseLevel};
use voxmim::audio::processor::{AudioProcessor, ChunkStep, ProcessorAction};
use voxmim::audio::ring_buffer::RingBuffer;
use voxmim::vad::detector::{VadEvent, VadState};

fn loud(samples: &[f32], threshold: f32) -> bool {
    if samples.is_empty() {
        return false;
    }
    let rms = (samples.iter().map(|s| s * s).sum::<f32>() / samples.len() as f32).sqrt();
    rms > threshold
}

fn frames(secs: f32, rate: u32) -> usize {
    (secs * rate as f32) as usize
}

#[test]
fn test_silence() {
    let mut vad = VadState::new(frames(0.5, 16000));
    let silent = vec![0.0f32; 1600];
    assert_eq!(vad.process(loud(&silent, 0.008), silent.len()), VadEvent::Silence);
}

#[test]
fn test_speech_start() {
    let mut vad = VadState::new(frames(0.5, 16000));
    let l = vec![0.1f32; 1600];
    assert_eq!(vad.process(loud(&l, 0.008), l.len()), VadEvent::SpeechStart);
}

#[test]
fn vad_speech_ends_after_enough_quiet() {
    let mut vad = VadState::new(3200);
    assert_eq!(vad.process(true, 1600), VadEvent::SpeechStart);
    assert_eq!(vad.process(true, 1600), VadEvent::Speech);
    assert_eq!(vad.process(false, 1600), VadEvent::Speech);
    assert_eq!(vad.process(true, 1600), VadEvent::Speech);
    assert_eq!(vad.process(false, 1600), VadEvent::Speech);
    assert_eq!(vad.process(false, 1600), VadEvent::Silence);
    assert_eq!(vad.process(false, 1600), VadEvent::Silence);
    assert_eq!(vad.process(true, 0), VadEvent::Silence);
    assert_eq!(vad.process(true, 10), VadEvent::SpeechStart);
    vad.reset();
    assert_eq!(vad.process(true, 10), VadEvent::SpeechStart);
}

#[test]
fn processor_auto_stop_after_speech() {
    let mut p = AudioProcessor::new(3200, 1600, 32000);
    assert_eq!(p.on_chunk(800, true, true), ChunkStep::RecordAndAccumulate);
    assert_eq!(p.on_chunk(800, true, true), ChunkStep::RecordAndAnalyze);
    assert_eq!(p.analyze(true), ProcessorAction::Continue);
    assert_eq!(p.pending(), 0);
    assert_eq!(p.on_chunk(1600, true, true), ChunkStep::RecordAndAnalyze);
    assert_eq!(p.analyze(false), ProcessorAction::Continue);
    assert_eq!(p.on_chunk(1600, true, true), ChunkStep::RecordAndAnalyze);
    assert_eq!(p.analyze(false), ProcessorAction::AutoStop);
}

#[test]
fn processor_start_timeout_without_speech() {
    let mut p = AudioProcessor::new(3200, 1600, 4800);
    for _ in 0..2 {
        assert_eq!(p.on_chunk(1600, true, true), ChunkStep::RecordAndAnalyze);
        assert_eq!(p.analyze(false), ProcessorAction::Continue);
    }
    assert_eq!(p.on_chunk(1600, true, true), ChunkStep::RecordAndAnalyze);
    assert_eq!(p.analyze(false), ProcessorAction::StartTimeout);
}

#[test]
fn processor_without_vad_or_recording() {
    let mut p = AudioProcessor::new(3200, 1600, 4800);
    assert_eq!(p.on_chunk(5000, true, false), ChunkStep::Record);
    assert_eq!(p.pending(), 0);
    assert_eq!(p.on_chunk(800, true, true), ChunkStep::RecordAndAccumulate);
    assert_eq!(p.on_chunk(800, false, true), ChunkStep::Discard);
    assert_eq!(p.pending(), 0);
}

#[test]
fn ring_buffer_keeps_latest() {
    let mut rb: RingBuffer<i32> = RingBuffer::new(3);
    assert!(rb.is_empty());
    rb.push(&[1, 2]);
    rb.push(&[3, 4, 5]);
    assert_eq!(rb.len(), 3);
    assert_eq!(rb.drain(), vec![3, 4, 5]);
    assert!(rb.is_empty());
    rb.push(&[7]);
    rb.reset();
    assert_eq!(rb.len(), 0);
}

#[test]
fn ring_buffer_zero_capacity_keeps_one() {
    let mut rb: RingBuffer<i32> = RingBuffer::new(0);
    rb.push(&[1, 2, 3]);
    assert_eq!(rb.drain(), vec![3]);
}

#[test]
fn noise_filter_levels() {
    let mut f = NoiseFilter::new(NoiseLevel::Off);
    assert!(!f.is_enabled());
    f.set_level(NoiseLevel::High);
    assert!(f.is_enabled());
    assert_eq!(f.level(), NoiseLevel::High);
    assert!(NoiseFilter::new(NoiseLevel::Low).is_enabled());
}
