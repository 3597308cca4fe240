use pitch_pipeline::playback::{AudioOutput, PlaybackConfig, VisualizerData};
use pitch_pipeline::ring::RingBuffer;
use pitch_pipeline::sequencer::{AnalysisResult, ResultSequencer};

fn config(fade: usize, amplitude_cap: usize, history_cap: usize) -> PlaybackConfig {
    PlaybackConfig {
        sample_rate: 44100,
        fade_samples: fade,
        low_water: 3,
        high_water: 100,
        amplitude_cap,
        history_cap,
    }
}

fn filled(samples: &[i32]) -> RingBuffer {
    let mut ring = RingBuffer::new(100);
    ring.push_chunk(&samples.to_vec());
    ring
}

#[test]
fn standard_config_values() {
    let c = PlaybackConfig::standard(44100);
    assert_eq!(c.fade_samples, 220);
    assert_eq!(c.low_water, 4410);
    assert_eq!(c.high_water, 176400);
    assert_eq!(c.amplitude_cap, 2048);
    assert_eq!(c.history_cap, 20);
}

#[test]
fn fade_ramps_down_then_silence() {
    let mut out = AudioOutput::new(config(4, 10, 5), 0);
    let mut ring = filled(&[1000; 10]);
    let mut q = ResultSequencer::new();
    let mut vis = VisualizerData::new(0);
    out.pause();
    let samples = out.pull(&mut ring, &mut q, &mut vis, 6);
    assert_eq!(samples, vec![1000, 750, 500, 250, 0, 0]);
    assert_eq!(ring.len(), 6);
    assert_eq!(out.state().clock, 0);
    // after the fade the buffer is left alone
    let more = out.pull(&mut ring, &mut q, &mut vis, 3);
    assert_eq!(more, vec![0, 0, 0]);
    assert_eq!(ring.len(), 6);
}

#[test]
fn fade_continues_across_pulls() {
    let mut out = AudioOutput::new(config(4, 10, 5), 0);
    let mut ring = filled(&[-800; 10]);
    let mut q = ResultSequencer::new();
    let mut vis = VisualizerData::new(0);
    out.toggle();
    assert_eq!(out.pull(&mut ring, &mut q, &mut vis, 2), vec![-800, -600]);
    assert_eq!(out.pull(&mut ring, &mut q, &mut vis, 3), vec![-400, -200, 0]);
}

#[test]
fn resume_plays_at_full_level_at_once() {
    let mut out = AudioOutput::new(config(4, 10, 5), 0);
    let mut ring = filled(&[1000; 10]);
    let mut q = ResultSequencer::new();
    let mut vis = VisualizerData::new(0);
    out.pause();
    out.pull(&mut ring, &mut q, &mut vis, 2);
    out.resume();
    assert_eq!(out.state().fade_count, 0);
    assert_eq!(out.pull(&mut ring, &mut q, &mut vis, 2), vec![1000, 1000]);
    out.toggle();
    assert_eq!(out.pull(&mut ring, &mut q, &mut vis, 1), vec![1000]);
}

#[test]
fn underrun_gives_silence_and_still_advances_clock() {
    let mut out = AudioOutput::new(config(4, 10, 5), 100);
    let mut ring = RingBuffer::new(10);
    let mut q = ResultSequencer::new();
    q.push(AnalysisResult { timestamp: 5, note: "A4 (+0¢)".to_string() });
    q.push(AnalysisResult { timestamp: 6, note: "B4 (+0¢)".to_string() });
    let mut vis = VisualizerData::new(100);
    let samples = out.pull(&mut ring, &mut q, &mut vis, 5);
    assert_eq!(samples, vec![0, 0, 0, 0, 0]);
    assert_eq!(out.state().clock, 5);
    assert_eq!(vis.current_time, 5);
    assert_eq!(vis.current_note, Some("A4 (+0¢)".to_string()));
    assert_eq!(q.len(), 1);
    assert!(out.running_low(&ring));
}

#[test]
fn playing_feeds_the_display() {
    let mut out = AudioOutput::new(config(4, 4, 2), 50);
    let mut ring = filled(&[1, 2, 3, 4, 5, 6]);
    let mut q = ResultSequencer::new();
    for t in [1u64, 2, 3, 9] {
        q.push(AnalysisResult { timestamp: t, note: format!("n{}", t) });
    }
    let mut vis = VisualizerData::new(50);
    assert_eq!(out.pull(&mut ring, &mut q, &mut vis, 3), vec![1, 2, 3]);
    assert_eq!(vis.amplitude_samples, vec![1, 2, 3]);
    assert_eq!(out.pull(&mut ring, &mut q, &mut vis, 2), vec![4, 5]);
    assert_eq!(vis.amplitude_samples, vec![2, 3, 4, 5]);
    assert_eq!(vis.note_history, vec![(2, "n2".to_string()), (3, "n3".to_string())]);
    assert_eq!(vis.current_note, Some("n3".to_string()));
    assert_eq!(vis.total_duration, 50);
    assert_eq!(ring.len(), 1);
    assert!(out.running_low(&ring));
}

#[test]
fn seek_resets_clock() {
    let mut out = AudioOutput::new(config(4, 4, 2), 50);
    out.update_current_playback_time(220500);
    assert_eq!(out.state().clock, 220500);
}

#[test]
fn ring_drops_what_does_not_fit() {
    let mut ring = RingBuffer::new(4);
    assert_eq!(ring.push_chunk(&vec![1, 2, 3]), 3);
    assert_eq!(ring.push_chunk(&vec![4, 5, 6]), 1);
    assert_eq!(ring.len(), 4);
    assert_eq!(ring.pop(), 1);
    assert_eq!(ring.pop(), 2);
    assert_eq!(ring.pop(), 3);
    assert_eq!(ring.pop(), 4);
    assert_eq!(ring.pop(), 0);
    assert_eq!(ring.capacity(), 4);
}

#[test]
fn ring_clear_empties() {
    let mut ring = filled(&[1, 2, 3]);
    ring.clear();
    assert_eq!(ring.len(), 0);
    assert_eq!(ring.pop(), 0);
}
