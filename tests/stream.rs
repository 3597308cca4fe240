use pitch_pipeline::stream::{next_tick_delay, AudioStreamer, Chunk};

fn all_chunks(s: &mut AudioStreamer) -> Vec<Chunk> {
    let mut out = Vec::new();
    while let Some(c) = s.next_chunk() {
        out.push(c);
    }
    out
}

#[test]
fn chunks_rebuild_the_buffer() {
    let samples: Vec<i32> = (0..10).collect();
    // 6 samples per second, 500 ms chunks: 3 samples each
    let mut s = AudioStreamer::new(samples.clone(), 6, 500);
    assert_eq!(s.chunk_size(), 3);
    let chunks = all_chunks(&mut s);
    assert_eq!(chunks.len(), 4);
    let joined: Vec<i32> = chunks.iter().flat_map(|c| c.samples.clone()).collect();
    assert_eq!(joined, samples);
    let stamps: Vec<u64> = chunks.iter().map(|c| c.timestamp).collect();
    assert_eq!(stamps, vec![0, 3, 6, 9]);
    let ends: Vec<bool> = chunks.iter().map(|c| c.end_of_stream).collect();
    assert_eq!(ends, vec![false, false, false, true]);
    assert!(s.is_finished());
}

#[test]
fn exact_multiple_marks_last_full_chunk() {
    let mut s = AudioStreamer::new((0..9).collect(), 6, 500);
    let chunks = all_chunks(&mut s);
    assert_eq!(chunks.len(), 3);
    assert!(chunks[2].end_of_stream);
    assert_eq!(chunks[2].samples, vec![6, 7, 8]);
}

#[test]
fn empty_buffer_streams_nothing() {
    let mut s = AudioStreamer::new(Vec::new(), 44100, 500);
    assert!(s.is_finished());
    assert!(s.next_chunk().is_none());
}

#[test]
fn paused_streamer_emits_nothing() {
    let mut s = AudioStreamer::new((0..10).collect(), 6, 500);
    s.toggle();
    assert!(s.next_chunk().is_none());
    assert_eq!(s.position(), 0);
    s.resume();
    assert_eq!(s.next_chunk().unwrap().samples, vec![0, 1, 2]);
    s.pause();
    assert!(s.is_paused());
}

#[test]
fn seeking_clamps_to_the_buffer() {
    let mut s = AudioStreamer::new((0..100).collect(), 6, 500);
    assert_eq!(s.seek_forward(5), 30);
    assert_eq!(s.next_chunk().unwrap().timestamp, 30);
    assert_eq!(s.seek_backward(5), 3);
    assert_eq!(s.seek_backward(5), 0);
    assert_eq!(s.seek_forward(100), 100);
    assert!(s.is_finished());
    assert!(s.next_chunk().is_none());
}

#[test]
fn tick_delay_catches_up() {
    // ticks every 500 ms from t = 1000 ms, in nanoseconds
    let ms = 1_000_000u64;
    assert_eq!(next_tick_delay(1000 * ms, 0, 500 * ms, 1100 * ms), 400 * ms);
    assert_eq!(next_tick_delay(1000 * ms, 3, 500 * ms, 2950 * ms), 50 * ms);
    assert_eq!(next_tick_delay(1000 * ms, 3, 500 * ms, 3100 * ms), 0);
    assert_eq!(next_tick_delay(0, u64::MAX, u64::MAX, 0), u64::MAX);
}
