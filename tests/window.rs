use pitch_pipeline::analysis::{analysis_window_size, first_frame};
use pitch_pipeline::window::{window_audio_samples, COEFF_ONE};

fn hann(window_size: usize) -> Vec<u32> {
    (0..window_size)
        .map(|i| {
            let position = i as f64 / (window_size - 1) as f64;
            let c = 0.5 * (1.0 - (2.0 * std::f64::consts::PI * position).cos());
            (c * COEFF_ONE as f64).round() as u32
        })
        .collect()
}

fn scaled(s: i32, c: u32) -> i32 {
    ((s as i64 * c as i64) / COEFF_ONE as i64) as i32
}

#[test]
fn frames_match_hann_formula() {
    let samples: Vec<i32> = (0..16).map(|i| (i * 1000 - 7000) as i32).collect();
    let w = 8;
    let coeffs = hann(w);
    let mut frames = Vec::new();
    window_audio_samples(&samples, &mut frames, w, &coeffs);
    assert_eq!(frames.len(), 5);
    for (f, frame) in frames.iter().enumerate() {
        assert_eq!(frame.len(), w);
        let start = f * 2;
        for i in 0..w - 1 {
            let c = 0.5 * (1.0 - (2.0 * std::f64::consts::PI * i as f64 / (w - 1) as f64).cos());
            let expected = samples[start + i] as f64 * c;
            assert!((frame[i] as f64 - expected).abs() < 1.5);
            assert_eq!(frame[i], scaled(samples[start + i], coeffs[i]));
        }
        assert_eq!(frame[w - 1], samples[start + w - 1]);
    }
}

#[test]
fn short_buffer_gives_no_frames() {
    let mut frames = vec![vec![1, 2, 3]];
    window_audio_samples(&vec![5; 7], &mut frames, 8, &hann(8));
    assert_eq!(frames, vec![vec![1, 2, 3]]);
}

#[test]
fn exact_window_gives_one_frame() {
    let samples = vec![10000; 8];
    let mut frames = Vec::new();
    window_audio_samples(&samples, &mut frames, 8, &vec![COEFF_ONE / 2; 8]);
    assert_eq!(frames, vec![vec![5000, 5000, 5000, 5000, 5000, 5000, 5000, 10000]]);
}

#[test]
fn negative_samples_truncate_toward_zero() {
    let mut frames = Vec::new();
    window_audio_samples(&vec![-3; 4], &mut frames, 4, &vec![COEFF_ONE / 2; 4]);
    assert_eq!(frames, vec![vec![-1, -1, -1, -3]]);
}

#[test]
fn chunk_is_analysed_with_one_frame_shorter_than_it() {
    assert_eq!(analysis_window_size(22050), Some(22049));
    assert_eq!(analysis_window_size(4), None);
    let chunk: Vec<i32> = (1..=9).collect();
    let w = analysis_window_size(chunk.len()).unwrap();
    let frame = first_frame(&chunk, w, &vec![COEFF_ONE; w]).unwrap();
    assert_eq!(frame, vec![1, 2, 3, 4, 5, 6, 7, 8]);
    assert_eq!(first_frame(&vec![1, 2, 3], 4, &vec![COEFF_ONE; 4]), None);
}
