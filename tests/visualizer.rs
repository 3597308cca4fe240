use pitch_pipeline::visualizer::{recent_notes, waveform_rows, WAVE_HEIGHT};

#[test]
fn waveform_column_heights() {
    // full scale 104: a sample of 104 fills 13 rows, 12 is one and a half rows
    let rows = waveform_rows(&vec![104, -12, 0, 5], 104, 4);
    assert_eq!(rows.len(), WAVE_HEIGHT);
    assert_eq!(rows[0], "█   ");
    assert_eq!(rows[11], "█▄  ");
    assert_eq!(rows[12], "██ ▅");
}

#[test]
fn waveform_samples_at_a_stride() {
    // 8 samples over 4 columns: every second sample
    let rows = waveform_rows(&vec![8, 0, 16, 0, 24, 0, 104, 0], 104, 4);
    assert_eq!(rows[12], "████");
    assert_eq!(rows[11], " ███");
    assert_eq!(rows[10], "  ██");
    assert_eq!(rows[0], "   █");
}

#[test]
fn recent_notes_keeps_last_lines() {
    let h = vec![(1, "a".to_string()), (2, "b".to_string()), (3, "c".to_string())];
    assert_eq!(recent_notes(&h, 2), vec![(2, "b".to_string()), (3, "c".to_string())]);
    assert_eq!(recent_notes(&h, 5), h);
}
