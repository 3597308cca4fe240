use pitch_pipeline::analysis::chunk_result;
use pitch_pipeline::notes::Peak;
use pitch_pipeline::sequencer::{AnalysisResult, ResultSequencer};

fn result(timestamp: u64) -> AnalysisResult {
    AnalysisResult { timestamp, note: format!("n{}", timestamp) }
}

fn stamps(v: &[AnalysisResult]) -> Vec<u64> {
    v.iter().map(|r| r.timestamp).collect()
}

#[test]
fn drain_releases_in_order_once() {
    let mut q = ResultSequencer::new();
    q.push(result(5));
    q.push(result(1));
    q.push(result(3));
    assert_eq!(stamps(&q.drain_up_to(4)), vec![1, 3]);
    assert_eq!(stamps(&q.drain_up_to(4)), Vec::<u64>::new());
    assert_eq!(stamps(&q.drain_up_to(5)), vec![5]);
    assert_eq!(q.len(), 0);
}

#[test]
fn equal_timestamps_keep_push_order() {
    let mut q = ResultSequencer::new();
    q.push(AnalysisResult { timestamp: 2, note: "first".to_string() });
    q.push(result(1));
    q.push(AnalysisResult { timestamp: 2, note: "second".to_string() });
    let out = q.drain_up_to(2);
    let notes: Vec<&str> = out.iter().map(|r| r.note.as_str()).collect();
    assert_eq!(notes, vec!["n1", "first", "second"]);
}

#[test]
fn drain_before_everything_releases_nothing() {
    let mut q = ResultSequencer::new();
    q.push(result(10));
    assert!(q.drain_up_to(9).is_empty());
    assert_eq!(q.len(), 1);
}

#[test]
fn results_compare_by_timestamp_only() {
    let a = AnalysisResult { timestamp: 7, note: "x".to_string() };
    let b = AnalysisResult { timestamp: 7, note: "y".to_string() };
    let c = result(9);
    assert!(a == b);
    assert!(a != c);
    assert!(a < c);
    assert_eq!(c.partial_cmp(&a), Some(std::cmp::Ordering::Greater));
    assert_eq!(a.partial_cmp(&b), Some(std::cmp::Ordering::Equal));
}

#[test]
fn chunk_result_joins_band_labels() {
    let a4 = Peak { millihertz: 440_000, midi: 69, cents: 0 };
    let bands = vec![vec![a4], vec![]];
    let r = chunk_result(4410, &bands).unwrap();
    assert_eq!(r.timestamp, 4410);
    assert_eq!(r.note, "A4 (+0¢) | N/A");
}

#[test]
fn chunk_without_first_band_peaks_gives_no_result() {
    let a4 = Peak { millihertz: 440_000, midi: 69, cents: 0 };
    assert!(chunk_result(0, &vec![vec![], vec![a4]]).is_none());
    assert!(chunk_result(0, &vec![]).is_none());
}
