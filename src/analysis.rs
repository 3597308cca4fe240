use vstd::prelude::*;

use crate::notes::{bands_label, label_bands, Peak};
use crate::sequencer::AnalysisResult;
use crate::window::{frame_at, frame_count, valid_coefficients, window_audio_samples};

verus! {

/// Peaks kept per band when a chunk is analysed.
pub const K_PER_BAND: usize = 3;

/// Smallest frame that can be windowed (its hop, a quarter of it, is at least one).
pub const MIN_WINDOW: usize = 4;

/// The frame length used to analyse a chunk of `chunk_len` samples: one less
/// than the chunk, when that is long enough to window.
pub fn analysis_window_size(chunk_len: usize) -> (r: Option<usize>)
    ensures
        chunk_len >= MIN_WINDOW + 1 ==> r == Some((chunk_len - 1) as usize),
        chunk_len < MIN_WINDOW + 1 ==> r is None,
{
    if chunk_len >= MIN_WINDOW + 1 {
        Some(chunk_len - 1)
    } else {
        None
    }
}

/// The first windowed frame of `chunk`, if a whole frame fits.
pub fn first_frame(chunk: &Vec<i32>, window_size: usize, hann: &Vec<u32>) -> (r: Option<Vec<i32>>)
    requires
        window_size >= MIN_WINDOW,
        hann@.len() == window_size,
        valid_coefficients(hann@),
    ensures
        chunk@.len() < window_size ==> r is None,
        chunk@.len() >= window_size ==> r is Some && r->0@ == frame_at(
            chunk@,
            hann@,
            window_size as int,
            0,
        ),
{
    let mut frames: Vec<Vec<i32>> = Vec::new();
    let ghost before = frames@;
    window_audio_samples(chunk, &mut frames, window_size, hann);
    if frames.len() == 0 {
        assert(frame_count(chunk@.len() as int, window_size as int) == 0);
        None
    } else {
        assert(frame_count(chunk@.len() as int, window_size as int) >= 1);
        assert(chunk@.len() >= window_size);
        let ghost f: int = 0;
        assert(frames@[before.len() + f]@ == frame_at(chunk@, hann@, window_size as int, f * (window_size as int / 4)));
        Some(frames.remove(0))
    }
}

/// The analysis result of a chunk from its bands' peaks: the bands' labels
/// joined with ` | `, stamped with the chunk's timestamp. A chunk whose first
/// band found no peak gives no result.
pub fn chunk_result(timestamp: u64, bands: &Vec<Vec<Peak>>) -> (r: Option<AnalysisResult>)
    ensures
        (bands@.len() == 0 || bands@[0]@.len() == 0) ==> r is None,
        !(bands@.len() == 0 || bands@[0]@.len() == 0) ==> r is Some && r->0.timestamp == timestamp
            && r->0.note@ == bands_label(bands@),
{
    if bands.len() == 0 || bands[0].len() == 0 {
        None
    } else {
        Some(AnalysisResult { timestamp, note: label_bands(bands) })
    }
}

} // verus!
