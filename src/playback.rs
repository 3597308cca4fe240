use vstd::prelude::*;

use crate::ring::{after_pops, popped, RingBuffer};
use crate::sequencer::{AnalysisResult, ResultSequencer};

verus! {

/// The sample value that stands for an amplitude of one.
pub const FULL_SCALE: u32 = 8388608;

/// Sample rate used when the input does not give one, in hertz.
pub const DEFAULT_SAMPLE_RATE: u32 = 44100;

/// Length of the pause crossfade, in milliseconds.
pub const FADE_MS: u32 = 5;

/// Most recent output samples kept for the waveform display.
pub const AMPLITUDE_CAP: usize = 2048;

/// Most recent labels kept in the note history.
pub const HISTORY_CAP: usize = 20;

/// Buffer depth, in samples, below which playback reports that it runs low.
pub const LOW_WATER: usize = 4410;

/// Capacity of the playback buffer, in samples.
pub const HIGH_WATER: usize = 176400;

/// A sample scaled by `num / den`, truncated toward zero.
pub open spec fn scaled(sample: int, num: int, den: int) -> int {
    if sample >= 0 {
        sample * num / den
    } else {
        -((-sample) * num / den)
    }
}

/// Scales a sample by `num / den`, with `num <= den`.
pub fn scale_by(sample: i32, num: usize, den: usize) -> (r: i32)
    requires
        0 < den,
        num <= den,
    ensures
        r as int == scaled(sample as int, num as int, den as int),
{
    let magnitude: u128 = if sample >= 0 {
        sample as u128
    } else {
        (-(sample as i64)) as u128
    };
    assert(magnitude * num <= 2147483648 * 0xffff_ffff_ffff_ffff) by (nonlinear_arith)
        requires
            magnitude <= 2147483648,
            num <= 0xffff_ffff_ffff_ffff,
    ;
    let s = magnitude * (num as u128) / (den as u128);
    assert(s <= magnitude) by {
        let x = magnitude as int * num as int;
        let d = den as int;
        assert(x <= magnitude * d) by (nonlinear_arith)
            requires
                x == magnitude as int * num as int,
                num <= d,
                magnitude >= 0,
        ;
        assert(x / d <= magnitude) by (nonlinear_arith)
            requires
                x <= magnitude * d,
                d > 0,
        ;
    }
    if sample >= 0 {
        s as i32
    } else {
        -(s as i64) as i32
    }
}

/// The tunable constants of playback.
#[derive(Clone, Copy, Debug, PartialEq, Eq)]
pub struct PlaybackConfig {
    /// Samples per second.
    pub sample_rate: u32,
    /// Samples over which a pause fades out.
    pub fade_samples: usize,
    /// Buffer depth below which playback runs low.
    pub low_water: usize,
    /// Capacity of the playback buffer.
    pub high_water: usize,
    /// Output samples kept for the waveform display.
    pub amplitude_cap: usize,
    /// Labels kept in the note history.
    pub history_cap: usize,
}

impl PlaybackConfig {
    /// The standard settings for `sample_rate`: a 5 ms fade, and the default
    /// buffer marks and display caps.
    pub fn standard(sample_rate: u32) -> (r: PlaybackConfig)
        ensures
            r.sample_rate == sample_rate,
            r.fade_samples == sample_rate * FADE_MS / 1000,
            r.low_water == LOW_WATER,
            r.high_water == HIGH_WATER,
            r.amplitude_cap == AMPLITUDE_CAP,
            r.history_cap == HISTORY_CAP,
    {
        let rate = sample_rate as u64;
        let ms = FADE_MS as u64;
        assert(rate * ms <= 0xffff_ffff * 5) by (nonlinear_arith)
            requires
                rate <= 0xffff_ffff,
                ms == 5,
        ;
        let fade = rate * ms / 1000;
        PlaybackConfig {
            sample_rate,
            fade_samples: fade as usize,
            low_water: LOW_WATER,
            high_water: HIGH_WATER,
            amplitude_cap: AMPLITUDE_CAP,
            history_cap: HISTORY_CAP,
        }
    }
}

/// What the display shows: the playback position, recent output samples,
/// recent labels and the current label. Times are in samples.
#[derive(Clone, Debug)]
pub struct VisualizerData {
    pub current_time: u64,
    pub amplitude_samples: Vec<i32>,
    pub note_history: Vec<(u64, String)>,
    pub current_note: Option<String>,
    pub total_duration: u64,
}

impl VisualizerData {
    /// Nothing played and nothing detected yet.
    pub fn new(total_duration: u64) -> (r: VisualizerData)
        ensures
            r.current_time == 0,
            r.amplitude_samples@ == Seq::<i32>::empty(),
            r.note_history@ == Seq::<(u64, String)>::empty(),
            r.current_note == None::<String>,
            r.total_duration == total_duration,
    {
        VisualizerData {
            current_time: 0,
            amplitude_samples: Vec::new(),
            note_history: Vec::new(),
            current_note: None,
            total_duration,
        }
    }
}

/// The last `cap` entries of `s` (all of them when there are fewer).
pub open spec fn keep_last<T>(s: Seq<T>, cap: int) -> Seq<T> {
    if s.len() > cap {
        s.subrange(s.len() - cap, s.len() as int)
    } else {
        s
    }
}

/// History entries for released results: their timestamps and labels.
pub open spec fn history_entries(released: Seq<AnalysisResult>) -> Seq<(u64, String)> {
    Seq::new(released.len(), |i: int| (released[i].timestamp, released[i].note))
}

/// The state of the playback engine.
#[derive(Clone, Copy, Debug, PartialEq, Eq)]
pub struct PlaybackState {
    /// Whether a pause was asked for (the engine fades out, then is silent).
    pub paused: bool,
    /// Samples of the fade emitted since the pause began.
    pub fade_count: usize,
    /// Playback clock: samples played since the start (or since the last seek).
    pub clock: u64,
}

/// Number of samples that the fade still takes from the buffer in a pull of `n`.
pub open spec fn fade_pops(fade_count: int, fade_samples: int, n: int) -> int {
    if fade_count >= fade_samples {
        0
    } else if n < fade_samples - fade_count {
        n
    } else {
        fade_samples - fade_count
    }
}

/// Output of a pull of `n` while paused: the next samples of the buffer scaled
/// by `1 - k / fade_samples`, where `k` counts the fade's samples so far, then
/// silence once the fade is complete.
pub open spec fn faded(buf: Seq<i32>, fade_count: int, fade_samples: int, n: int) -> Seq<i32> {
    let m = fade_pops(fade_count, fade_samples, n);
    Seq::new(
        n as nat,
        |i: int|
            if i < m {
                scaled(
                    popped(buf, m)[i] as int,
                    fade_samples - (fade_count + i),
                    fade_samples,
                ) as i32
            } else {
                0i32
            },
    )
}

/// A pause that starts from a fresh fade scales the `k`-th sample it takes
/// from the buffer by `1 - k / fade_samples`, and from the `fade_samples`-th
/// output sample on emits exact silence.
pub proof fn lemma_fade_from_pause(buf: Seq<i32>, fade_samples: int, n: int)
    requires
        fade_samples >= 0,
        n >= 0,
    ensures
        forall|k: int|
            0 <= k < n ==> #[trigger] faded(buf, 0, fade_samples, n)[k] == if k < fade_samples {
                scaled(popped(buf, n)[k] as int, fade_samples - k, fade_samples) as i32
            } else {
                0i32
            },
{
}

/// Underrun: an empty buffer gives silence for every sample asked for, and
/// stays empty.
pub proof fn lemma_underrun_is_silence(n: int)
    requires
        n >= 0,
    ensures
        popped(Seq::<i32>::empty(), n) == Seq::new(n as nat, |i: int| 0i32),
        after_pops(Seq::<i32>::empty(), n) == Seq::<i32>::empty(),
{
    assert(popped(Seq::<i32>::empty(), n) =~= Seq::new(n as nat, |i: int| 0i32));
}

/// The playback engine: it drains the sample buffer for the output device,
/// keeps the playback clock, fades out on pause, and hands analysis results to
/// the display once playback reaches them.
pub struct AudioOutput {
    pub config: PlaybackConfig,
    pub total_duration: u64,
    pub state: PlaybackState,
}

impl AudioOutput {
    /// A playing engine at time zero.
    pub fn new(config: PlaybackConfig, total_duration: u64) -> (r: AudioOutput)
        ensures
            r.config == config,
            r.total_duration == total_duration,
            r.state == (PlaybackState { paused: false, fade_count: 0, clock: 0 }),
    {
        AudioOutput { config, total_duration, state: PlaybackState { paused: false, fade_count: 0, clock: 0 } }
    }

    /// The engine's state.
    pub fn state(&self) -> (r: PlaybackState)
        ensures
            r == self.state,
    {
        self.state
    }

    /// Asks for a pause: the output fades out, then falls silent.
    pub fn pause(&mut self)
        ensures
            final(self).config == old(self).config,
            final(self).total_duration == old(self).total_duration,
            final(self).state == (PlaybackState { paused: true, ..old(self).state }),
    {
        self.state.paused = true;
    }

    /// Resumes playback at once; the next pause fades from the start again.
    pub fn resume(&mut self)
        ensures
            final(self).config == old(self).config,
            final(self).total_duration == old(self).total_duration,
            final(self).state == (PlaybackState { paused: false, fade_count: 0, ..old(self).state }),
    {
        self.state.paused = false;
        self.state.fade_count = 0;
    }

    /// Pauses when playing, resumes when paused.
    pub fn toggle(&mut self)
        ensures
            final(self).config == old(self).config,
            final(self).total_duration == old(self).total_duration,
            final(self).state.paused == !old(self).state.paused,
            final(self).state.clock == old(self).state.clock,
            final(self).state.fade_count == if old(self).state.paused {
                0
            } else {
                old(self).state.fade_count
            },
    {
        self.state.paused = !self.state.paused;
        if !self.state.paused {
            self.state.fade_count = 0;
        }
    }

    /// Moves the playback clock to `position` (after a seek).
    pub fn update_current_playback_time(&mut self, position: u64)
        ensures
            final(self).config == old(self).config,
            final(self).total_duration == old(self).total_duration,
            final(self).state == (PlaybackState { clock: position, ..old(self).state }),
    {
        self.state.clock = position;
    }

    /// Whether the buffer holds fewer samples than the low-water mark.
    pub fn running_low(&self, ring: &RingBuffer) -> (r: bool)
        ensures
            r == (ring@.len() < self.config.low_water),
    {
        ring.len() < self.config.low_water
    }

    /// Produces the next `n` output samples for the device.
    ///
    /// Playing: takes `n` samples from the buffer (silence where it runs
    /// out), advances the clock by `n`, appends the samples to the display's
    /// waveform (keeping the most recent `amplitude_cap`), releases every
    /// queued result that the clock has reached, and puts their labels in the
    /// note history (keeping the most recent `history_cap`), the last one as
    /// the current label.
    ///
    /// Paused: while the fade lasts, takes samples from the buffer scaled by
    /// `1 - k / fade_samples` for the fade's `k`-th sample; after it, emits
    /// silence without touching the buffer. The clock stands still.
    pub fn pull(
        &mut self,
        ring: &mut RingBuffer,
        results: &mut ResultSequencer,
        vis: &mut VisualizerData,
        n: usize,
    ) -> (out: Vec<i32>)
        requires
            old(self).state.paused || old(self).state.clock + n <= u64::MAX,
        ensures
            final(self).config == old(self).config,
            final(self).total_duration == old(self).total_duration,
            final(self).state.paused == old(self).state.paused,
            final(ring).spec_capacity() == old(ring).spec_capacity(),
            old(self).state.paused ==> {
                let m = fade_pops(old(self).state.fade_count as int, old(self).config.fade_samples as int, n as int);
                &&& out@ == faded(old(ring)@, old(self).state.fade_count as int, old(self).config.fade_samples as int, n as int)
                &&& final(ring)@ == after_pops(old(ring)@, m)
                &&& final(self).state.fade_count == old(self).state.fade_count + m
                &&& final(self).state.clock == old(self).state.clock
                &&& final(results)@ == old(results)@
                &&& *final(vis) == *old(vis)
            },
            !old(self).state.paused ==> {
                let clock = old(self).state.clock + n;
                &&& out@ == popped(old(ring)@, n as int)
                &&& final(ring)@ == after_pops(old(ring)@, n as int)
                &&& final(self).state.fade_count == old(self).state.fade_count
                &&& final(self).state.clock == clock
                &&& final(vis).current_time == clock
                &&& final(vis).total_duration == old(self).total_duration
                &&& final(vis).amplitude_samples@ == keep_last(
                    old(vis).amplitude_samples@ + out@,
                    old(self).config.amplitude_cap as int,
                )
                &&& exists|released: Seq<AnalysisResult>|
                    {
                        &&& released + final(results)@ == old(results)@
                        &&& forall|i: int| 0 <= i < released.len() ==> (#[trigger] released[i]).timestamp <= clock
                        &&& forall|i: int|
                            0 <= i < final(results)@.len() ==> (#[trigger] final(results)@[i]).timestamp > clock
                        &&& final(vis).note_history@ == keep_last(
                            old(vis).note_history@ + history_entries(released),
                            old(self).config.history_cap as int,
                        )
                        &&& final(vis).current_note == if released.len() > 0 {
                            Some(released.last().note)
                        } else {
                            old(vis).current_note
                        }
                    }
            },
    {
        let ghost buf = ring@;
        let mut out: Vec<i32> = Vec::new();
        if self.state.paused {
            let ghost fade0 = self.state.fade_count as int;
            let d = self.config.fade_samples;
            let ghost m = fade_pops(fade0, d as int, n as int);
            let mut i: usize = 0;
            while i < n
                invariant
                    i <= n,
                    d == self.config.fade_samples,
                    m == fade_pops(fade0, d as int, n as int),
                    self.state.fade_count == fade0 + fade_pops(fade0, d as int, i as int),
                    ring@ == after_pops(buf, fade_pops(fade0, d as int, i as int)),
                    ring.spec_capacity() == old(ring).spec_capacity(),
                    buf == old(ring)@,
                    out@.len() == i,
                    forall|t: int| 0 <= t < i ==> #[trigger] out@[t] == faded(buf, fade0, d as int, n as int)[t],
                    self.config == old(self).config,
                    self.total_duration == old(self).total_duration,
                    self.state.paused == old(self).state.paused,
                    self.state.clock == old(self).state.clock,
                    fade0 == old(self).state.fade_count,
                decreases n - i,
            {
                if self.state.fade_count < d {
                    let k = self.state.fade_count;
                    let s = ring.pop();
                    proof {
                        let j = fade_pops(fade0, d as int, i as int);
                        assert(j == i);
                        assert(after_pops(after_pops(buf, j), 1) =~= after_pops(buf, j + 1));
                        assert(popped(buf, m)[j] == popped(after_pops(buf, j), 1)[0]);
                    }
                    out.push(scale_by(s, d - k, d));
                    self.state.fade_count = k + 1;
                } else {
                    out.push(0);
                }
                i += 1;
            }
            assert(out@ =~= faded(buf, fade0, d as int, n as int));
            return out;
        }
        let ghost vis0 = *vis;
        let mut i: usize = 0;
        while i < n
            invariant
                i <= n,
                ring@ == after_pops(buf, i as int),
                ring.spec_capacity() == old(ring).spec_capacity(),
                buf == old(ring)@,
                out@ == popped(buf, i as int),
                vis.amplitude_samples@ == vis0.amplitude_samples@ + out@,
                vis.note_history == vis0.note_history,
                vis.current_note == vis0.current_note,
            decreases n - i,
        {
            let s = ring.pop();
            proof {
                assert(after_pops(after_pops(buf, i as int), 1) =~= after_pops(buf, i + 1));
            }
            out.push(s);
            vis.amplitude_samples.push(s);
            proof {
                assert(out@ =~= popped(buf, i + 1));
            }
            i += 1;
        }
        let clock = self.state.clock + n as u64;
        self.state.clock = clock;
        vis.current_time = clock;
        vis.total_duration = self.total_duration;
        let cap = self.config.amplitude_cap;
        let len = vis.amplitude_samples.len();
        if len > cap {
            let tail = vis.amplitude_samples.split_off(len - cap);
            vis.amplitude_samples = tail;
        }
        assert(vis.amplitude_samples@ =~= keep_last(vis0.amplitude_samples@ + out@, cap as int));
        let ghost old_amp = vis.amplitude_samples;
        let released = results.drain_up_to(clock);
        let mut j: usize = 0;
        while j < released.len()
            invariant
                j <= released@.len(),
                vis.amplitude_samples == old_amp,
                vis.current_time == clock,
                vis.total_duration == old(self).total_duration,
                vis.note_history@ == vis0.note_history@ + history_entries(released@.subrange(0, j as int)),
                vis.current_note == if j > 0 {
                    Some(released@[j - 1].note)
                } else {
                    vis0.current_note
                },
            decreases released@.len() - j,
        {
            let ts = released[j].timestamp;
            let note = released[j].note.clone();
            vis.current_note = Some(note.clone());
            vis.note_history.push((ts, note));
            proof {
                assert(history_entries(released@.subrange(0, j + 1)) =~= history_entries(
                    released@.subrange(0, j as int),
                ).push((ts, released@[j as int].note)));
            }
            j += 1;
        }
        assert(released@.subrange(0, released@.len() as int) =~= released@);
        let hcap = self.config.history_cap;
        let hlen = vis.note_history.len();
        if hlen > hcap {
            let tail = vis.note_history.split_off(hlen - hcap);
            vis.note_history = tail;
        }
        assert(vis.note_history@ =~= keep_last(
            vis0.note_history@ + history_entries(released@),
            hcap as int,
        ));
        assert(released@ + results@ == old(results)@);
        out
    }
}

} // verus!
