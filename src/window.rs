use vstd::arithmetic::div_mod::lemma_fundamental_div_mod;
use vstd::prelude::*;

verus! {

/// Fixed-point one of a window coefficient (16 fractional bits).
pub const COEFF_ONE: u32 = 65536;

/// A sample scaled by a fixed-point coefficient, truncated toward zero.
pub open spec fn apply_coefficient(sample: int, coeff: int) -> int {
    if sample >= 0 {
        sample * coeff / COEFF_ONE as int
    } else {
        -((-sample) * coeff / COEFF_ONE as int)
    }
}

/// Distance between the starts of consecutive frames: a quarter window.
pub open spec fn hop_of(window_size: int) -> int {
    window_size / 4
}

/// Number of frames that fit in `len` samples.
pub open spec fn frame_count(len: int, window_size: int) -> int {
    if len < window_size {
        0
    } else {
        (len - window_size) / hop_of(window_size) + 1
    }
}

/// The frame that starts at sample `start`: each sample but the last is scaled
/// by its coefficient; the last is passed through unchanged.
pub open spec fn frame_at(samples: Seq<i32>, hann: Seq<u32>, window_size: int, start: int) -> Seq<i32> {
    Seq::new(
        window_size as nat,
        |i: int|
            if i < window_size - 1 {
                apply_coefficient(samples[start + i] as int, hann[i] as int) as i32
            } else {
                samples[start + i]
            },
    )
}

/// Whether every coefficient lies between zero and one.
pub open spec fn valid_coefficients(hann: Seq<u32>) -> bool {
    forall|i: int| 0 <= i < hann.len() ==> #[trigger] hann[i] <= COEFF_ONE
}

/// `m` frames fit (`m < x / h + 1`) exactly when the m-th start `m * h` leaves room (`<= x`).
proof fn lemma_frames_fit(m: int, h: int, x: int)
    requires
        m >= 0,
        h > 0,
        x >= 0,
    ensures
        (m < x / h + 1) == (m * h <= x),
{
    lemma_fundamental_div_mod(x, h);
    let q = x / h;
    let r = x % h;
    assert(0 <= r < h);
    if m <= q {
        assert(m * h <= x) by (nonlinear_arith)
            requires
                m <= q,
                h > 0,
                x == h * q + r,
                r >= 0,
        ;
    } else {
        assert(m * h > x) by (nonlinear_arith)
            requires
                m >= q + 1,
                h > 0,
                x == h * q + r,
                r < h,
        ;
    }
}

/// The frame at `start` lies inside the buffer, is one window long, scales all
/// but its last sample by their coefficients and keeps the last one as it is.
pub open spec fn frame_has_shape(samples: Seq<i32>, hann: Seq<u32>, window_size: int, start: int) -> bool {
    let frame = frame_at(samples, hann, window_size, start);
    &&& start + window_size <= samples.len()
    &&& frame.len() == window_size
    &&& frame[window_size - 1] == samples[start + window_size - 1]
    &&& forall|i: int|
        0 <= i < window_size - 1 ==> frame[i] as int == apply_coefficient(
            samples[start + i] as int,
            hann[i] as int,
        )
}

/// A coefficient between zero and one never increases a sample's magnitude.
proof fn lemma_coefficient_shrinks(sample: int, coeff: int)
    requires
        0 <= coeff <= COEFF_ONE,
    ensures
        sample >= 0 ==> 0 <= apply_coefficient(sample, coeff) <= sample,
        sample < 0 ==> sample <= apply_coefficient(sample, coeff) <= 0,
{
    let a = if sample >= 0 {
        sample
    } else {
        -sample
    };
    assert(0 <= a * coeff / 65536 <= a) by (nonlinear_arith)
        requires
            a >= 0,
            0 <= coeff <= 65536,
    ;
}

/// On a buffer at least one window long there is at least one frame; every
/// frame is exactly `window_size` long, its first `window_size - 1` samples are
/// the source samples times their coefficients, and its last sample is the
/// source sample unchanged.
pub proof fn lemma_frames_shape(samples: Seq<i32>, hann: Seq<u32>, window_size: int)
    requires
        window_size >= 4,
        samples.len() >= window_size,
        hann.len() == window_size,
        valid_coefficients(hann),
    ensures
        frame_count(samples.len() as int, window_size) >= 1,
        forall|f: int|
            0 <= f < frame_count(samples.len() as int, window_size) ==> #[trigger] frame_has_shape(
                samples,
                hann,
                window_size,
                f * hop_of(window_size),
            ),
{
    lemma_frames_fit(0, hop_of(window_size), samples.len() - window_size);
    assert forall|f: int|
        0 <= f < frame_count(samples.len() as int, window_size) implies #[trigger] frame_has_shape(
        samples,
        hann,
        window_size,
        f * hop_of(window_size),
    ) by {
        lemma_frames_fit(f, hop_of(window_size), samples.len() - window_size);
        let start = f * hop_of(window_size);
        assert forall|i: int| 0 <= i < window_size - 1 implies #[trigger] frame_at(
            samples,
            hann,
            window_size,
            start,
        )[i] as int == apply_coefficient(samples[start + i] as int, hann[i] as int) by {
            lemma_coefficient_shrinks(samples[start + i] as int, hann[i] as int);
        }
    }
}

fn scale_sample(sample: i32, coeff: u32) -> (r: i32)
    requires
        coeff <= COEFF_ONE,
    ensures
        r as int == apply_coefficient(sample as int, coeff as int),
{
    let magnitude: u64 = if sample >= 0 {
        sample as u64
    } else {
        (-(sample as i64)) as u64
    };
    assert(magnitude * coeff <= 2147483648 * 65536) by (nonlinear_arith)
        requires
            magnitude <= 2147483648,
            coeff <= 65536,
    ;
    let scaled = magnitude * (coeff as u64) / (COEFF_ONE as u64);
    assert(scaled <= magnitude) by (nonlinear_arith)
        requires
            scaled == magnitude * coeff / 65536,
            coeff <= 65536,
    ;
    if sample >= 0 {
        scaled as i32
    } else {
        -(scaled as i64) as i32
    }
}

/// Splits `samples` into overlapping windowed frames and appends them to
/// `windowed_samples`.
///
/// Frames are `window_size` long and start every `window_size / 4` samples,
/// for as long as a whole frame fits. `hann` holds the window's coefficients in
/// units of `COEFF_ONE`: coefficient `i` is `0.5 * (1 - cos(2 pi i / (window_size - 1)))`.
/// The last sample of each frame is not multiplied by its coefficient.
pub fn window_audio_samples(
    samples: &Vec<i32>,
    windowed_samples: &mut Vec<Vec<i32>>,
    window_size: usize,
    hann: &Vec<u32>,
)
    requires
        window_size >= 4,
        hann@.len() == window_size,
        valid_coefficients(hann@),
    ensures
        final(windowed_samples)@.len() == old(windowed_samples)@.len() + frame_count(
            samples@.len() as int,
            window_size as int,
        ),
        forall|j: int|
            0 <= j < old(windowed_samples)@.len() ==> #[trigger] final(windowed_samples)@[j]
                == old(windowed_samples)@[j],
        forall|f: int|
            0 <= f < frame_count(samples@.len() as int, window_size as int) ==> (
            #[trigger] final(windowed_samples)@[old(windowed_samples)@.len() + f])@ == frame_at(
                samples@,
                hann@,
                window_size as int,
                f * hop_of(window_size as int),
            ),
{
    let hop = window_size / 4;
    proof {
        if samples@.len() >= window_size {
            lemma_frames_fit(0, hop as int, samples@.len() - window_size);
        }
    }
    let ghost base = old(windowed_samples)@.len();
    let ghost count = frame_count(samples@.len() as int, window_size as int);
    let mut pos: usize = 0;
    let mut made: usize = 0;
    while pos <= samples.len() && samples.len() - pos >= window_size
        invariant
            hop == window_size / 4,
            hop >= 1,
            pos == made * hop,
            hann@.len() == window_size,
            valid_coefficients(hann@),
            base == old(windowed_samples)@.len(),
            windowed_samples@.len() == base + made,
            count == frame_count(samples@.len() as int, window_size as int),
            made <= count,
            (made < count) == (pos + window_size <= samples@.len()),
            forall|j: int| 0 <= j < base ==> #[trigger] windowed_samples@[j] == old(windowed_samples)@[j],
            forall|f: int|
                0 <= f < made ==> (#[trigger] windowed_samples@[base + f])@ == frame_at(
                    samples@,
                    hann@,
                    window_size as int,
                    f * hop,
                ),
        decreases samples@.len() + window_size - pos,
    {
        let mut frame: Vec<i32> = Vec::new();
        let mut i: usize = 0;
        while i < window_size
            invariant
                i <= window_size,
                pos + window_size <= samples@.len(),
                samples@.len() <= usize::MAX,
                hann@.len() == window_size,
                valid_coefficients(hann@),
                frame@.len() == i,
                forall|t: int| 0 <= t < i ==> #[trigger] frame@[t] == frame_at(
                    samples@,
                    hann@,
                    window_size as int,
                    pos as int,
                )[t],
            decreases window_size - i,
        {
            let s = samples[pos + i];
            if i + 1 < window_size {
                frame.push(scale_sample(s, hann[i]));
            } else {
                frame.push(s);
            }
            i += 1;
        }
        assert(frame@ =~= frame_at(samples@, hann@, window_size as int, pos as int));
        windowed_samples.push(frame);
        proof {
            lemma_frames_fit(made as int, hop as int, samples@.len() - window_size);
            lemma_frames_fit(made as int + 1, hop as int, samples@.len() - window_size);
        }
        assert((made + 1) * hop == made * hop + hop) by (nonlinear_arith);
        pos = pos + hop;
        made += 1;
    }
}

} // verus!
