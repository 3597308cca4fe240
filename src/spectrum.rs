use vstd::arithmetic::div_mod::lemma_fundamental_div_mod;
use vstd::prelude::*;

verus! {

/// Number of frequency bands searched for peaks.
pub const BAND_COUNT: usize = 4;

/// Fixed-point one of the frequency weight (16 fractional bits).
pub const WEIGHT_ONE: u64 = 65536;

/// Lower edge, in hertz, of each band: 50, 250, 800, 2000.
pub open spec fn band_low_hz(band: int) -> int {
    if band == 0 {
        50
    } else if band == 1 {
        250
    } else if band == 2 {
        800
    } else {
        2000
    }
}

/// Upper edge, in hertz, of each band: 250, 800, 2000, 6000.
pub open spec fn band_high_hz(band: int) -> int {
    if band == 0 {
        250
    } else if band == 1 {
        800
    } else if band == 2 {
        2000
    } else {
        6000
    }
}

/// The bin index of a band edge: `floor(hz * window_size / sample_rate)`.
pub open spec fn edge_bin(hz: int, sample_rate: int, window_size: int) -> int {
    hz * window_size / sample_rate
}

/// Frequency of a bin, in millihertz: `floor(bin * sample_rate * 1000 / window_size)`.
pub open spec fn bin_millihertz(bin: int, sample_rate: int, window_size: int) -> int {
    bin * sample_rate * 1000 / window_size
}

pub open spec fn is_floor_sqrt(r: int, x: int) -> bool {
    0 <= r && r * r <= x && x < (r + 1) * (r + 1)
}

/// The integer square root, rounded down.
pub open spec fn floor_sqrt(x: int) -> int {
    choose|r: int| is_floor_sqrt(r, x)
}

/// The weight that favours higher frequencies, in units of `WEIGHT_ONE`:
/// one up to 400 Hz, then `min(2, sqrt(f / 400))`. The square root reaches two
/// at 1600 Hz, so above that the weight is two.
pub open spec fn frequency_weight(millihertz: int) -> int {
    if millihertz <= 400000 {
        WEIGHT_ONE as int
    } else if millihertz >= 1600000 {
        2 * WEIGHT_ONE
    } else {
        floor_sqrt(millihertz * 4294967296 / 400000)
    }
}

/// A bin's magnitude times the weight of its frequency.
pub open spec fn weighted_magnitude(mags: Seq<u32>, sample_rate: int, window_size: int, bin: int) -> int {
    mags[bin] * frequency_weight(bin_millihertz(bin, sample_rate, window_size))
}

/// Ranking of candidate bins: by weighted magnitude, larger first; equal
/// magnitudes keep ascending bin order.
pub open spec fn ranks_before(w1: int, b1: int, w2: int, b2: int) -> bool {
    w1 > w2 || (w1 == w2 && b1 < b2)
}

pub proof fn lemma_floor_sqrt_unique(r: int, s: int, x: int)
    requires
        is_floor_sqrt(r, x),
        is_floor_sqrt(s, x),
    ensures
        r == s,
{
    if r < s {
        assert((r + 1) * (r + 1) <= s * s) by (nonlinear_arith)
            requires
                0 <= r,
                r + 1 <= s,
        ;
    } else if s < r {
        assert((s + 1) * (s + 1) <= r * r) by (nonlinear_arith)
            requires
                0 <= s,
                s + 1 <= r,
        ;
    }
}

/// Integer square root by bisection.
fn isqrt(x: u64) -> (r: u64)
    ensures
        is_floor_sqrt(r as int, x as int),
{
    let mut lo: u64 = 0;
    let mut hi: u64 = 4294967296;
    assert(x < 4294967296 * 4294967296);
    while hi - lo > 1
        invariant
            lo < hi <= 4294967296,
            lo * lo <= x,
            x < hi * hi,
        decreases hi - lo,
    {
        let mid = lo + (hi - lo) / 2;
        assert(mid * mid <= 4294967295 * 4294967295) by (nonlinear_arith)
            requires
                mid <= 4294967295,
        ;
        if mid * mid <= x {
            lo = mid;
        } else {
            hi = mid;
        }
    }
    lo
}

/// The weight of a frequency, as `frequency_weight` states it.
fn weight_of(millihertz: u128) -> (r: u64)
    ensures
        r == frequency_weight(millihertz as int),
        r <= 2 * WEIGHT_ONE,
{
    if millihertz <= 400000 {
        WEIGHT_ONE
    } else if millihertz >= 1600000 {
        2 * WEIGHT_ONE
    } else {
        let x = (millihertz as u64) * 4294967296 / 400000;
        let r = isqrt(x);
        proof {
            lemma_floor_sqrt_unique(r as int, floor_sqrt(x as int), x as int);
            assert(x < 17179869184);
            if r > 131072 {
                assert(r * r > 131072 * 131072) by (nonlinear_arith)
                    requires
                        r > 131072,
                ;
            }
        }
        r
    }
}

/// `bins` holds the `k` best-ranked bins of `lo..hi` (all of them when there
/// are fewer), best first.
pub open spec fn is_top_bins(
    mags: Seq<u32>,
    sample_rate: int,
    window_size: int,
    lo: int,
    hi: int,
    k: int,
    bins: Seq<usize>,
) -> bool {
    let n = if hi > lo {
        hi - lo
    } else {
        0
    };
    &&& bins.len() == if k < n {
        k
    } else {
        n
    }
    &&& forall|i: int| 0 <= i < bins.len() ==> lo <= #[trigger] bins[i] < hi
    &&& forall|i: int, j: int|
        0 <= i < j < bins.len() ==> ranks_before(
            weighted_magnitude(mags, sample_rate, window_size, bins[i] as int),
            bins[i] as int,
            weighted_magnitude(mags, sample_rate, window_size, bins[j] as int),
            bins[j] as int,
        )
    &&& forall|b: int, i: int|
        lo <= b < hi && !bins.contains(b as usize) && 0 <= i < bins.len() ==> ranks_before(
            weighted_magnitude(mags, sample_rate, window_size, bins[i] as int),
            bins[i] as int,
            weighted_magnitude(mags, sample_rate, window_size, b),
            b,
        )
}

/// Where two selections of top bins agree before position `i`, the better
/// ranked of their `i`-th bins would be missing from the other selection yet
/// rank before one of its members, so they agree at `i` too.
proof fn lemma_top_bins_agree_at(
    mags: Seq<u32>,
    sample_rate: int,
    window_size: int,
    lo: int,
    hi: int,
    k: int,
    a: Seq<usize>,
    b: Seq<usize>,
    i: int,
)
    requires
        is_top_bins(mags, sample_rate, window_size, lo, hi, k, a),
        is_top_bins(mags, sample_rate, window_size, lo, hi, k, b),
        0 <= i < a.len(),
        forall|g: int| 0 <= g < i ==> a[g] == b[g],
    ensures
        a[i] == b[i],
{
    if a[i] != b[i] {
        let x = a[i] as int;
        let y = b[i] as int;
        let wx = weighted_magnitude(mags, sample_rate, window_size, x);
        let wy = weighted_magnitude(mags, sample_rate, window_size, y);
        assert(a.len() == b.len());
        assert(lo <= x < hi && lo <= y < hi);
        if ranks_before(wx, x, wy, y) {
            if b.contains(x as usize) {
                let j = choose|j: int| 0 <= j < b.len() && b[j] == x as usize;
                if j < i {
                    assert(a[j] == a[i]);
                    assert(ranks_before(
                        weighted_magnitude(mags, sample_rate, window_size, a[j] as int),
                        a[j] as int,
                        weighted_magnitude(mags, sample_rate, window_size, a[i] as int),
                        a[i] as int,
                    ));
                } else if j > i {
                    assert(ranks_before(
                        weighted_magnitude(mags, sample_rate, window_size, b[i] as int),
                        b[i] as int,
                        weighted_magnitude(mags, sample_rate, window_size, b[j] as int),
                        b[j] as int,
                    ));
                }
            } else {
                assert(ranks_before(
                    weighted_magnitude(mags, sample_rate, window_size, b[i] as int),
                    b[i] as int,
                    weighted_magnitude(mags, sample_rate, window_size, x),
                    x,
                ));
            }
        } else {
            assert(ranks_before(wy, y, wx, x));
            if a.contains(y as usize) {
                let j = choose|j: int| 0 <= j < a.len() && a[j] == y as usize;
                if j < i {
                    assert(b[j] == b[i]);
                    assert(ranks_before(
                        weighted_magnitude(mags, sample_rate, window_size, b[j] as int),
                        b[j] as int,
                        weighted_magnitude(mags, sample_rate, window_size, b[i] as int),
                        b[i] as int,
                    ));
                } else if j > i {
                    assert(ranks_before(
                        weighted_magnitude(mags, sample_rate, window_size, a[i] as int),
                        a[i] as int,
                        weighted_magnitude(mags, sample_rate, window_size, a[j] as int),
                        a[j] as int,
                    ));
                }
            } else {
                assert(ranks_before(
                    weighted_magnitude(mags, sample_rate, window_size, a[i] as int),
                    a[i] as int,
                    weighted_magnitude(mags, sample_rate, window_size, y),
                    y,
                ));
            }
        }
    }
}

/// The top bins of a band are unique: two selections that both meet
/// `is_top_bins` are the same sequence.
pub proof fn lemma_top_bins_unique(
    mags: Seq<u32>,
    sample_rate: int,
    window_size: int,
    lo: int,
    hi: int,
    k: int,
    a: Seq<usize>,
    b: Seq<usize>,
)
    requires
        is_top_bins(mags, sample_rate, window_size, lo, hi, k, a),
        is_top_bins(mags, sample_rate, window_size, lo, hi, k, b),
    ensures
        a == b,
{
    lemma_top_bins_agree_below(mags, sample_rate, window_size, lo, hi, k, a, b, a.len() as int);
    assert(a =~= b);
}

proof fn lemma_top_bins_agree_below(
    mags: Seq<u32>,
    sample_rate: int,
    window_size: int,
    lo: int,
    hi: int,
    k: int,
    a: Seq<usize>,
    b: Seq<usize>,
    n: int,
)
    requires
        is_top_bins(mags, sample_rate, window_size, lo, hi, k, a),
        is_top_bins(mags, sample_rate, window_size, lo, hi, k, b),
        0 <= n <= a.len(),
    ensures
        forall|g: int| 0 <= g < n ==> a[g] == b[g],
    decreases n,
{
    if n > 0 {
        lemma_top_bins_agree_below(mags, sample_rate, window_size, lo, hi, k, a, b, n - 1);
        lemma_top_bins_agree_at(mags, sample_rate, window_size, lo, hi, k, a, b, n - 1);
    }
}

spec fn holds_bin(top: Seq<(u64, usize)>, c: int) -> bool {
    exists|j: int| 0 <= j < top.len() && (#[trigger] top[j]).1 == c
}

fn bin_frequency(bin: usize, sample_rate: u32, window_size: usize) -> (r: u128)
    requires
        window_size > 0,
    ensures
        r == bin_millihertz(bin as int, sample_rate as int, window_size as int),
{
    assert(bin * sample_rate * 1000 <= 0xffff_ffff_ffff_ffff * 0xffff_ffff * 1000) by (nonlinear_arith)
        requires
            bin <= 0xffff_ffff_ffff_ffff,
            sample_rate <= 0xffff_ffff,
    ;
    (bin as u128) * (sample_rate as u128) * 1000 / (window_size as u128)
}

/// Weighted magnitude of one bin.
fn bin_weight(mags: &Vec<u32>, bin: usize, sample_rate: u32, window_size: usize) -> (r: u64)
    requires
        window_size > 0,
        bin < mags@.len(),
    ensures
        r == weighted_magnitude(mags@, sample_rate as int, window_size as int, bin as int),
{
    let w = weight_of(bin_frequency(bin, sample_rate, window_size));
    let m = mags[bin] as u64;
    assert(m * w <= 0xffff_ffff * 131072) by (nonlinear_arith)
        requires
            m <= 0xffff_ffff,
            w <= 131072,
    ;
    m * w
}

/// The `k` best-ranked bins of `lo..hi`, best first.
fn band_top_bins(
    mags: &Vec<u32>,
    sample_rate: u32,
    window_size: usize,
    lo: usize,
    hi: usize,
    k: usize,
) -> (r: Vec<usize>)
    requires
        window_size > 0,
        lo <= hi <= mags@.len(),
    ensures
        is_top_bins(mags@, sample_rate as int, window_size as int, lo as int, hi as int, k as int, r@),
{
    let ghost sr = sample_rate as int;
    let ghost ws = window_size as int;
    let mut top: Vec<(u64, usize)> = Vec::new();
    let mut b: usize = lo;
    while b < hi
        invariant
            lo <= b <= hi,
            hi <= mags@.len(),
            window_size > 0,
            sr == sample_rate as int,
            ws == window_size as int,
            top@.len() == if k < b - lo {
                k as int
            } else {
                b - lo
            },
            forall|j: int|
                0 <= j < top@.len() ==> lo <= (#[trigger] top@[j]).1 < b && top@[j].0
                    == weighted_magnitude(mags@, sr, ws, top@[j].1 as int),
            forall|i: int, j: int|
                0 <= i < j < top@.len() ==> ranks_before(
                    top@[i].0 as int,
                    top@[i].1 as int,
                    top@[j].0 as int,
                    top@[j].1 as int,
                ),
            forall|c: int, i: int|
                lo <= c < b && (forall|j: int| 0 <= j < top@.len() ==> (#[trigger] top@[j]).1 != c)
                    && 0 <= i < top@.len() ==> ranks_before(
                    top@[i].0 as int,
                    top@[i].1 as int,
                    weighted_magnitude(mags@, sr, ws, c),
                    c,
                ),
            top@.len() < k ==> forall|c: int| lo <= c < b ==> #[trigger] holds_bin(top@, c),
        decreases hi - b,
    {
        let wb = bin_weight(mags, b, sample_rate, window_size);
        let mut p: usize = 0;
        while p < top.len() && top[p].0 >= wb
            invariant
                p <= top@.len(),
                forall|j: int| 0 <= j < p ==> (#[trigger] top@[j]).0 >= wb,
            decreases top@.len() - p,
        {
            p += 1;
        }
        let ghost old_top = top@;
        assert forall|j: int| p <= j < old_top.len() implies (#[trigger] old_top[j]).0 < wb by {
            assert(old_top[p as int].0 < wb);
            if j > p {
                assert(ranks_before(
                    old_top[p as int].0 as int,
                    old_top[p as int].1 as int,
                    old_top[j].0 as int,
                    old_top[j].1 as int,
                ));
            }
        }
        if p < k {
            top.insert(p, (wb, b));
            if top.len() > k {
                top.truncate(k);
            }
        }
        proof {
            let nt = top@;
            let x = (wb, b);
            assert(wb == weighted_magnitude(mags@, sr, ws, b as int));
            if p < k {
                assert(p <= old_top.len());
                assert forall|j: int| 0 <= j < nt.len() implies nt[j] == (if j < p {
                    old_top[j]
                } else if j == p {
                    x
                } else {
                    old_top[j - 1]
                }) by {}
            }
            // placement and weights
            assert forall|j: int| 0 <= j < nt.len() implies lo <= (#[trigger] nt[j]).1 < b + 1
                && nt[j].0 == weighted_magnitude(mags@, sr, ws, nt[j].1 as int) by {
                if p < k && j > p {
                    assert(old_top[j - 1] == nt[j]);
                }
            }
            // order
            assert forall|i: int, j: int| 0 <= i < j < nt.len() implies ranks_before(
                nt[i].0 as int,
                nt[i].1 as int,
                nt[j].0 as int,
                nt[j].1 as int,
            ) by {
                if p < k {
                    if j < p {
                    } else if j == p {
                        assert(old_top[i].0 >= wb);
                        assert(old_top[i].1 < b);
                    } else if i < p {
                        assert(nt[j] == old_top[j - 1]);
                    } else if i == p {
                        assert(nt[j] == old_top[j - 1]);
                        assert(old_top[j - 1].0 < wb);
                    } else {
                        assert(nt[j] == old_top[j - 1]);
                        assert(nt[i] == old_top[i - 1]);
                    }
                }
            }
            if nt.len() < k {
                assert(p < k && old_top.len() < k);
                assert forall|c: int| lo <= c < b + 1 implies #[trigger] holds_bin(nt, c) by {
                    if c == b {
                        assert(nt[p as int].1 == c);
                    } else {
                        assert(holds_bin(old_top, c));
                        let j = choose|j: int| 0 <= j < old_top.len() && (#[trigger] old_top[j]).1 == c;
                        if j < p {
                            assert(nt[j].1 == c);
                        } else {
                            assert(nt[j + 1].1 == c);
                        }
                    }
                }
            }
            // every bin left out ranks after every bin kept
            assert forall|c: int, i: int|
                lo <= c < b + 1 && (forall|j: int| 0 <= j < nt.len() ==> (#[trigger] nt[j]).1 != c)
                    && 0 <= i < nt.len() implies ranks_before(
                nt[i].0 as int,
                nt[i].1 as int,
                weighted_magnitude(mags@, sr, ws, c),
                c,
            ) by {
                if c == b {
                    if p < k {
                        assert(nt[p as int].1 == b);
                    }
                    assert(nt == old_top);
                    assert(old_top[i].0 >= wb);
                    assert(old_top[i].1 < b);
                } else if exists|j: int| 0 <= j < old_top.len() && (#[trigger] old_top[j]).1 == c {
                    let j = choose|j: int| 0 <= j < old_top.len() && (#[trigger] old_top[j]).1 == c;
                    // c was kept before, so it is the one that fell off the end
                    if p >= k {
                        assert(nt[j].1 == c);
                    } else if j < p {
                        assert(nt[j].1 == c);
                    } else if j + 1 < nt.len() {
                        assert(nt[j + 1].1 == c);
                    } else {
                        assert(old_top[j].0 < wb);
                        if i < p {
                        } else if i == p {
                        } else {
                            assert(nt[i] == old_top[i - 1]);
                        }
                    }
                } else {
                    assert(forall|j: int| 0 <= j < old_top.len() ==> (#[trigger] old_top[j]).1 != c);
                    if p < k {
                        if i < p {
                            assert(nt[i] == old_top[i]);
                        } else if i == p {
                            if old_top.len() < k {
                                assert(holds_bin(old_top, c));
                            }
                            assert(p < old_top.len());
                            assert(old_top[p as int].0 < wb);
                            assert(ranks_before(
                                old_top[p as int].0 as int,
                                old_top[p as int].1 as int,
                                weighted_magnitude(mags@, sr, ws, c),
                                c,
                            ));
                        } else {
                            assert(nt[i] == old_top[i - 1]);
                        }
                    }
                }
            }
        }
        b += 1;
    }
    let mut r: Vec<usize> = Vec::new();
    let mut i: usize = 0;
    while i < top.len()
        invariant
            i <= top@.len(),
            r@.len() == i,
            forall|j: int| 0 <= j < i ==> r@[j] == (#[trigger] top@[j]).1,
        decreases top@.len() - i,
    {
        r.push(top[i].1);
        i += 1;
    }
    proof {
        assert forall|i: int, j: int| 0 <= i < j < r@.len() implies ranks_before(
            weighted_magnitude(mags@, sr, ws, r@[i] as int),
            r@[i] as int,
            weighted_magnitude(mags@, sr, ws, r@[j] as int),
            r@[j] as int,
        ) by {
            assert(r@[i] == top@[i].1 && r@[j] == top@[j].1);
        }
        assert forall|i: int| 0 <= i < r@.len() implies lo <= #[trigger] r@[i] < hi by {
            assert(r@[i] == top@[i].1);
        }
        assert forall|c: int, i: int|
            lo <= c < hi && !r@.contains(c as usize) && 0 <= i < r@.len() implies ranks_before(
            weighted_magnitude(mags@, sr, ws, r@[i] as int),
            r@[i] as int,
            weighted_magnitude(mags@, sr, ws, c),
            c,
        ) by {
            assert forall|j: int| 0 <= j < top@.len() implies (#[trigger] top@[j]).1 != c by {
                if top@[j].1 == c {
                    assert(r@[j] == c as usize);
                    assert(r@.contains(c as usize));
                }
            }
            assert(r@[i] == top@[i].1);
            assert(top@[i].0 == weighted_magnitude(mags@, sr, ws, top@[i].1 as int));
        }
    }
    r
}

/// First bin of a band.
pub open spec fn band_first_bin(band: int, sample_rate: int, window_size: int) -> int {
    edge_bin(band_low_hz(band), sample_rate, window_size)
}

/// End (exclusive) of a band's bins, clipped to the spectrum's length.
pub open spec fn band_end_bin(band: int, sample_rate: int, window_size: int, len: int) -> int {
    let e = edge_bin(band_high_hz(band), sample_rate, window_size);
    if e < len {
        e
    } else {
        len
    }
}

/// `freqs` are the frequencies, in millihertz, of a band's top bins, best
/// first. Only one selection of bins meets `is_top_bins` (see
/// `lemma_top_bins_unique`), so this fixes `freqs`.
pub open spec fn is_band_peaks(
    mags: Seq<u32>,
    sample_rate: int,
    window_size: int,
    k: int,
    band: int,
    freqs: Seq<u64>,
) -> bool {
    exists|bins: Seq<usize>|
        is_top_bins(
            mags,
            sample_rate,
            window_size,
            band_first_bin(band, sample_rate, window_size),
            band_end_bin(band, sample_rate, window_size, mags.len() as int),
            k,
            bins,
        ) && freqs.len() == bins.len() && forall|i: int|
            0 <= i < bins.len() ==> #[trigger] freqs[i] == bin_millihertz(
                bins[i] as int,
                sample_rate,
                window_size,
            )
}

/// A bin below a band edge has a frequency below the edge.
proof fn lemma_bin_below_edge(b: int, hz: int, sample_rate: int, window_size: int)
    requires
        0 <= b,
        0 <= hz,
        sample_rate > 0,
        window_size > 0,
        b < edge_bin(hz, sample_rate, window_size),
    ensures
        bin_millihertz(b, sample_rate, window_size) < hz * 1000,
{
    let q = hz * window_size / sample_rate;
    lemma_fundamental_div_mod(hz * window_size, sample_rate);
    assert(q * sample_rate <= hz * window_size) by (nonlinear_arith)
        requires
            hz * window_size == sample_rate * q + (hz * window_size) % sample_rate,
            0 <= (hz * window_size) % sample_rate,
    ;
    assert(b * sample_rate * 1000 < hz * 1000 * window_size) by (nonlinear_arith)
        requires
            b + 1 <= q,
            q * sample_rate <= hz * window_size,
            sample_rate > 0,
    ;
    let t = b * sample_rate * 1000 / window_size;
    lemma_fundamental_div_mod(b * sample_rate * 1000, window_size);
    assert(t < hz * 1000) by (nonlinear_arith)
        requires
            b * sample_rate * 1000 == window_size * t + (b * sample_rate * 1000) % window_size,
            0 <= (b * sample_rate * 1000) % window_size,
            b * sample_rate * 1000 < hz * 1000 * window_size,
            window_size > 0,
    ;
}

fn band_edges(band: usize) -> (r: (u128, u128))
    requires
        band < BAND_COUNT,
    ensures
        r.0 == band_low_hz(band as int),
        r.1 == band_high_hz(band as int),
{
    if band == 0 {
        (50, 250)
    } else if band == 1 {
        (250, 800)
    } else if band == 2 {
        (800, 2000)
    } else {
        (2000, 6000)
    }
}

/// Peak frequencies of each of the four bands.
///
/// `magnitudes` holds one magnitude per FFT bin of a frame of `window_size`
/// samples. For each band, the bins whose index lies in
/// `[floor(low * window_size / sample_rate), floor(high * window_size / sample_rate))`
/// (and inside the spectrum) are ranked by magnitude times frequency weight,
/// and the frequencies of the best `k_per_band` are returned, best first.
pub fn analyze_frequency_bands(
    magnitudes: &Vec<u32>,
    sample_rate: u32,
    window_size: usize,
    k_per_band: usize,
) -> (r: Vec<Vec<u64>>)
    requires
        sample_rate > 0,
        window_size > 0,
    ensures
        r@.len() == BAND_COUNT,
        forall|band: int|
            0 <= band < BAND_COUNT ==> is_band_peaks(
                magnitudes@,
                sample_rate as int,
                window_size as int,
                k_per_band as int,
                band,
                #[trigger] r@[band]@,
            ),
{
    let mut out: Vec<Vec<u64>> = Vec::new();
    let mut band: usize = 0;
    while band < BAND_COUNT
        invariant
            band <= BAND_COUNT,
            out@.len() == band,
            sample_rate > 0,
            window_size > 0,
            forall|j: int|
                0 <= j < band ==> is_band_peaks(
                    magnitudes@,
                    sample_rate as int,
                    window_size as int,
                    k_per_band as int,
                    j,
                    #[trigger] out@[j]@,
                ),
        decreases BAND_COUNT - band,
    {
        let (low_hz, high_hz) = band_edges(band);
        let ws = window_size as u128;
        let sr = sample_rate as u128;
        assert(high_hz * ws <= 6000 * 0xffff_ffff_ffff_ffff) by (nonlinear_arith)
            requires
                high_hz <= 6000,
                ws <= 0xffff_ffff_ffff_ffff,
        ;
        assert(low_hz * ws <= 6000 * 0xffff_ffff_ffff_ffff) by (nonlinear_arith)
            requires
                low_hz <= 6000,
                ws <= 0xffff_ffff_ffff_ffff,
        ;
        let low_edge = low_hz * ws / sr;
        let high_edge = high_hz * ws / sr;
        let len = magnitudes.len();
        let hi: usize = if high_edge < len as u128 {
            high_edge as usize
        } else {
            len
        };
        let lo: usize = if low_edge < hi as u128 {
            low_edge as usize
        } else {
            hi
        };
        let bins = band_top_bins(magnitudes, sample_rate, window_size, lo, hi, k_per_band);
        let ghost lo_spec = band_first_bin(band as int, sample_rate as int, window_size as int);
        let ghost hi_spec = band_end_bin(
            band as int,
            sample_rate as int,
            window_size as int,
            magnitudes@.len() as int,
        );
        assert(hi as int == hi_spec);
        assert(is_top_bins(
            magnitudes@,
            sample_rate as int,
            window_size as int,
            lo_spec,
            hi_spec,
            k_per_band as int,
            bins@,
        ));
        let mut freqs: Vec<u64> = Vec::new();
        let mut i: usize = 0;
        while i < bins.len()
            invariant
                i <= bins@.len(),
                freqs@.len() == i,
                sample_rate > 0,
                window_size > 0,
                band < BAND_COUNT,
                forall|j: int| 0 <= j < bins@.len() ==> lo <= #[trigger] bins@[j] < hi,
                hi as int == hi_spec,
                hi_spec <= edge_bin(band_high_hz(band as int), sample_rate as int, window_size as int),
                forall|j: int|
                    0 <= j < i ==> #[trigger] freqs@[j] == bin_millihertz(
                        bins@[j] as int,
                        sample_rate as int,
                        window_size as int,
                    ),
            decreases bins@.len() - i,
        {
            let f = bin_frequency(bins[i], sample_rate, window_size);
            proof {
                lemma_bin_below_edge(
                    bins@[i as int] as int,
                    band_high_hz(band as int),
                    sample_rate as int,
                    window_size as int,
                );
            }
            freqs.push(f as u64);
            i += 1;
        }
        out.push(freqs);
        band += 1;
    }
    out
}

} // verus!
