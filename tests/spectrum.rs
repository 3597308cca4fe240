use pitch_pipeline::spectrum::analyze_frequency_bands;

fn spectrum_with(len: usize, spikes: &[(usize, u32)]) -> Vec<u32> {
    let mut m = vec![0u32; len];
    for &(bin, mag) in spikes {
        m[bin] = mag;
    }
    m
}

#[test]
fn low_band_keeps_strongest_bins_first() {
    // 1024-point frame at 1024 Hz: bin b is b Hz.
    let mags = spectrum_with(513, &[(100, 10), (200, 20), (60, 5), (300, 10), (500, 9)]);
    let bands = analyze_frequency_bands(&mags, 1024, 1024, 2);
    assert_eq!(bands.len(), 4);
    assert_eq!(bands[0], vec![200_000, 100_000]);
}

#[test]
fn higher_frequencies_are_weighted_up() {
    let mags = spectrum_with(513, &[(300, 10), (500, 9)]);
    let bands = analyze_frequency_bands(&mags, 1024, 1024, 2);
    // 9 * sqrt(500 / 400) > 10
    assert_eq!(bands[1], vec![500_000, 300_000]);
}

#[test]
fn bands_beyond_the_spectrum_are_empty() {
    let mags = spectrum_with(513, &[(100, 1)]);
    let bands = analyze_frequency_bands(&mags, 1024, 1024, 3);
    assert!(bands[2].is_empty());
    assert!(bands[3].is_empty());
}

#[test]
fn equal_magnitudes_keep_bin_order() {
    let mags = spectrum_with(513, &[(70, 4), (80, 4), (90, 4)]);
    let bands = analyze_frequency_bands(&mags, 1024, 1024, 2);
    assert_eq!(bands[0], vec![70_000, 80_000]);
}

#[test]
fn k_larger_than_band_returns_every_bin() {
    // 8-point frame at 8000 Hz: bins are 1000 Hz apart; band 800..2000 holds bins 0 and 1
    let mags = vec![0, 7, 3, 1, 2];
    let bands = analyze_frequency_bands(&mags, 8000, 8, 5);
    assert_eq!(bands[0], Vec::<u64>::new());
    assert_eq!(bands[2], vec![1_000_000, 0]);
    assert_eq!(bands[3], vec![2_000_000, 4_000_000, 3_000_000]);
}

#[test]
fn weight_caps_at_two() {
    // Without the cap the 1999 Hz bin would outweigh the 1700 Hz one; with
    // it both weigh two and the lower bin comes first.
    let mags = spectrum_with(4097, &[(1700, 9), (1999, 9), (1000, 10)]);
    let bands = analyze_frequency_bands(&mags, 8192, 8192, 3);
    assert_eq!(bands[2], vec![1_700_000, 1_999_000, 1_000_000]);
}
