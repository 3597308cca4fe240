use pitch_pipeline::notes::{frequency_to_note, label_bands, Peak};
use pitch_pipeline::text::{decimal, signed_decimal};

fn peak(hz: f64) -> Peak {
    let exact = 69.0 + 12.0 * (hz / 440.0).log2();
    let midi = exact.round();
    let cents = ((exact - midi) * 100.0).round();
    Peak {
        millihertz: (hz * 1000.0).round() as u64,
        midi: midi as i32,
        cents: cents as i32,
    }
}

#[test]
fn a440_is_a4_in_tune() {
    assert_eq!(frequency_to_note(&vec![peak(440.0)]), "A4 (+0¢)");
}

#[test]
fn a_sharp_rounds_to_nearest_semitone() {
    let p = peak(466.0);
    assert_eq!(p.midi, 70);
    assert_eq!(p.cents, -1);
    assert_eq!(frequency_to_note(&vec![p]), "A#4 (-1¢)");
}

#[test]
fn sharp_deviation_has_plus_sign() {
    let p = Peak { millihertz: 262_000, midi: 60, cents: 7 };
    assert_eq!(frequency_to_note(&vec![p]), "C4 (+7¢)");
}

#[test]
fn ten_hertz_is_not_pitched() {
    assert_eq!(frequency_to_note(&vec![peak(10.0)]), "N/A");
}

#[test]
fn no_peaks_is_not_available() {
    assert_eq!(frequency_to_note(&vec![]), "N/A");
}

#[test]
fn c_e_g_is_c_chord() {
    let peaks = vec![peak(261.63), peak(329.63), peak(392.0)];
    assert_eq!(frequency_to_note(&peaks), "C chord");
}

#[test]
fn chord_notes_in_any_octave_and_order() {
    let peaks = vec![peak(784.0), peak(130.81), peak(659.25)];
    assert_eq!(frequency_to_note(&peaks), "C chord");
}

#[test]
fn a_c_e_is_a_minor() {
    let peaks = vec![peak(220.0), peak(261.63), peak(329.63)];
    assert_eq!(frequency_to_note(&peaks), "Am chord");
}

#[test]
fn major_table_comes_before_minor() {
    // C E G B holds C major and E minor; the major chord comes first.
    let peaks = vec![peak(493.88), peak(329.63), peak(392.0), peak(261.63)];
    assert_eq!(frequency_to_note(&peaks), "C chord");
}

#[test]
fn no_chord_falls_back_to_dominant_peak() {
    let peaks = vec![peak(440.0), peak(261.63), peak(293.66)];
    assert_eq!(frequency_to_note(&peaks), "A4 (+0¢)");
}

#[test]
fn unpitched_dominant_peak_without_chord_is_not_available() {
    let peaks = vec![peak(10.0), peak(440.0)];
    assert_eq!(frequency_to_note(&peaks), "N/A");
}

#[test]
fn low_octave_numbers() {
    let p = Peak { millihertz: 25_000, midi: 19, cents: -3 };
    assert_eq!(frequency_to_note(&vec![p]), "G0 (-3¢)");
    let q = Peak { millihertz: 25_000, midi: 5, cents: 0 };
    assert_eq!(frequency_to_note(&vec![q]), "F-1 (+0¢)");
}

#[test]
fn bands_are_joined_with_bars() {
    let bands = vec![vec![peak(440.0)], vec![], vec![peak(261.63), peak(329.63), peak(392.0)]];
    assert_eq!(label_bands(&bands), "A4 (+0¢) | N/A | C chord");
}

#[test]
fn no_bands_give_empty_label() {
    assert_eq!(label_bands(&vec![]), "");
}

#[test]
fn decimal_text() {
    assert_eq!(decimal(0), "0");
    assert_eq!(decimal(1234567890), "1234567890");
    assert_eq!(signed_decimal(0), "+0");
    assert_eq!(signed_decimal(42), "+42");
    assert_eq!(signed_decimal(-9), "-9");
    assert_eq!(signed_decimal(i64::MIN), "-9223372036854775808");
}
