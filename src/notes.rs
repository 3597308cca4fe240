use vstd::prelude::*;

use crate::text::{decimal_text, int_text, push_int, push_signed, signed_text};

verus! {

/// Lowest frequency, in millihertz, that is treated as pitched.
pub const PITCH_FLOOR_MILLIHERTZ: u64 = 20000;

/// Number of chords in the chord table: twelve major triads, then twelve minor ones.
pub const CHORD_COUNT: usize = 24;

/// One spectral peak: its frequency, and the nearest equal-tempered pitch.
///
/// `midi` is `round(69 + 12 * log2(f / 440))` and `cents` is the deviation of
/// the exact pitch from it, in hundredths of a semitone, rounded.
#[derive(Clone, Copy, Debug, PartialEq, Eq)]
pub struct Peak {
    pub millihertz: u64,
    pub midi: i32,
    pub cents: i32,
}

pub open spec fn is_pitched(p: Peak) -> bool {
    p.millihertz >= PITCH_FLOOR_MILLIHERTZ
}

/// Pitch class (0 = C, ..., 11 = B) of a MIDI note number.
pub open spec fn pitch_class(midi: int) -> int {
    midi % 12
}

/// Octave number of a MIDI note number (MIDI 60 is C4).
pub open spec fn octave_of(midi: int) -> int {
    midi / 12 - 1
}

pub open spec fn note_name_text(class: int) -> Seq<char> {
    if class == 0 {
        seq!['C']
    } else if class == 1 {
        seq!['C', '#']
    } else if class == 2 {
        seq!['D']
    } else if class == 3 {
        seq!['D', '#']
    } else if class == 4 {
        seq!['E']
    } else if class == 5 {
        seq!['F']
    } else if class == 6 {
        seq!['F', '#']
    } else if class == 7 {
        seq!['G']
    } else if class == 8 {
        seq!['G', '#']
    } else if class == 9 {
        seq!['A']
    } else if class == 10 {
        seq!['A', '#']
    } else {
        seq!['B']
    }
}

/// Root pitch class of the chord at `index` in the table.
pub open spec fn chord_root(index: int) -> int {
    index % 12
}

/// Whether the chord at `index` is minor (the second half of the table).
pub open spec fn chord_is_minor(index: int) -> bool {
    index >= 12
}

/// The three pitch classes of the chord at `index`.
pub open spec fn chord_third(index: int) -> int {
    if chord_is_minor(index) {
        (chord_root(index) + 3) % 12
    } else {
        (chord_root(index) + 4) % 12
    }
}

pub open spec fn chord_fifth(index: int) -> int {
    (chord_root(index) + 7) % 12
}

pub open spec fn chord_name_text(index: int) -> Seq<char> {
    if chord_is_minor(index) {
        note_name_text(chord_root(index)).push('m')
    } else {
        note_name_text(chord_root(index))
    }
}

/// Pitch classes present among the pitched peaks.
pub open spec fn pitch_classes(peaks: Seq<Peak>) -> Set<int> {
    Set::new(
        |c: int|
            exists|i: int|
                0 <= i < peaks.len() && is_pitched(#[trigger] peaks[i]) && pitch_class(
                    peaks[i].midi as int,
                ) == c,
    )
}

pub open spec fn chord_in(classes: Set<int>, index: int) -> bool {
    classes.contains(chord_root(index)) && classes.contains(chord_third(index))
        && classes.contains(chord_fifth(index))
}

/// The first chord of the table, from `index` on, whose notes all occur in `classes`.
pub open spec fn first_chord_from(classes: Set<int>, index: int) -> Option<int>
    decreases CHORD_COUNT - index,
{
    if index >= CHORD_COUNT || index < 0 {
        None
    } else if chord_in(classes, index) {
        Some(index)
    } else {
        first_chord_from(classes, index + 1)
    }
}

/// Label of a single pitched peak: note name, octave and signed cents, as `A4 (+0¢)`.
pub open spec fn note_label(p: Peak) -> Seq<char> {
    note_name_text(pitch_class(p.midi as int)) + int_text(octave_of(p.midi as int)) + seq![
        ' ',
        '(',
    ] + signed_text(p.cents as int) + seq!['¢', ')']
}

pub open spec fn not_available() -> Seq<char> {
    seq!['N', '/', 'A']
}

/// Label of one band's peaks (strongest first): the first matching chord, else
/// the strongest peak's note, else `N/A` when nothing is pitched.
pub open spec fn peaks_label(peaks: Seq<Peak>) -> Seq<char> {
    let classes = pitch_classes(peaks);
    if !(exists|i: int| 0 <= i < peaks.len() && is_pitched(#[trigger] peaks[i])) {
        not_available()
    } else {
        match first_chord_from(classes, 0) {
            Some(index) => chord_name_text(index) + seq![' ', 'c', 'h', 'o', 'r', 'd'],
            None => if is_pitched(peaks[0]) {
                note_label(peaks[0])
            } else {
                not_available()
            },
        }
    }
}

fn pitch_class_of(midi: i32) -> (r: usize)
    ensures
        r as int == pitch_class(midi as int),
        r < 12,
{
    let m = midi as i64;
    if m >= 0 {
        (m % 12) as usize
    } else {
        (11 - (-m - 1) % 12) as usize
    }
}

fn octave_number(midi: i32) -> (r: i64)
    ensures
        r as int == octave_of(midi as int),
{
    let m = midi as i64;
    if m >= 0 {
        m / 12 - 1
    } else {
        -((-m - 1) / 12) - 2
    }
}

fn note_name(class: usize) -> (r: &'static str)
    requires
        class < 12,
    ensures
        r@ == note_name_text(class as int),
{
    proof {
        reveal_strlit("C");
        reveal_strlit("C#");
        reveal_strlit("D");
        reveal_strlit("D#");
        reveal_strlit("E");
        reveal_strlit("F");
        reveal_strlit("F#");
        reveal_strlit("G");
        reveal_strlit("G#");
        reveal_strlit("A");
        reveal_strlit("A#");
        reveal_strlit("B");
    }
    match class {
        0 => "C",
        1 => "C#",
        2 => "D",
        3 => "D#",
        4 => "E",
        5 => "F",
        6 => "F#",
        7 => "G",
        8 => "G#",
        9 => "A",
        10 => "A#",
        _ => "B",
    }
}

/// Appends the label of a single peak (`A4 (+0¢)`) to `s`.
fn push_note_label(s: &mut String, p: Peak)
    ensures
        final(s)@ == old(s)@ + note_label(p),
{
    proof {
        reveal_strlit(" (");
        reveal_strlit("¢)");
    }
    let class = pitch_class_of(p.midi);
    s.append(note_name(class));
    push_int(s, octave_number(p.midi));
    s.append(" (");
    push_signed(s, p.cents as i64);
    s.append("¢)");
    assert(final(s)@ =~= old(s)@ + note_label(p));
}

/// The chord label `<name> chord` of the chord at `index` in the table.
fn chord_label(index: usize) -> (r: String)
    requires
        index < CHORD_COUNT,
    ensures
        r@ == chord_name_text(index as int) + seq![' ', 'c', 'h', 'o', 'r', 'd'],
{
    proof {
        reveal_strlit("m");
        reveal_strlit(" chord");
    }
    let mut s = String::from_str(note_name(index % 12));
    if index >= 12 {
        s.append("m");
    }
    s.append(" chord");
    assert(s@ =~= chord_name_text(index as int) + seq![' ', 'c', 'h', 'o', 'r', 'd']);
    s
}

/// Labels one band's peaks, strongest first.
///
/// The peaks' pitch classes are collected from those at or above the pitch
/// floor. The chord table is searched in a fixed order (major triads on C
/// through B, then minor triads on C through B) and the first chord whose three
/// notes all occur gives `<name> chord`. Without a chord the strongest peak
/// (the first) gives its note, octave and cents. Nothing pitched gives `N/A`.
pub fn frequency_to_note(frequencies: &Vec<Peak>) -> (r: String)
    ensures
        r@ == peaks_label(frequencies@),
{
    proof {
        reveal_strlit("N/A");
    }
    let ghost peaks = frequencies@;
    let ghost classes = pitch_classes(peaks);
    let mut present: Vec<bool> = vec![false; 12];
    let mut any_pitched = false;
    let mut i: usize = 0;
    while i < frequencies.len()
        invariant
            i <= frequencies.len(),
            peaks == frequencies@,
            classes == pitch_classes(peaks),
            present@.len() == 12,
            any_pitched <==> exists|j: int| 0 <= j < i && is_pitched(#[trigger] peaks[j]),
            forall|c: int|
                0 <= c < 12 ==> (present@[c] <==> exists|j: int|
                    0 <= j < i && is_pitched(#[trigger] peaks[j]) && pitch_class(
                        peaks[j].midi as int,
                    ) == c),
        decreases frequencies.len() - i,
    {
        let p = frequencies[i];
        if p.millihertz >= PITCH_FLOOR_MILLIHERTZ {
            let c = pitch_class_of(p.midi);
            present.set(c, true);
            any_pitched = true;
        }
        i += 1;
    }
    if !any_pitched {
        return String::from_str("N/A");
    }
    assert forall|c: int| 0 <= c < 12 implies (present@[c] <==> classes.contains(c)) by {
        if present@[c] {
            let j = choose|j: int|
                0 <= j < i && is_pitched(#[trigger] peaks[j]) && pitch_class(
                    peaks[j].midi as int,
                ) == c;
            assert(is_pitched(peaks[j]));
        }
    }
    let mut k: usize = 0;
    while k < CHORD_COUNT
        invariant
            k <= CHORD_COUNT,
            present@.len() == 12,
            forall|c: int| 0 <= c < 12 ==> (present@[c] <==> classes.contains(c)),
            first_chord_from(classes, 0) == first_chord_from(classes, k as int),
            peaks == frequencies@,
            classes == pitch_classes(peaks),
            exists|j: int| 0 <= j < peaks.len() && is_pitched(#[trigger] peaks[j]),
        decreases CHORD_COUNT - k,
    {
        let root = k % 12;
        let third = if k >= 12 {
            (root + 3) % 12
        } else {
            (root + 4) % 12
        };
        let fifth = (root + 7) % 12;
        if present[root] && present[third] && present[fifth] {
            assert(chord_in(classes, k as int));
            assert(first_chord_from(classes, k as int) == Some(k as int));
            return chord_label(k);
        }
        k += 1;
    }
    assert(first_chord_from(classes, 0) == None::<int>);
    let first = frequencies[0];
    if first.millihertz >= PITCH_FLOOR_MILLIHERTZ {
        let mut s = String::new();
        push_note_label(&mut s, first);
        assert(s@ =~= note_label(first));
        s
    } else {
        String::from_str("N/A")
    }
}

/// Labels of all bands, in band order, separated by ` | `.
pub open spec fn bands_label(bands: Seq<Vec<Peak>>) -> Seq<char>
    decreases bands.len(),
{
    if bands.len() == 0 {
        seq![]
    } else if bands.len() == 1 {
        peaks_label(bands[0]@)
    } else {
        bands_label(bands.drop_last()) + seq![' ', '|', ' '] + peaks_label(bands.last()@)
    }
}

/// Joins the label of every band with ` | `.
pub fn label_bands(bands: &Vec<Vec<Peak>>) -> (r: String)
    ensures
        r@ == bands_label(bands@),
{
    let mut s = String::new();
    let mut i: usize = 0;
    while i < bands.len()
        invariant
            i <= bands.len(),
            s@ == bands_label(bands@.subrange(0, i as int)),
        decreases bands.len() - i,
    {
        proof {
            reveal_strlit(" | ");
        }
        if i > 0 {
            s.append(" | ");
        }
        let part = frequency_to_note(&bands[i]);
        s.append(part.as_str());
        proof {
            let pre = bands@.subrange(0, i as int + 1);
            assert(pre.drop_last() =~= bands@.subrange(0, i as int));
            assert(pre.last() == bands@[i as int]);
            if i == 0 {
                assert(pre[0] == bands@[0]);
            }
            assert(s@ =~= bands_label(pre));
        }
        i += 1;
    }
    assert(bands@.subrange(0, bands@.len() as int) =~= bands@);
    s
}

} // verus!
