use vstd::prelude::*;

use crate::playback::keep_last;

verus! {

/// Rows of the waveform display.
pub const WAVE_HEIGHT: usize = 13;

/// Height of a column in eighths of a row: `|sample| / full_scale` of the
/// display's full height, rounded down.
pub open spec fn column_eighths(sample: int, full_scale: int) -> int {
    let a = if sample < 0 {
        -sample
    } else {
        sample
    };
    a * (WAVE_HEIGHT * 8) as int / full_scale
}

/// The sample shown in column `col`: columns sample the buffer at a fixed
/// stride of `max(len, width) / width`, clamped to the last sample.
pub open spec fn sample_index(len: int, width: int, col: int) -> int {
    let step = (if len > width {
        len
    } else {
        width
    }) / width;
    if col * step < len - 1 {
        col * step
    } else {
        len - 1
    }
}

/// The block character for `k` eighths of a row (1 through 7).
pub open spec fn partial_block(k: int) -> char {
    if k == 1 {
        '▁'
    } else if k == 2 {
        '▂'
    } else if k == 3 {
        '▃'
    } else if k == 4 {
        '▄'
    } else if k == 5 {
        '▅'
    } else if k == 6 {
        '▆'
    } else {
        '▇'
    }
}

/// The character in row `row` (0 at the top) of a column `eighths` high.
pub open spec fn wave_cell(eighths: int, row: int) -> char {
    let level = WAVE_HEIGHT - 1 - row;
    if level < eighths / 8 {
        '█'
    } else if level == eighths / 8 && eighths % 8 > 0 {
        partial_block(eighths % 8)
    } else {
        ' '
    }
}

/// Row `row` of the waveform of `samples` drawn `width` columns wide.
pub open spec fn wave_row(samples: Seq<i32>, full_scale: int, width: int, row: int) -> Seq<char> {
    Seq::new(
        width as nat,
        |col: int|
            wave_cell(
                column_eighths(samples[sample_index(samples.len() as int, width, col)] as int, full_scale),
                row,
            ),
    )
}

fn cell_str(eighths: u64, row: usize) -> (r: &'static str)
    requires
        row < WAVE_HEIGHT,
    ensures
        r@ == seq![wave_cell(eighths as int, row as int)],
{
    proof {
        reveal_strlit("█");
        reveal_strlit("▁");
        reveal_strlit("▂");
        reveal_strlit("▃");
        reveal_strlit("▄");
        reveal_strlit("▅");
        reveal_strlit("▆");
        reveal_strlit("▇");
        reveal_strlit(" ");
    }
    let level = (WAVE_HEIGHT - 1 - row) as u64;
    let full = eighths / 8;
    let rem = eighths % 8;
    if level < full {
        "█"
    } else if level == full && rem > 0 {
        match rem {
            1 => "▁",
            2 => "▂",
            3 => "▃",
            4 => "▄",
            5 => "▅",
            6 => "▆",
            _ => "▇",
        }
    } else {
        " "
    }
}

/// The waveform of `samples` as `WAVE_HEIGHT` rows of `width` block
/// characters, top row first; a sample of magnitude `full_scale` fills its
/// column.
pub fn waveform_rows(samples: &Vec<i32>, full_scale: u32, width: usize) -> (r: Vec<String>)
    requires
        samples@.len() > 0,
        full_scale > 0,
        width > 0,
    ensures
        r@.len() == WAVE_HEIGHT,
        forall|row: int|
            0 <= row < WAVE_HEIGHT ==> (#[trigger] r@[row])@ == wave_row(
                samples@,
                full_scale as int,
                width as int,
                row,
            ),
{
    let len = samples.len();
    let step: u128 = (if len > width {
        len
    } else {
        width
    } / width) as u128;
    let mut eighths: Vec<u64> = Vec::new();
    let mut col: usize = 0;
    while col < width
        invariant
            col <= width,
            len == samples@.len(),
            len > 0,
            full_scale > 0,
            step == (if len > width {
                len
            } else {
                width
            }) / width,
            eighths@.len() == col,
            forall|c: int|
                0 <= c < col ==> #[trigger] eighths@[c] == column_eighths(
                    samples@[sample_index(len as int, width as int, c)] as int,
                    full_scale as int,
                ),
        decreases width - col,
    {
        assert(col * step <= 0xffff_ffff_ffff_ffff * 0xffff_ffff_ffff_ffff) by (nonlinear_arith)
            requires
                col <= 0xffff_ffff_ffff_ffff,
                step <= 0xffff_ffff_ffff_ffff,
        ;
        let at = (col as u128) * step;
        let idx: usize = if at < (len - 1) as u128 {
            at as usize
        } else {
            len - 1
        };
        let s = samples[idx];
        let a: u64 = if s < 0 {
            (-(s as i64)) as u64
        } else {
            s as u64
        };
        eighths.push(a * 104 / (full_scale as u64));
        col += 1;
    }
    let mut rows: Vec<String> = Vec::new();
    let mut row: usize = 0;
    while row < WAVE_HEIGHT
        invariant
            row <= WAVE_HEIGHT,
            rows@.len() == row,
            eighths@.len() == width,
            forall|c: int|
                0 <= c < width ==> #[trigger] eighths@[c] == column_eighths(
                    samples@[sample_index(samples@.len() as int, width as int, c)] as int,
                    full_scale as int,
                ),
            forall|r: int|
                0 <= r < row ==> (#[trigger] rows@[r])@ == wave_row(
                    samples@,
                    full_scale as int,
                    width as int,
                    r,
                ),
        decreases WAVE_HEIGHT - row,
    {
        let mut line = String::new();
        let mut c: usize = 0;
        while c < width
            invariant
                c <= width,
                row < WAVE_HEIGHT,
                eighths@.len() == width,
                line@ == wave_row(samples@, full_scale as int, width as int, row as int).subrange(0, c as int),
                forall|k: int|
                    0 <= k < width ==> #[trigger] eighths@[k] == column_eighths(
                        samples@[sample_index(samples@.len() as int, width as int, k)] as int,
                        full_scale as int,
                    ),
            decreases width - c,
        {
            line.append(cell_str(eighths[c], row));
            c += 1;
            assert(line@ =~= wave_row(samples@, full_scale as int, width as int, row as int).subrange(0, c as int));
        }
        assert(line@ =~= wave_row(samples@, full_scale as int, width as int, row as int));
        rows.push(line);
        row += 1;
    }
    rows
}

/// The last `max_lines` entries of the note history, oldest first.
pub fn recent_notes(history: &Vec<(u64, String)>, max_lines: usize) -> (r: Vec<(u64, String)>)
    ensures
        r@ == keep_last(history@, max_lines as int),
{
    let len = history.len();
    let start = if len > max_lines {
        len - max_lines
    } else {
        0
    };
    let mut out: Vec<(u64, String)> = Vec::new();
    let mut i: usize = start;
    while i < len
        invariant
            start <= i <= len,
            len == history@.len(),
            out@ == history@.subrange(start as int, i as int),
        decreases len - i,
    {
        out.push((history[i].0, history[i].1.clone()));
        i += 1;
        assert(out@ =~= history@.subrange(start as int, i as int));
    }
    assert(out@ =~= keep_last(history@, max_lines as int));
    out
}

} // verus!
