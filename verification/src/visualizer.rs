//! The sliding window of samples that is drawn as a polyline: which samples
//! it holds, and where on a surface of a given size each of them lies.

use vstd::prelude::*;

verus! {

/// The number of samples that the window spans.
pub const WINDOW: usize = 4096;

/// One line of the polyline, from `(x1, y1)` to `(x2, y2)`.
#[derive(Clone, Copy, Debug, PartialEq, Eq, Structural)]
pub struct Segment {
    pub x1: i64,
    pub y1: i64,
    pub x2: i64,
    pub y2: i64,
}

/// The number of samples in the window that starts at `position`: a whole
/// window, or what is left of the samples where they end sooner.
pub open spec fn window_len(len: int, position: int) -> int {
    if position >= len {
        0
    } else if len - position > 4096 {
        4096
    } else {
        len - position
    }
}

/// The number of lines drawn: one between each two neighbours in the window.
pub open spec fn segment_count(len: int, position: int) -> int {
    if window_len(len, position) == 0 {
        0
    } else {
        window_len(len, position) - 1
    }
}

/// The column of the window's `i`-th sample on a surface `width` wide.
pub open spec fn x_of(i: int, width: int) -> int {
    i * width / 4096
}

/// The distance of a sample of value `v` from the middle row, towards the
/// top, on a surface `height` high. It is rounded towards the middle.
pub open spec fn lift(v: int, height: int) -> int {
    if v >= 0 {
        v * height / 2 / 32768
    } else {
        -((-v) * height / 2 / 32768)
    }
}

/// The row of a sample of value `v` on a surface `height` high.
pub open spec fn y_of(v: int, height: int) -> int {
    height / 2 - lift(v, height)
}

/// The `i`-th line of the window that starts at `position`.
pub open spec fn segment_at(
    samples: Seq<i16>,
    position: int,
    i: int,
    width: int,
    height: int,
) -> Segment
    recommends
        0 <= i < segment_count(samples.len() as int, position),
{
    Segment {
        x1: x_of(i, width) as i64,
        y1: y_of(samples[position + i] as int, height) as i64,
        x2: x_of(i + 1, width) as i64,
        y2: y_of(samples[position + i + 1] as int, height) as i64,
    }
}

/// Columns grow with the index and stay on the surface.
pub proof fn lemma_columns(i: int, width: int)
    requires
        0 <= i < 4096,
        0 <= width,
    ensures
        0 <= x_of(i, width) <= x_of(i + 1, width) <= width,
        width > 0 ==> x_of(i, width) < width,
        x_of(0, width) == 0,
{
    assert(0 <= i * width <= (i + 1) * width <= 4096 * width) by (nonlinear_arith)
        requires
            0 <= i < 4096,
            0 <= width,
    ;
    assert(width > 0 ==> i * width < 4096 * width) by (nonlinear_arith)
        requires
            0 <= i < 4096,
            0 <= width,
    ;
}

/// Every row lies on the surface, and silence lies on the middle row.
pub proof fn lemma_rows(v: int, height: int)
    requires
        -32768 <= v <= 32767,
        0 <= height,
    ensures
        0 <= y_of(v, height) <= height,
        y_of(0, height) == height / 2,
{
    if v >= 0 {
        assert(0 <= v * height <= 32768 * height) by (nonlinear_arith)
            requires
                0 <= v <= 32768,
                0 <= height,
        ;
    } else {
        assert(0 <= (-v) * height <= 32768 * height) by (nonlinear_arith)
            requires
                0 <= -v <= 32768,
                0 <= height,
        ;
    }
}

/// The column of the window's `i`-th sample.
pub fn column_of(i: usize, width: u32) -> (x: i64)
    requires
        i < WINDOW,
    ensures
        x == x_of(i as int, width as int),
        0 <= x <= width,
{
    proof {
        lemma_columns(i as int, width as int);
    }
    let wide: u64 = width as u64;
    let at: u64 = i as u64;
    assert(at * wide <= 4096 * 0xffff_ffff) by (nonlinear_arith)
        requires
            at < 4096,
            wide <= 0xffff_ffff,
    ;
    (at * wide / 4096) as i64
}

/// The row of a sample of value `v`.
pub fn row_of(v: i16, height: u32) -> (y: i64)
    ensures
        y == y_of(v as int, height as int),
        0 <= y <= height,
{
    proof {
        lemma_rows(v as int, height as int);
    }
    let high: u64 = height as u64;
    let middle: i64 = (height / 2) as i64;
    if v >= 0 {
        let size: u64 = v as u64;
        assert(size * high <= 32768 * 0xffff_ffff) by (nonlinear_arith)
            requires
                size <= 32768,
                high <= 0xffff_ffff,
        ;
        middle - (size * high / 2 / 32768) as i64
    } else {
        let size: u64 = (-(v as i32)) as u64;
        assert(size * high <= 32768 * 0xffff_ffff) by (nonlinear_arith)
            requires
                size <= 32768,
                high <= 0xffff_ffff,
        ;
        middle + (size * high / 2 / 32768) as i64
    }
}

/// The lines to draw for the window that starts at `position`. There are
/// none where `position` lies behind the last sample; a window that reaches
/// beyond the samples is cut off where they end.
pub fn draw_waveform(samples: &[i16], position: usize, width: u32, height: u32) -> (segments:
    Vec<Segment>)
    ensures
        segments@.len() == segment_count(samples@.len() as int, position as int),
        position >= samples@.len() ==> segments@.len() == 0,
        forall|i: int|
            0 <= i < segments@.len() ==> #[trigger] segments@[i] == segment_at(
                samples@,
                position as int,
                i,
                width as int,
                height as int,
            ),
{
    let len: usize = samples.len();
    let mut segments: Vec<Segment> = Vec::new();
    if position >= len {
        return segments;
    }
    let shown: usize = if len - position > WINDOW {
        WINDOW
    } else {
        len - position
    };
    let count: usize = shown - 1;
    let mut i: usize = 0;
    while i < count
        invariant
            i <= count,
            count + 1 == shown,
            shown <= WINDOW,
            position + shown <= len,
            len == samples@.len(),
            segments@.len() == i,
            forall|k: int|
                0 <= k < i ==> #[trigger] segments@[k] == segment_at(
                    samples@,
                    position as int,
                    k,
                    width as int,
                    height as int,
                ),
        decreases count - i,
    {
        let segment = Segment {
            x1: column_of(i, width),
            y1: row_of(samples[position + i], height),
            x2: column_of(i + 1, width),
            y2: row_of(samples[position + i + 1], height),
        };
        segments.push(segment);
        i += 1;
    }
    segments
}

} // verus!
