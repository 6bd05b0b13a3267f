//! Finds a window's own render on a captured frame.
//!
//! A compositor can hand a window over rendered with its alpha channel: a
//! translucent window comes out translucent, with none of the wallpaper that
//! was showing through it.  The screen did show that wallpaper, and a captured
//! frame holds exactly that composite.  This module finds where on the frame
//! the render sits, so that the frame can be cropped instead.
//!
//! The search is a template match over the render's own pixels.  At the true
//! position a sampled frame pixel is the render's premultiplied colour plus
//! what the background adds; anywhere else, window content and background
//! disagree.  Pixels that carry structure are sampled, because a window's flat
//! background verifies a position almost anywhere.  A coarse sweep narrows the
//! position down, a full-resolution pass refines it, and the share of samples
//! that agree decides whether the position is trusted at all.

use vstd::prelude::*;

use crate::geometry::{Point, Rect};
use crate::model::{lemma_pixel_in_buffer, pixel_index, Frame};

verus! {

/// Samples the coarse pass scores a position with.
pub const COARSE_SAMPLES: usize = 160;

/// Samples the refinement pass scores with, at full resolution.
pub const REFINE_SAMPLES: usize = 1200;

/// Pixel stride of the coarse position sweep.
pub const COARSE_STEP: u32 = 4;

/// Full-resolution positions tried around the coarse winner, per axis.
pub const REFINE_RADIUS: i64 = 4;

/// How far above the render's own share (and what the background may add) a
/// screen channel may lie.
pub const MATCH_SLACK: i32 = 24;

/// Below this alpha the background dominates a screen pixel.
pub const MIN_SAMPLE_ALPHA: u8 = 150;

/// How far a pixel has to differ from a neighbour to count as structure.
pub const MIN_STRUCTURE_DELTA: u8 = 8;

/// Fewer structured pixels than this are held while collecting.
pub const MAX_STRUCTURED_PIXELS: usize = 16384;

/// With fewer usable samples than this a render says nothing about where it
/// sits.
pub const MIN_SAMPLES: usize = 64;

/// One sampled pixel of a render.
#[derive(Clone, Copy, Debug, PartialEq, Eq)]
pub struct Sample {
    pub x: u32,
    pub y: u32,
    /// The render's colour there, premultiplied by its alpha.
    pub color: [u8; 4],
}

// ---------------------------------------------------------------------------
// The pixels a render is sampled at
// ---------------------------------------------------------------------------
/// The pixel is opaque enough to verify a position with.
pub open spec fn opaque_at(frame: &Frame, x: int, y: int) -> bool {
    frame.channel(x, y, 3) >= MIN_SAMPLE_ALPHA
}

/// Two pixels differ by more than the structure threshold on a colour channel.
pub open spec fn differs(frame: &Frame, x: int, y: int, nx: int, ny: int) -> bool {
    ||| far_apart(frame.channel(x, y, 0), frame.channel(nx, ny, 0))
    ||| far_apart(frame.channel(x, y, 1), frame.channel(nx, ny, 1))
    ||| far_apart(frame.channel(x, y, 2), frame.channel(nx, ny, 2))
}

pub open spec fn far_apart(a: u8, b: u8) -> bool {
    a - b > MIN_STRUCTURE_DELTA || b - a > MIN_STRUCTURE_DELTA
}

/// The pixel differs from one of its four neighbours inside the frame.
pub open spec fn structured_at(frame: &Frame, x: int, y: int) -> bool {
    ||| x > 0 && differs(frame, x, y, x - 1, y)
    ||| x + 1 < frame.dim().width && differs(frame, x, y, x + 1, y)
    ||| y > 0 && differs(frame, x, y, x, y - 1)
    ||| y + 1 < frame.dim().height && differs(frame, x, y, x, y + 1)
}

/// The `n`-th node, row by row, of a grid with `cols` columns that are `step`
/// apart.
pub open spec fn node(n: int, cols: int, step: int) -> (int, int) {
    ((n % cols) * step, (n / cols) * step)
}

/// How many multiples of `step` lie in `0..length`.
pub open spec fn ticks(length: int, step: int) -> int {
    if length <= 0 {
        0
    } else {
        (length - 1) / step + 1
    }
}

/// The least stride, at least two, that lays no more than about `target` grid
/// nodes over `area` pixels.
pub open spec fn is_grid_stride(area: int, target: int, stride: int) -> bool {
    &&& stride >= 2
    &&& stride * stride * target >= area
    &&& stride > 2 ==> (stride - 1) * (stride - 1) * target < area
}

pub open spec fn grid_stride(area: int, target: int) -> int {
    choose|stride: int| is_grid_stride(area, target, stride)
}

pub open spec fn at_least_one(target: usize) -> int {
    if target == 0 {
        1
    } else {
        target as int
    }
}

/// The opaque ones among the first `n` nodes of the grid, in order.
pub open spec fn opaque_nodes(frame: &Frame, stride: int, n: int) -> Seq<(int, int)>
    decreases n,
{
    if n <= 0 {
        Seq::empty()
    } else {
        let before = opaque_nodes(frame, stride, n - 1);
        let (x, y) = node(n - 1, ticks(frame.dim().width as int, stride), stride);
        if opaque_at(frame, x, y) {
            before.push((x, y))
        } else {
            before
        }
    }
}

/// An even grid over the frame, its opaque nodes row by row.
pub open spec fn grid_positions(frame: &Frame, target: usize) -> Seq<(int, int)> {
    let stride = grid_stride(frame.dim().pixels() as int, at_least_one(target));
    opaque_nodes(
        frame,
        stride,
        ticks(frame.dim().width as int, stride) * ticks(frame.dim().height as int, stride),
    )
}

/// The opaque, structured ones among the first `n` pixels, row by row.
pub open spec fn structured_pixels(frame: &Frame, n: int) -> Seq<(int, int)>
    decreases n,
{
    if n <= 0 {
        Seq::empty()
    } else {
        let before = structured_pixels(frame, n - 1);
        let (x, y) = node(n - 1, frame.dim().width as int, 1);
        if opaque_at(frame, x, y) && structured_at(frame, x, y) {
            before.push((x, y))
        } else {
            before
        }
    }
}

/// Every `step`-th item, the first one included.
pub open spec fn every<A>(items: Seq<A>, step: int) -> Seq<A> {
    Seq::new(ticks(items.len() as int, step) as nat, |i: int| items[i * step])
}

/// The power of two by which `count` pixels are thinned: doubled until fewer
/// than the cap remain.
pub open spec fn thinning(count: int, step: int) -> int
    decreases count - step,
{
    if step <= 0 || ticks(count, step) < MAX_STRUCTURED_PIXELS {
        step
    } else {
        proof {
            lemma_ticks(count, step, 2);
        }
        thinning(count, step * 2)
    }
}

/// Where a render is sampled: its structured pixels, thinned evenly to about
/// `target`, or the opaque grid when it has too little structure.
pub open spec fn sample_positions(frame: &Frame, target: usize) -> Seq<(int, int)> {
    let all = structured_pixels(frame, frame.dim().pixels() as int);
    let kept = every(all, thinning(all.len() as int, 1));
    if kept.len() < MIN_SAMPLES {
        grid_positions(frame, target)
    } else {
        every(kept, ticks(kept.len() as int, at_least_one(target)))
    }
}

// ---------------------------------------------------------------------------
// How well a position explains the frame
// ---------------------------------------------------------------------------
/// A screen channel is the render's own premultiplied share, plus at most what
/// the background behind it can add.
pub open spec fn channel_agrees(shown: u8, own: u8, alpha: u8) -> bool {
    own <= shown && shown - own <= 255 - alpha + MATCH_SLACK
}

/// The frame covers the position.
pub open spec fn on_frame(frame: &Frame, x: int, y: int) -> bool {
    0 <= x < frame.dim().width && 0 <= y < frame.dim().height
}

/// A sampled pixel: where it is in its render, and its colour there.
pub struct Spot {
    pub x: int,
    pub y: int,
    pub color: Seq<u8>,
}

/// The render's pixels at these positions.
pub open spec fn spots_at(window: &Frame, at: Seq<(int, int)>) -> Seq<Spot> {
    Seq::new(
        at.len(),
        |i: int| Spot { x: at[i].0, y: at[i].1, color: window.rgba(at[i].0, at[i].1) },
    )
}

/// The pixels that samples stand for.
pub open spec fn spots_of(samples: Seq<Sample>) -> Seq<Spot> {
    Seq::new(
        samples.len(),
        |i: int|
            Spot { x: samples[i].x as int, y: samples[i].y as int, color: samples[i].color@ },
    )
}

/// A sampled pixel is what the frame shows when the render is placed at
/// `(origin_x, origin_y)`.
pub open spec fn spot_agrees(frame: &Frame, spot: Spot, origin_x: int, origin_y: int) -> bool {
    let (fx, fy) = (origin_x + spot.x, origin_y + spot.y);
    let alpha = spot.color[3];
    &&& on_frame(frame, fx, fy)
    &&& channel_agrees(frame.channel(fx, fy, 0), spot.color[0], alpha)
    &&& channel_agrees(frame.channel(fx, fy, 1), spot.color[1], alpha)
    &&& channel_agrees(frame.channel(fx, fy, 2), spot.color[2], alpha)
}

/// How many of the first `n` sampled pixels agree with the frame.
pub open spec fn agreeing(
    frame: &Frame,
    spots: Seq<Spot>,
    origin_x: int,
    origin_y: int,
    n: int,
) -> int
    decreases n,
{
    if n <= 0 {
        0
    } else {
        agreeing(frame, spots, origin_x, origin_y, n - 1) + if spot_agrees(
            frame,
            spots[n - 1],
            origin_x,
            origin_y,
        ) {
            1int
        } else {
            0
        }
    }
}

/// How many of the first `n` sampled pixels the frame covers at all.
pub open spec fn covered(
    frame: &Frame,
    at: Seq<(int, int)>,
    origin_x: int,
    origin_y: int,
    n: int,
) -> int
    decreases n,
{
    if n <= 0 {
        0
    } else {
        covered(frame, at, origin_x, origin_y, n - 1) + if on_frame(
            frame,
            origin_x + at[n - 1].0,
            origin_y + at[n - 1].1,
        ) {
            1int
        } else {
            0
        }
    }
}

/// The score of a position: how many of the sampled pixels agree.
pub open spec fn score(frame: &Frame, spots: Seq<Spot>, origin_x: int, origin_y: int) -> int {
    agreeing(frame, spots, origin_x, origin_y, spots.len() as int)
}

/// The first of `n` candidates with the highest score.
pub open spec fn best_index(scores: spec_fn(int) -> int, n: int) -> int
    decreases n,
{
    if n <= 1 {
        0
    } else {
        let before = best_index(scores, n - 1);
        if scores(n - 1) > scores(before) {
            n - 1
        } else {
            before
        }
    }
}

/// How many positions, `step` apart, a sweep tries along one axis.
pub open spec fn sweep_length(frame_side: u32, window_side: u32, step: u32) -> int {
    ticks(frame_side - window_side + 1, step as int)
}

/// The score of the `n`-th position of a sweep, row by row.
pub open spec fn sweep_scores(
    window: &Frame,
    frame: &Frame,
    spots: Seq<Spot>,
    step: u32,
) -> spec_fn(int) -> int {
    let cols = sweep_length(frame.dim().width, window.dim().width, step);
    |n: int|
        {
            let (x, y) = node(n, cols, step as int);
            score(frame, spots, x, y)
        }
}

/// The first position of a sweep that scores best, with its score; none where
/// the window does not fit the frame.
pub open spec fn swept(window: &Frame, frame: &Frame, spots: Seq<Spot>, step: u32) -> Option<
    (int, int, int),
> {
    let (own, whole) = (window.dim(), frame.dim());
    if own.width > whole.width || own.height > whole.height {
        None
    } else {
        let cols = sweep_length(whole.width, own.width, step);
        let rows = sweep_length(whole.height, own.height, step);
        let scores = sweep_scores(window, frame, spots, step);
        let best = best_index(scores, cols * rows);
        let (x, y) = node(best, cols, step as int);
        Some((x, y, scores(best)))
    }
}

/// The `n`-th position tried around `(x, y)`, row by row.
pub open spec fn around(x: int, y: int, n: int) -> (int, int) {
    let side = 2 * REFINE_RADIUS + 1;
    (x + n % side - REFINE_RADIUS, y + n / side - REFINE_RADIUS)
}

/// The score of the `n`-th refined position; one left of or above the frame is
/// passed over.
pub open spec fn fine_scores(
    window: &Frame,
    frame: &Frame,
    coarse_x: int,
    coarse_y: int,
) -> spec_fn(int) -> int {
    let spots = spots_at(window, sample_positions(window, REFINE_SAMPLES));
    |n: int|
        {
            let (x, y) = around(coarse_x, coarse_y, n);
            if x < 0 || y < 0 {
                -1
            } else {
                score(frame, spots, x, y)
            }
        }
}

/// How many positions the refinement tries.
pub open spec fn refinements() -> int {
    (2 * REFINE_RADIUS + 1) * (2 * REFINE_RADIUS + 1)
}

/// Three fifths of the samples have to agree for a position to be trusted.
pub open spec fn trusted(agreeing: int, samples: int) -> bool {
    agreeing * 5 >= samples * 3
}

/// Where the render sits on the frame.
pub open spec fn located(window: &Frame, frame: &Frame) -> Option<Rect> {
    let (own, whole) = (window.dim(), frame.dim());
    if own.width == 0 || own.height == 0 || own.width > whole.width || own.height > whole.height {
        None
    } else if sample_positions(window, COARSE_SAMPLES).len() < MIN_SAMPLES {
        None
    } else {
        let (coarse_x, coarse_y, coarse_matched) = swept(
            window,
            frame,
            spots_at(window, sample_positions(window, COARSE_SAMPLES)),
            COARSE_STEP,
        )->Some_0;
        if coarse_matched == 0 {
            None
        } else {
            let scores = fine_scores(window, frame, coarse_x, coarse_y);
            let fine = best_index(scores, refinements());
            let (x, y) = around(coarse_x, coarse_y, fine);
            if !trusted(
                scores(fine),
                sample_positions(window, REFINE_SAMPLES).len() as int,
            ) || x > i32::MAX || y > i32::MAX {
                None
            } else {
                Some(Rect { origin: Point { x: x as i32, y: y as i32 }, size: own })
            }
        }
    }
}

/// Whether the render sits at a stated position; `None` when too little of it
/// can be checked.
pub open spec fn position_verdict(
    window: &Frame,
    frame: &Frame,
    origin_x: int,
    origin_y: int,
) -> Option<bool> {
    let at = sample_positions(window, REFINE_SAMPLES);
    let in_frame = covered(frame, at, origin_x, origin_y, at.len() as int);
    if window.dim().width == 0 || window.dim().height == 0 || at.len() < MIN_SAMPLES || in_frame
        < MIN_SAMPLES {
        None
    } else {
        Some(trusted(score(frame, spots_at(window, at), origin_x, origin_y), in_frame))
    }
}

/// Two renders show the same picture on every sampled opaque pixel.
pub open spec fn same_picture(a: &Frame, b: &Frame) -> bool {
    let at = grid_positions(a, REFINE_SAMPLES);
    &&& a.dim() == b.dim()
    &&& at.len() >= MIN_SAMPLES ==> forall|i: int|
        0 <= i < at.len() ==> (#[trigger] b.rgba(at[i].0, at[i].1)) == a.rgba(at[i].0, at[i].1)
}

/// The samples hold the frame's colours at these positions.
pub open spec fn samples_of(frame: &Frame, samples: Seq<Sample>, at: Seq<(int, int)>) -> bool {
    &&& samples.len() == at.len()
    &&& forall|i: int|
        0 <= i < samples.len() ==> #[trigger] samples[i].x == at[i].0 && samples[i].y == at[i].1
            && samples[i].color@ == frame.rgba(at[i].0, at[i].1)
}

proof fn lemma_spots(frame: &Frame, samples: Seq<Sample>, at: Seq<(int, int)>)
    requires
        samples_of(frame, samples, at),
    ensures
        spots_of(samples) == spots_at(frame, at),
{
    assert forall|i: int| 0 <= i < samples.len() implies #[trigger] spots_of(samples)[i] == spots_at(
        frame,
        at,
    )[i] by {
        assert(samples[i].x == at[i].0);
    }
    assert(spots_of(samples) =~= spots_at(frame, at));
}

/// A grid node is found again from its row and column.
proof fn lemma_node(row: int, col: int, cols: int, step: int)
    requires
        0 <= col < cols,
        0 <= row,
    ensures
        node(row * cols + col, cols, step) == (col * step, row * step),
        0 <= row * cols,
{
    vstd::arithmetic::div_mod::lemma_fundamental_div_mod_converse(
        row * cols + col,
        cols,
        row,
        col,
    );
    assert(0 <= row * cols) by (nonlinear_arith)
        requires
            0 <= row,
            0 <= cols,
    ;
}

/// The `i`-th tick of `length` lies inside it, and the one after the last
/// does not.
pub proof fn lemma_ticks(length: int, step: int, i: int)
    requires
        step > 0,
        0 <= i,
    ensures
        i < ticks(length, step) <==> i * step < length,
        0 <= ticks(length, step),
{
    if length > 0 {
        vstd::arithmetic::div_mod::lemma_fundamental_div_mod(length - 1, step);
        let q = (length - 1) / step;
        assert(q >= 0) by (nonlinear_arith)
            requires
                q == (length - 1) / step,
                length >= 1,
                step > 0,
        ;
        assert(i <= q ==> i * step <= q * step) by (nonlinear_arith)
            requires
                step > 0,
        ;
        assert(i >= q + 1 ==> i * step >= q * step + step) by (nonlinear_arith)
            requires
                step > 0,
        ;
        assert(step * q == q * step) by (nonlinear_arith);
    } else {
        assert(0 <= i * step) by (nonlinear_arith)
            requires
                0 <= i,
                step > 0,
        ;
    }
}

proof fn lemma_square_grows(a: int, b: int, target: int)
    requires
        0 <= a <= b,
        target >= 1,
    ensures
        a * a * target <= b * b * target,
        b <= b * b * target || b == 0,
{
    assert(a * a <= b * b) by (nonlinear_arith)
        requires
            0 <= a <= b,
    ;
    assert(a * a * target <= b * b * target) by (nonlinear_arith)
        requires
            a * a <= b * b,
            target >= 1,
    ;
    assert(b <= b * b * target || b == 0) by (nonlinear_arith)
        requires
            0 <= b,
            target >= 1,
    ;
}

/// There is one least stride.
proof fn lemma_grid_stride(area: int, target: int, stride: int)
    requires
        is_grid_stride(area, target, stride),
        target >= 1,
    ensures
        grid_stride(area, target) == stride,
{
    let chosen = grid_stride(area, target);
    assert(is_grid_stride(area, target, chosen));
    if chosen < stride {
        lemma_square_grows(chosen, stride - 1, target);
    } else if stride < chosen {
        lemma_square_grows(stride, chosen - 1, target);
    }
}

/// The stride of the sampling grid.
fn find_grid_stride(area: u64, target: usize) -> (stride: u64)
    requires
        target >= 1,
    ensures
        stride == grid_stride(area as int, target as int),
        2 <= stride <= 0x1_0000_0001,
{
    let mut stride: u64 = 2;
    proof {
        assert(2 * 2 * target <= 4 * u64::MAX);
    }
    while (stride as u128 * stride as u128 * target as u128) < area as u128
        invariant
            target >= 1,
            2 <= stride <= 0x1_0000_0001,
            stride * stride <= u128::MAX,
            stride * stride * target <= 4 * u64::MAX,
            stride > 2 ==> (stride - 1) * (stride - 1) * target < area,
        decreases 0x1_0000_0001 - stride,
    {
        proof {
            let s = stride as int;
            assert(s * s <= s * s * target) by (nonlinear_arith)
                requires
                    target >= 1,
                    s >= 0,
            ;
            assert(s <= u32::MAX) by (nonlinear_arith)
                requires
                    s * s < u64::MAX,
                    s >= 0,
            ;
            assert((s + 1) * (s + 1) * target <= 4 * (s * s * target)) by (nonlinear_arith)
                requires
                    s >= 2,
                    target >= 1,
            ;
            assert((s + 1) * (s + 1) <= u128::MAX) by (nonlinear_arith)
                requires
                    0 <= s <= u32::MAX,
            ;
        }
        stride = stride + 1;
    }
    proof {
        lemma_grid_stride(area as int, target as int, stride as int);
    }
    stride
}

/// The sample at `(x, y)`.
fn sample_at(window: &Frame, x: u32, y: u32) -> (sample: Sample)
    requires
        x < window.dim().width,
        y < window.dim().height,
    ensures
        sample.x == x,
        sample.y == y,
        sample.color@ == window.rgba(x as int, y as int),
{
    let pixels = window.pixels();
    let index: usize = pixel_index(window.size(), x, y, pixels.len());
    let color: [u8; 4] = [
        pixels[index],
        pixels[index + 1],
        pixels[index + 2],
        pixels[index + 3],
    ];
    assert(color@ =~= window.rgba(x as int, y as int));
    Sample { x, y, color }
}

/// Lays an even grid over the render and keeps the pixels opaque enough to
/// verify a position, roughly `target` of them.
///
/// The step is taken from the render's area, so the samples spread over both
/// axes at once: a walk that stopped after `target` samples would spend them
/// on the first few rows and leave the vertical position unconstrained.
pub fn collect_samples(window: &Frame, target: usize) -> (samples: Vec<Sample>)
    ensures
        samples_of(window, samples@, grid_positions(window, target)),
{
    let size = window.size();
    let goal: usize = if target == 0 {
        1
    } else {
        target
    };
    let mut samples: Vec<Sample> = Vec::new();
    proof {
        assert(size.width * size.height <= u64::MAX) by (nonlinear_arith)
            requires
                size.width <= u32::MAX,
                size.height <= u32::MAX,
        ;
        assert(0 <= size.width * size.height) by (nonlinear_arith);
    }
    let area: u64 = size.width as u64 * size.height as u64;
    let stride: u64 = find_grid_stride(area, goal);
    if size.width == 0 || size.height == 0 {
        proof {
            let rows = ticks(size.height as int, stride as int);
            let cols = ticks(size.width as int, stride as int);
            assert(cols * rows == 0) by (nonlinear_arith)
                requires
                    cols == 0 || rows == 0,
            ;
        }
        return samples;
    }
    let cols: u64 = (size.width as u64 - 1) / stride + 1;
    let rows: u64 = (size.height as u64 - 1) / stride + 1;
    let mut row: u64 = 0;
    assert(opaque_nodes(window, stride as int, 0) =~= Seq::empty());
    while row < rows
        invariant
            window.wf(),
            size == window.dim(),
            stride >= 2,
            size.width > 0,
            size.height > 0,
            cols == ticks(size.width as int, stride as int),
            rows == ticks(size.height as int, stride as int),
            cols <= u32::MAX,
            rows <= u32::MAX,
            row <= rows,
            samples_of(window, samples@, opaque_nodes(window, stride as int, row * cols)),
        decreases rows - row,
    {
        let mut col: u64 = 0;
        proof {
            lemma_ticks(size.height as int, stride as int, row as int);
        }
        let y: u32 = (row * stride) as u32;
        while col < cols
            invariant
                window.wf(),
                size == window.dim(),
                stride >= 2,
                size.width > 0,
                size.height > 0,
                cols == ticks(size.width as int, stride as int),
                cols <= u32::MAX,
                row < u32::MAX,
                col <= cols,
                y == row * stride,
                y < size.height,
                samples_of(window, samples@, opaque_nodes(window, stride as int, row * cols + col)),
            decreases cols - col,
        {
            proof {
                lemma_ticks(size.width as int, stride as int, col as int);
                lemma_node(row as int, col as int, cols as int, stride as int);
            }
            let x: u32 = (col * stride) as u32;
            let sample = sample_at(window, x, y);
            let ghost before = opaque_nodes(window, stride as int, row * cols + col);
            let ghost after = opaque_nodes(window, stride as int, row * cols + col + 1);
            assert(sample.color@[3] == window.channel(x as int, y as int, 3));
            if sample.color[3] >= MIN_SAMPLE_ALPHA {
                assert(after == before.push((x as int, y as int)));
                samples.push(sample);
            } else {
                assert(after == before);
            }
            assert(samples_of(window, samples@, after));
            col = col + 1;
        }
        proof {
            assert((row + 1) * cols == row * cols + cols) by (nonlinear_arith);
        }
        row = row + 1;
    }
    proof {
        assert(rows * cols == cols * rows) by (nonlinear_arith);
    }
    samples
}

/// Whether two pixels of the buffer differ by more than the structure
/// threshold on a colour channel.
fn channels_differ(pixels: &[u8], at: usize, other: usize) -> (differ: bool)
    requires
        at + 4 <= pixels@.len(),
        other + 4 <= pixels@.len(),
    ensures
        differ == (far_apart(pixels@[at as int], pixels@[other as int]) || far_apart(
            pixels@[at + 1],
            pixels@[other + 1],
        ) || far_apart(pixels@[at + 2], pixels@[other + 2])),
{
    channel_differs(pixels[at], pixels[other]) || channel_differs(pixels[at + 1], pixels[other + 1])
        || channel_differs(pixels[at + 2], pixels[other + 2])
}

fn channel_differs(a: u8, b: u8) -> (differ: bool)
    ensures
        differ == far_apart(a, b),
{
    a as i32 - b as i32 > MIN_STRUCTURE_DELTA as i32 || b as i32 - a as i32
        > MIN_STRUCTURE_DELTA as i32
}

/// Whether the pixel at `(x, y)` differs from a neighbour by more than the
/// structure threshold.  Edges answer on both sides, so a stroke one pixel
/// wide is not missed.
fn has_structure(window: &Frame, x: u32, y: u32) -> (structured: bool)
    requires
        x < window.dim().width,
        y < window.dim().height,
    ensures
        structured == structured_at(window, x as int, y as int),
{
    let size = window.size();
    let pixels = window.pixels();
    let bytes: usize = pixels.len();
    let at: usize = pixel_index(size, x, y, bytes);
    if x > 0 && channels_differ(pixels, at, pixel_index(size, x - 1, y, bytes)) {
        return true;
    }
    if x + 1 < size.width && channels_differ(pixels, at, pixel_index(size, x + 1, y, bytes)) {
        return true;
    }
    if y > 0 && channels_differ(pixels, at, pixel_index(size, x, y - 1, bytes)) {
        return true;
    }
    if y + 1 < size.height && channels_differ(pixels, at, pixel_index(size, x, y + 1, bytes)) {
        return true;
    }
    false
}

/// The positions a list of pixel coordinates stands for.
pub open spec fn as_positions(kept: Seq<(u32, u32)>) -> Seq<(int, int)> {
    kept.map_values(|at: (u32, u32)| (at.0 as int, at.1 as int))
}

proof fn lemma_ticks_product(n: int, a: int, b: int, i: int)
    requires
        a > 0,
        b > 0,
        0 <= i,
    ensures
        i < ticks(ticks(n, a), b) <==> i < ticks(n, a * b),
{
    assert(a * b > 0) by (nonlinear_arith)
        requires
            a > 0,
            b > 0,
    ;
    lemma_ticks(ticks(n, a), b, i);
    assert(0 <= i * b) by (nonlinear_arith)
        requires
            0 <= i,
            b > 0,
    ;
    lemma_ticks(n, a, i * b);
    lemma_ticks(n, a * b, i);
    assert(i * b * a == i * (a * b)) by (nonlinear_arith);
}

/// Thinning twice is thinning by the product.
proof fn lemma_every_every<A>(items: Seq<A>, a: int, b: int)
    requires
        a > 0,
        b > 0,
    ensures
        every(every(items, a), b) == every(items, a * b),
{
    let n = items.len() as int;
    assert(a * b > 0) by (nonlinear_arith)
        requires
            a > 0,
            b > 0,
    ;
    let once = ticks(n, a);
    let twice = ticks(once, b);
    let product = ticks(n, a * b);
    lemma_ticks(n, a, 0);
    lemma_ticks(once, b, 0);
    lemma_ticks(n, a * b, 0);
    lemma_ticks_product(n, a, b, twice);
    lemma_ticks_product(n, a, b, product);
    assert forall|i: int| 0 <= i < product implies every(every(items, a), b)[i] == every(
        items,
        a * b,
    )[i] by {
        lemma_ticks(once, b, i);
        assert(0 <= i * b) by (nonlinear_arith)
            requires
                0 <= i,
                b > 0,
        ;
        assert(i * b * a == i * (a * b)) by (nonlinear_arith);
    }
    assert(every(every(items, a), b) =~= every(items, a * b));
}

/// One more item adds an entry exactly when its number is a multiple.
proof fn lemma_every_push<A>(items: Seq<A>, item: A, step: int)
    requires
        step > 0,
    ensures
        every(items.push(item), step) == if items.len() % (step as nat) == 0 {
            every(items, step).push(item)
        } else {
            every(items, step)
        },
        ticks(items.len() as int + 1, step) >= ticks(items.len() as int, step),
{
    let n = items.len() as int;
    let before = ticks(n, step);
    let after = ticks(n + 1, step);
    lemma_ticks(n, step, 0);
    lemma_ticks(n + 1, step, 0);
    lemma_ticks(n, step, before);
    lemma_ticks(n + 1, step, before);
    lemma_ticks(n + 1, step, before + 1);
    lemma_ticks(n + 1, step, after);
    vstd::arithmetic::div_mod::lemma_fundamental_div_mod(n, step);
    let q = n / step;
    let r = n % step;
    assert(step * q == q * step) by (nonlinear_arith);
    assert(q >= 0) by (nonlinear_arith)
        requires
            q == n / step,
            n >= 0,
            step > 0,
    ;
    lemma_ticks(n, step, q);
    lemma_ticks(n, step, q + 1);
    lemma_ticks(n + 1, step, q);
    lemma_ticks(n + 1, step, q + 1);
    assert((q + 1) * step == q * step + step) by (nonlinear_arith);
    assert forall|i: int| 0 <= i < before implies every(items.push(item), step)[i] == every(
        items,
        step,
    )[i] by {
        lemma_ticks(n, step, i);
        lemma_ticks(n + 1, step, i);
        assert(0 <= i * step) by (nonlinear_arith)
            requires
                0 <= i,
                step > 0,
        ;
    }
    if r == 0 {
        if q > 0 {
            lemma_ticks(n, step, q - 1);
            assert((q - 1) * step == q * step - step) by (nonlinear_arith);
        }
        assert(before == q && after == q + 1);
        assert(every(items.push(item), step) =~= every(items, step).push(item));
    } else {
        assert(before == q + 1 && after == q + 1);
        assert(every(items.push(item), step) =~= every(items, step));
    }
}

/// One more pixel leaves the thinning where it was, unless the cap is reached.
proof fn lemma_thinning_extends(count: int, step: int)
    requires
        step > 0,
        count >= 0,
    ensures
        thinning(count + 1, step) == thinning(count + 1, thinning(count, step)),
        thinning(count, step) > 0,
        ticks(count, thinning(count, step)) < MAX_STRUCTURED_PIXELS,
        thinning(count, step) <= step || thinning(count, step) <= count,
    decreases count - step,
{
    if ticks(count, step) >= MAX_STRUCTURED_PIXELS {
        lemma_ticks(count, step, 2);
        lemma_ticks(count + 1, step, MAX_STRUCTURED_PIXELS as int - 1);
        lemma_ticks(count, step, MAX_STRUCTURED_PIXELS as int - 1);
        lemma_thinning_extends(count, step * 2);
    }
}

/// Every `step`-th entry of `kept`.
fn thin(kept: &Vec<(u32, u32)>, step: usize) -> (thinned: Vec<(u32, u32)>)
    requires
        step >= 1,
    ensures
        thinned@ == every(kept@, step as int),
{
    let mut thinned: Vec<(u32, u32)> = Vec::new();
    let count: usize = kept.len();
    let total: usize = if count == 0 {
        0
    } else {
        (count - 1) / step + 1
    };
    while thinned.len() < total
        invariant
            step >= 1,
            count == kept@.len(),
            total == ticks(kept@.len() as int, step as int),
            thinned.len() <= total,
            forall|i: int| #![auto] 0 <= i < thinned@.len() ==> thinned@[i] == kept@[i * step],
        decreases total - thinned.len(),
    {
        proof {
            lemma_ticks(kept@.len() as int, step as int, thinned@.len() as int);
            assert(0 <= thinned@.len() * step) by (nonlinear_arith);
        }
        let at: usize = thinned.len() * step;
        thinned.push(kept[at]);
    }
    assert(thinned@ =~= every(kept@, step as int));
    thinned
}

proof fn lemma_every_positions(kept: Seq<(u32, u32)>, step: int)
    requires
        step > 0,
    ensures
        as_positions(every(kept, step)) == every(as_positions(kept), step),
{
    assert forall|i: int| 0 <= i < ticks(kept.len() as int, step) implies as_positions(
        every(kept, step),
    )[i] == every(as_positions(kept), step)[i] by {
        lemma_ticks(kept.len() as int, step, i);
        assert(0 <= i * step) by (nonlinear_arith)
            requires
                0 <= i,
                step > 0,
        ;
    }
    lemma_ticks(kept.len() as int, step, 0);
    assert(as_positions(every(kept, step)) =~= every(as_positions(kept), step));
}

/// The structured pixels lie inside the frame, and there are no more of them
/// than pixels.
proof fn lemma_structured_inside(frame: &Frame, n: int)
    requires
        0 <= n <= frame.dim().pixels(),
    ensures
        structured_pixels(frame, n).len() <= n,
        forall|i: int|
            0 <= i < structured_pixels(frame, n).len() ==> {
                let at = #[trigger] structured_pixels(frame, n)[i];
                0 <= at.0 < frame.dim().width && 0 <= at.1 < frame.dim().height
            },
    decreases n,
{
    if n > 0 {
        lemma_structured_inside(frame, n - 1);
        let (width, height) = (frame.dim().width as int, frame.dim().height as int);
        assert(width > 0) by (nonlinear_arith)
            requires
                width * height >= n,
                n > 0,
                width >= 0,
                height >= 0,
        ;
        vstd::arithmetic::div_mod::lemma_fundamental_div_mod(n - 1, width);
        let (q, r) = ((n - 1) / width, (n - 1) % width);
        assert(0 <= q < height) by (nonlinear_arith)
            requires
                width * q + r == n - 1,
                0 <= r < width,
                n - 1 < width * height,
                n > 0,
        ;
    }
}

/// Collects the structured pixels of the render, thinned so that fewer than
/// the cap are held at any time.
fn structured_positions(window: &Frame) -> (kept: Vec<(u32, u32)>)
    ensures
        ({
            let all = structured_pixels(window, window.dim().pixels() as int);
            as_positions(kept@) == every(all, thinning(all.len() as int, 1))
        }),
        forall|i: int|
            0 <= i < kept@.len() ==> (#[trigger] kept@[i]).0 < window.dim().width && kept@[i].1
                < window.dim().height,
{
    let size = window.size();
    let pixels = window.pixels();
    let mut kept: Vec<(u32, u32)> = Vec::new();
    let mut seen: u64 = 0;
    let mut stride: u64 = 1;
    let mut y: u32 = 0;
    let ghost mut all: Seq<(int, int)> = Seq::empty();
    proof {
        assert(0 <= size.width * size.height <= u64::MAX) by (nonlinear_arith)
            requires
                size.width <= u32::MAX,
                size.height <= u32::MAX,
        ;
        assert(as_positions(kept@) =~= every(all, 1));
    }
    while y < size.height
        invariant
            window.wf(),
            size == window.dim(),
            pixels@ == window.data(),
            y <= size.height,
            0 <= size.width * size.height <= u64::MAX,
            all == structured_pixels(window, y * size.width),
            seen == all.len(),
            seen <= y * size.width,
            stride == thinning(seen as int, 1),
            stride > 0,
            as_positions(kept@) == every(all, stride as int),
            kept@.len() < MAX_STRUCTURED_PIXELS,
            forall|i: int|
                0 <= i < kept@.len() ==> (#[trigger] kept@[i]).0 < size.width && kept@[i].1
                    < size.height,
        decreases size.height - y,
    {
        let mut x: u32 = 0;
        while x < size.width
            invariant
                window.wf(),
                size == window.dim(),
                pixels@ == window.data(),
                x <= size.width,
                y < size.height,
                0 <= size.width * size.height <= u64::MAX,
                all == structured_pixels(window, y * size.width + x),
                seen == all.len(),
                seen <= y * size.width + x,
                stride == thinning(seen as int, 1),
                stride > 0,
                as_positions(kept@) == every(all, stride as int),
                kept@.len() < MAX_STRUCTURED_PIXELS,
                forall|i: int|
                    0 <= i < kept@.len() ==> (#[trigger] kept@[i]).0 < size.width && kept@[i].1
                        < size.height,
            decreases size.width - x,
        {
            let index: usize = pixel_index(size, x, y, pixels.len());
            proof {
                lemma_node(y as int, x as int, size.width as int, 1);
                lemma_pixel_in_buffer(size, x as int, y as int);
            }
            if pixels[index + 3] >= MIN_SAMPLE_ALPHA && has_structure(window, x, y) {
                let ghost before = all;
                proof {
                    let n = seen as int;
                    all = before.push((x as int, y as int));
                    lemma_every_push(before, (x as int, y as int), stride as int);
                    lemma_thinning_extends(n, 1);
                    assert(thinning(n + 1, 1) == thinning(n + 1, stride as int));
                    lemma_every_every(all, stride as int, 2);
                }
                if seen % stride == 0 {
                    let ghost held = kept@;
                    kept.push((x, y));
                    proof {
                        assert(as_positions(kept@) =~= as_positions(held).push(
                            (x as int, y as int),
                        ));
                    }
                    if kept.len() >= MAX_STRUCTURED_PIXELS {
                        proof {
                            lemma_every_positions(kept@, 2);
                            assert(every(all, stride as int).len() == kept@.len());
                            assert(every(all, stride as int * 2).len() == ticks(
                                kept@.len() as int,
                                2,
                            ));
                            lemma_ticks(kept@.len() as int, 2, 8192);
                            lemma_ticks(seen + 1, stride as int, 2);
                            assert(thinning(seen + 1, stride as int) == thinning(
                                seen + 1,
                                stride * 2,
                            ));
                            assert(thinning(seen + 1, stride * 2) == stride * 2);
                            assert forall|i: int| 0 <= i < every(kept@, 2).len() implies (
                            #[trigger] every(kept@, 2)[i]).0 < size.width && every(kept@, 2)[i].1
                                < size.height by {
                                lemma_ticks(kept@.len() as int, 2, i);
                                assert(kept@[i * 2].0 < size.width);
                            }
                        }
                        kept = thin(&kept, 2);
                        stride = stride * 2;
                    } else {
                        assert(ticks(seen + 1, stride as int) == kept@.len());
                    }
                } else {
                    assert(ticks(seen + 1, stride as int) == kept@.len());
                }
                seen = seen + 1;
            }
            x = x + 1;
        }
        proof {
            assert((y + 1) * size.width == y * size.width + size.width) by (nonlinear_arith);
        }
        y = y + 1;
    }
    proof {
        assert(size.height * size.width == size.width * size.height) by (nonlinear_arith);
    }
    kept
}

/// The samples of a render lie inside it.
proof fn lemma_grid_inside(frame: &Frame, stride: int, n: int)
    requires
        stride >= 1,
        0 <= n <= ticks(frame.dim().width as int, stride) * ticks(
            frame.dim().height as int,
            stride,
        ),
    ensures
        forall|i: int|
            0 <= i < opaque_nodes(frame, stride, n).len() ==> {
                let at = #[trigger] opaque_nodes(frame, stride, n)[i];
                0 <= at.0 < frame.dim().width && 0 <= at.1 < frame.dim().height
            },
    decreases n,
{
    if n > 0 {
        lemma_grid_inside(frame, stride, n - 1);
        let cols = ticks(frame.dim().width as int, stride);
        let rows = ticks(frame.dim().height as int, stride);
        lemma_ticks(frame.dim().width as int, stride, 0);
        lemma_ticks(frame.dim().height as int, stride, 0);
        assert(cols > 0) by (nonlinear_arith)
            requires
                cols * rows >= n,
                n > 0,
                cols >= 0,
                rows >= 0,
        ;
        vstd::arithmetic::div_mod::lemma_fundamental_div_mod(n - 1, cols);
        let (q, r) = ((n - 1) / cols, (n - 1) % cols);
        assert(0 <= q < rows) by (nonlinear_arith)
            requires
                cols * q + r == n - 1,
                0 <= r < cols,
                n - 1 < cols * rows,
                n > 0,
        ;
        lemma_ticks(frame.dim().width as int, stride, r);
        lemma_ticks(frame.dim().height as int, stride, q);
        assert(0 <= r * stride && 0 <= q * stride) by (nonlinear_arith)
            requires
                0 <= r,
                0 <= q,
                stride >= 1,
        ;
        let before = opaque_nodes(frame, stride, n - 1);
        assert(opaque_nodes(frame, stride, n) == before || opaque_nodes(frame, stride, n)
            == before.push((r * stride, q * stride)));
    }
}

/// The pixels that pin a position down: opaque ones that carry structure, and
/// thinned evenly over the render's whole extent.
///
/// Opacity alone is not enough.  A terminal is mostly one flat colour with a
/// little text in it, and a flat colour matches almost anywhere on a desktop
/// of a similar shade.  A render with too little structure falls back to
/// [`collect_samples`].
pub fn collect_structure_samples(window: &Frame, target: usize) -> (samples: Vec<Sample>)
    ensures
        samples_of(window, samples@, sample_positions(window, target)),
{
    let kept = structured_positions(window);
    if kept.len() < MIN_SAMPLES {
        return collect_samples(window, target);
    }
    let goal: usize = if target == 0 {
        1
    } else {
        target
    };
    let step: usize = (kept.len() - 1) / goal + 1;
    let thinned = thin(&kept, step);
    let ghost all = structured_pixels(window, window.dim().pixels() as int);
    let ghost positions = sample_positions(window, target);
    proof {
        lemma_every_positions(kept@, step as int);
        assert(as_positions(thinned@) == positions);
        assert forall|i: int| 0 <= i < thinned@.len() implies (#[trigger] thinned@[i]).0
            < window.dim().width && thinned@[i].1 < window.dim().height by {
            lemma_ticks(kept@.len() as int, step as int, i);
            assert(0 <= i * step) by (nonlinear_arith)
                requires
                    0 <= i,
            ;
            assert(thinned@[i] == kept@[i * step]);
        }
    }
    let mut samples: Vec<Sample> = Vec::new();
    while samples.len() < thinned.len()
        invariant
            samples.len() <= thinned.len(),
            as_positions(thinned@) == positions,
            forall|i: int|
                0 <= i < thinned@.len() ==> (#[trigger] thinned@[i]).0 < window.dim().width
                    && thinned@[i].1 < window.dim().height,
            samples_of(window, samples@, positions.take(samples@.len() as int)),
        decreases thinned.len() - samples.len(),
    {
        let (x, y) = thinned[samples.len()];
        assert(positions[samples@.len() as int] == (x as int, y as int));
        samples.push(sample_at(window, x, y));
    }
    assert(positions.take(samples@.len() as int) =~= positions);
    samples
}

/// One channel of [`matches_at`].
fn channel_within(shown: u8, own: u8, alpha: u8) -> (within: bool)
    ensures
        within == channel_agrees(shown, own, alpha),
{
    let span: i32 = (255 - alpha as i32) + MATCH_SLACK;
    shown >= own && shown as i32 - own as i32 <= span
}

/// How many of `samples` agree with the frame when the render is placed at
/// `(origin_x, origin_y)`.
fn matches_at(frame: &Frame, samples: &Vec<Sample>, origin_x: i64, origin_y: i64) -> (matched:
    usize)
    requires
        -0x1_0000_0000 <= origin_x <= 0x2_0000_0000,
        -0x1_0000_0000 <= origin_y <= 0x2_0000_0000,
    ensures
        matched == score(frame, spots_of(samples@), origin_x as int, origin_y as int),
        matched <= samples@.len(),
{
    let ghost spots = spots_of(samples@);
    let size = frame.size();
    let pixels = frame.pixels();
    let mut matched: usize = 0;
    let mut i: usize = 0;
    while i < samples.len()
        invariant
            frame.wf(),
            size == frame.dim(),
            pixels@ == frame.data(),
            spots == spots_of(samples@),
            -0x1_0000_0000 <= origin_x <= 0x2_0000_0000,
            -0x1_0000_0000 <= origin_y <= 0x2_0000_0000,
            i <= samples.len(),
            matched <= i,
            matched == agreeing(frame, spots, origin_x as int, origin_y as int, i as int),
        decreases samples.len() - i,
    {
        let sample = &samples[i];
        let fx: i64 = origin_x + sample.x as i64;
        let fy: i64 = origin_y + sample.y as i64;
        assert(spots[i as int] == (Spot {
            x: sample.x as int,
            y: sample.y as int,
            color: sample.color@,
        }));
        if fx >= 0 && fy >= 0 && fx < size.width as i64 && fy < size.height as i64 {
            let index: usize = pixel_index(size, fx as u32, fy as u32, pixels.len());
            let alpha: u8 = sample.color[3];
            if channel_within(pixels[index], sample.color[0], alpha) && channel_within(
                pixels[index + 1],
                sample.color[1],
                alpha,
            ) && channel_within(pixels[index + 2], sample.color[2], alpha) {
                matched = matched + 1;
            }
        }
        i = i + 1;
    }
    matched
}

/// Sweeps every `step`-th position, scoring with `samples`, and returns the
/// first one that scores best, with its score.
pub fn best_position(frame: &Frame, samples: &Vec<Sample>, window: &Frame, step: u32) -> (best:
    Option<(i64, i64, usize)>)
    requires
        step > 0,
    ensures
        match best {
            Some(best) => swept(window, frame, spots_of(samples@), step) == Some(
                (best.0 as int, best.1 as int, best.2 as int),
            ) && 0 <= best.0 <= u32::MAX && 0 <= best.1 <= u32::MAX,
            None => swept(window, frame, spots_of(samples@), step) is None,
        },
{
    let ghost spots = spots_of(samples@);
    let (whole, own) = (frame.size(), window.size());
    if own.width > whole.width || own.height > whole.height {
        return None;
    }
    let cols: u64 = (whole.width - own.width) as u64 / step as u64 + 1;
    let rows: u64 = (whole.height - own.height) as u64 / step as u64 + 1;
    let ghost scores = sweep_scores(window, frame, spots, step);
    let mut best: (i64, i64, usize) = (0, 0, 0);
    let ghost mut winner: int = 0;
    let mut row: u64 = 0;
    proof {
        lemma_node(0, 0, cols as int, step as int);
    }
    while row < rows
        invariant
            spots == spots_of(samples@),
            scores == sweep_scores(window, frame, spots, step),
            step > 0,
            whole == frame.dim(),
            own == window.dim(),
            own.width <= whole.width,
            own.height <= whole.height,
            cols == sweep_length(whole.width, own.width, step),
            rows == sweep_length(whole.height, own.height, step),
            0 < cols,
            row <= rows,
            winner == best_index(scores, row * cols),
            node(winner, cols as int, step as int) == (best.0 as int, best.1 as int),
            row > 0 ==> best.2 == scores(winner),
            0 <= best.0 <= u32::MAX,
            0 <= best.1 <= u32::MAX,
        decreases rows - row,
    {
        let mut col: u64 = 0;
        proof {
            lemma_ticks(whole.height - own.height + 1, step as int, row as int);
            assert(0 <= row * step) by (nonlinear_arith);
        }
        let y: u64 = row * step as u64;
        while col < cols
            invariant
                spots == spots_of(samples@),
                scores == sweep_scores(window, frame, spots, step),
                step > 0,
                whole == frame.dim(),
                own == window.dim(),
                own.width <= whole.width,
                cols == sweep_length(whole.width, own.width, step),
                0 < cols,
                row < rows <= u64::MAX,
                y == row * step,
                y <= u32::MAX,
                col <= cols,
                winner == best_index(scores, row * cols + col),
                node(winner, cols as int, step as int) == (best.0 as int, best.1 as int),
                row > 0 || col > 0 ==> best.2 == scores(winner),
                0 <= best.0 <= u32::MAX,
                0 <= best.1 <= u32::MAX,
            decreases cols - col,
        {
            proof {
                lemma_ticks(whole.width - own.width + 1, step as int, col as int);
                lemma_node(row as int, col as int, cols as int, step as int);
                assert(0 <= col * step) by (nonlinear_arith);
            }
            let x: u64 = col * step as u64;
            let (left, top): (i64, i64) = (x as i64, y as i64);
            let matched: usize = matches_at(frame, samples, left, top);
            assert(matched == scores(row * cols + col));
            if row == 0 && col == 0 || matched > best.2 {
                best = (left, top, matched);
                proof {
                    winner = row * cols + col;
                }
            }
            proof {
                if row > 0 {
                    assert(row * cols >= cols) by (nonlinear_arith)
                        requires
                            row >= 1,
                            cols >= 0,
                    ;
                } else {
                    assert(row * cols == 0) by (nonlinear_arith)
                        requires
                            row == 0,
                    ;
                }
            }
            col = col + 1;
        }
        proof {
            assert((row + 1) * cols == row * cols + cols) by (nonlinear_arith);
        }
        row = row + 1;
    }
    proof {
        assert(rows * cols == cols * rows) by (nonlinear_arith);
    }
    Some(best)
}

/// The first of the positions around `(coarse_x, coarse_y)` that scores best,
/// with its score.
fn refine_position(
    frame: &Frame,
    samples: &Vec<Sample>,
    window: &Frame,
    coarse_x: i64,
    coarse_y: i64,
) -> (best: (i64, i64, usize))
    requires
        samples_of(window, samples@, sample_positions(window, REFINE_SAMPLES)),
        0 <= coarse_x <= u32::MAX,
        0 <= coarse_y <= u32::MAX,
    ensures
        ({
            let scores = fine_scores(window, frame, coarse_x as int, coarse_y as int);
            let at = best_index(scores, refinements());
            &&& around(coarse_x as int, coarse_y as int, at) == (best.0 as int, best.1 as int)
            &&& best.2 == scores(at)
            &&& best.0 >= 0
            &&& best.1 >= 0
        }),
{
    let side: i64 = 2 * REFINE_RADIUS + 1;
    proof {
        lemma_spots(window, samples@, sample_positions(window, REFINE_SAMPLES));
    }
    let ghost scores = fine_scores(window, frame, coarse_x as int, coarse_y as int);
    let mut best: Option<(i64, i64, usize)> = None;
    let mut n: i64 = 0;
    while n < side * side
        invariant
            spots_of(samples@) == spots_at(window, sample_positions(window, REFINE_SAMPLES)),
            scores == fine_scores(window, frame, coarse_x as int, coarse_y as int),
            0 <= coarse_x <= u32::MAX,
            0 <= coarse_y <= u32::MAX,
            side == 9,
            0 <= n <= 81,
            n > 40 ==> best is Some,
            match best {
                Some(found) => {
                    let winner = best_index(scores, n as int);
                    &&& n > 0
                    &&& around(coarse_x as int, coarse_y as int, winner) == (
                        found.0 as int,
                        found.1 as int,
                    )
                    &&& found.2 == scores(winner)
                    &&& found.0 >= 0
                    &&& found.1 >= 0
                },
                None => n > 0 ==> scores(best_index(scores, n as int)) == -1,
            },
        decreases 81 - n,
    {
        let x: i64 = coarse_x + n % side - REFINE_RADIUS;
        let y: i64 = coarse_y + n / side - REFINE_RADIUS;
        assert(around(coarse_x as int, coarse_y as int, n as int) == (x as int, y as int));
        if x >= 0 && y >= 0 {
            let matched: usize = matches_at(frame, samples, x, y);
            assert(matched == scores(n as int));
            match best {
                Some(found) => {
                    if matched > found.2 {
                        best = Some((x, y, matched));
                    }
                },
                None => {
                    best = Some((x, y, matched));
                },
            }
        } else {
            assert(scores(n as int) == -1);
        }
        n = n + 1;
    }
    match best {
        Some(found) => found,
        None => (0, 0, 0),
    }
}

/// The rectangle on `frame` where `window`'s render sits, or `None` when no
/// position matches well enough to be trusted.
///
/// The coarse pass only narrows: its samples are sharp, so a grid point two
/// pixels off the truth scores far below it.  The verdict is the refinement's,
/// at full resolution.
pub fn locate_window(window: &Frame, frame: &Frame) -> (rect: Option<Rect>)
    ensures
        rect == located(window, frame),
{
    let own = window.size();
    let whole = frame.size();
    if own.width == 0 || own.height == 0 || own.width > whole.width || own.height > whole.height {
        return None;
    }
    let coarse = collect_structure_samples(window, COARSE_SAMPLES);
    if coarse.len() < MIN_SAMPLES {
        return None;
    }
    proof {
        lemma_spots(window, coarse@, sample_positions(window, COARSE_SAMPLES));
    }
    let (coarse_x, coarse_y, coarse_matched) = match best_position(
        frame,
        &coarse,
        window,
        COARSE_STEP,
    ) {
        Some(best) => best,
        None => {
            return None;
        },
    };
    if coarse_matched == 0 {
        return None;
    }
    let refine = collect_structure_samples(window, REFINE_SAMPLES);
    let (x, y, matched) = refine_position(frame, &refine, window, coarse_x, coarse_y);
    if (matched as u128) * 5 < refine.len() as u128 * 3 {
        return None;
    }
    if x > i32::MAX as i64 || y > i32::MAX as i64 {
        return None;
    }
    Some(Rect::new(x as i32, y as i32, own.width, own.height))
}

/// Whether `window`'s render sits at `(origin_x, origin_y)` on `frame`, by the
/// same test [`locate_window`] judges a searched position with.
///
/// The share is taken over the samples that fall inside `frame`, so a window
/// hanging off the edge is judged on the part that is there.  `None` means
/// that the position cannot be checked, which is not agreement.
pub fn matches_at_position(
    window: &Frame,
    frame: &Frame,
    origin_x: i32,
    origin_y: i32,
) -> (verdict: Option<bool>)
    ensures
        verdict == position_verdict(window, frame, origin_x as int, origin_y as int),
{
    let own = window.size();
    if own.width == 0 || own.height == 0 {
        return None;
    }
    let samples = collect_structure_samples(window, REFINE_SAMPLES);
    let ghost at = sample_positions(window, REFINE_SAMPLES);
    if samples.len() < MIN_SAMPLES {
        return None;
    }
    let whole = frame.size();
    let mut in_frame: usize = 0;
    let mut i: usize = 0;
    while i < samples.len()
        invariant
            whole == frame.dim(),
            samples_of(window, samples@, at),
            i <= samples.len(),
            in_frame <= i,
            in_frame == covered(frame, at, origin_x as int, origin_y as int, i as int),
        decreases samples.len() - i,
    {
        let x: i64 = origin_x as i64 + samples[i].x as i64;
        let y: i64 = origin_y as i64 + samples[i].y as i64;
        assert(samples@[i as int].x == at[i as int].0);
        if x >= 0 && y >= 0 && x < whole.width as i64 && y < whole.height as i64 {
            in_frame = in_frame + 1;
        }
        i = i + 1;
    }
    if in_frame < MIN_SAMPLES {
        return None;
    }
    proof {
        lemma_spots(window, samples@, at);
    }
    let matched: usize = matches_at(frame, &samples, origin_x as i64, origin_y as i64);
    Some(matched as u128 * 5 >= in_frame as u128 * 3)
}

/// Whether two renders of one window show the same picture: the same size, and
/// the same colour on every sampled opaque pixel.
///
/// A window whose own pixels moved on between two renders is worth another
/// try; a render that is current but cannot be placed is a dead end.  When
/// nothing can be sampled, the sizes agreeing is all there is to say.
pub fn renders_agree(a: &Frame, b: &Frame) -> (agree: bool)
    ensures
        agree == same_picture(a, b),
{
    let size = a.size();
    let other = b.size();
    if size.width != other.width || size.height != other.height {
        return false;
    }
    let samples = collect_samples(a, REFINE_SAMPLES);
    let ghost at = grid_positions(a, REFINE_SAMPLES);
    if samples.len() < MIN_SAMPLES {
        return true;
    }
    proof {
        let stride = grid_stride(a.dim().pixels() as int, at_least_one(REFINE_SAMPLES));
        lemma_grid_stride_exists(a.dim().pixels() as int, at_least_one(REFINE_SAMPLES));
        lemma_ticks(a.dim().width as int, stride, 0);
        lemma_ticks(a.dim().height as int, stride, 0);
        let (cols, rows) = (
            ticks(a.dim().width as int, stride),
            ticks(a.dim().height as int, stride),
        );
        assert(cols * rows >= 0) by (nonlinear_arith)
            requires
                cols >= 0,
                rows >= 0,
        ;
        lemma_grid_inside(a, stride, cols * rows);
    }
    let mut i: usize = 0;
    while i < samples.len()
        invariant
            size == a.dim(),
            a.dim() == b.dim(),
            at == grid_positions(a, REFINE_SAMPLES),
            samples.len() >= MIN_SAMPLES,
            samples_of(a, samples@, at),
            forall|j: int|
                0 <= j < at.len() ==> 0 <= (#[trigger] at[j]).0 < size.width && 0 <= at[j].1
                    < size.height,
            i <= samples.len(),
            forall|j: int|
                0 <= j < i ==> (#[trigger] b.rgba(at[j].0, at[j].1)) == a.rgba(at[j].0, at[j].1),
        decreases samples.len() - i,
    {
        let sample = &samples[i];
        assert(samples@[i as int].x == at[i as int].0);
        assert(0 <= at[i as int].0 < size.width);
        let shown = sample_at(b, sample.x, sample.y);
        if !(shown.color[0] == sample.color[0] && shown.color[1] == sample.color[1]
            && shown.color[2] == sample.color[2] && shown.color[3] == sample.color[3]) {
            proof {
                let ghost_at = at[i as int];
                if b.rgba(ghost_at.0, ghost_at.1) == a.rgba(ghost_at.0, ghost_at.1) {
                    assert(shown.color@ == sample.color@);
                    assert(false);
                }
            }
            return false;
        }
        assert(shown.color@ =~= sample.color@);
        i = i + 1;
    }
    true
}

/// Some stride is long enough, so there is a least one.
proof fn lemma_grid_stride_exists(area: int, target: int)
    requires
        area >= 0,
        target >= 1,
    ensures
        is_grid_stride(area, target, grid_stride(area, target)),
{
    lemma_least_stride(area, target, 2);
}

proof fn lemma_least_stride(area: int, target: int, from: int)
    requires
        area >= 0,
        target >= 1,
        from >= 2,
        from > 2 ==> (from - 1) * (from - 1) * target < area,
    ensures
        exists|stride: int| is_grid_stride(area, target, stride),
    decreases area + 2 - from,
{
    if from * from * target >= area {
        assert(is_grid_stride(area, target, from));
    } else {
        lemma_square_grows(0, from, target);
        lemma_least_stride(area, target, from + 1);
    }
}

/// The best candidate scores at least as much as any other, and more than
/// every one before it: of equals the first wins.
pub proof fn law_best_is_the_first_of_the_highest(scores: spec_fn(int) -> int, n: int, i: int)
    requires
        n >= 1,
        0 <= i < n,
    ensures
        0 <= best_index(scores, n) < n,
        scores(i) <= scores(best_index(scores, n)),
        i < best_index(scores, n) ==> scores(i) < scores(best_index(scores, n)),
    decreases n,
{
    if n > 1 {
        law_best_is_the_first_of_the_highest(scores, n - 1, if i < n - 1 {
            i
        } else {
            0
        });
    }
}

/// A sweep settles on the best of all positions it tries: multiples of `step`
/// where the window lies inside the frame. None scores higher, and every one
/// before it, row by row, scores lower.
pub proof fn law_a_sweep_finds_the_first_of_the_best(
    window: &Frame,
    frame: &Frame,
    spots: Seq<Spot>,
    step: u32,
    x: int,
    y: int,
)
    requires
        step > 0,
        0 <= x <= frame.dim().width - window.dim().width,
        0 <= y <= frame.dim().height - window.dim().height,
        x % (step as int) == 0,
        y % (step as int) == 0,
    ensures
        swept(window, frame, spots, step) matches Some((best_x, best_y, matched)) && {
            &&& 0 <= best_x <= frame.dim().width - window.dim().width
            &&& 0 <= best_y <= frame.dim().height - window.dim().height
            &&& best_x % (step as int) == 0
            &&& best_y % (step as int) == 0
            &&& matched == score(frame, spots, best_x, best_y)
            &&& score(frame, spots, x, y) <= matched
            &&& y < best_y || y == best_y && x < best_x ==> score(frame, spots, x, y)
                < matched
        },
{
    let d = step as int;
    let (last_x, last_y) = (
        frame.dim().width - window.dim().width,
        frame.dim().height - window.dim().height,
    );
    let cols = sweep_length(frame.dim().width, window.dim().width, step);
    let rows = sweep_length(frame.dim().height, window.dim().height, step);
    let scores = sweep_scores(window, frame, spots, step);
    let (col, row) = (x / d, y / d);
    vstd::arithmetic::div_mod::lemma_fundamental_div_mod(x, d);
    vstd::arithmetic::div_mod::lemma_fundamental_div_mod(y, d);
    assert(col >= 0 && row >= 0 && col * d == x && row * d == y) by (nonlinear_arith)
        requires
            d > 0,
            x >= 0,
            y >= 0,
            col == x / d,
            row == y / d,
            x == d * (x / d),
            y == d * (y / d),
    ;
    lemma_ticks(last_x + 1, d, col);
    lemma_ticks(last_y + 1, d, row);
    lemma_node(row, col, cols, d);
    let tried = row * cols + col;
    assert(0 <= tried < cols * rows) by (nonlinear_arith)
        requires
            0 <= col < cols,
            0 <= row < rows,
            tried == row * cols + col,
    ;
    law_best_is_the_first_of_the_highest(scores, cols * rows, tried);
    let best = best_index(scores, cols * rows);
    let (q, r) = (best / cols, best % cols);
    vstd::arithmetic::div_mod::lemma_fundamental_div_mod(best, cols);
    assert(0 <= r < cols && 0 <= q < rows && best == q * cols + r) by (nonlinear_arith)
        requires
            0 < cols,
            0 <= best < cols * rows,
            q == best / cols,
            r == best % cols,
            best == cols * (best / cols) + best % cols,
    ;
    lemma_ticks(last_x + 1, d, r);
    lemma_ticks(last_y + 1, d, q);
    vstd::arithmetic::div_mod::lemma_mod_multiples_basic(r, d);
    vstd::arithmetic::div_mod::lemma_mod_multiples_basic(q, d);
    assert(0 <= r * d && 0 <= q * d) by (nonlinear_arith)
        requires
            0 <= r,
            0 <= q,
            d > 0,
    ;
    assert(row * d < q * d ==> row < q) by (nonlinear_arith)
        requires
            d > 0,
    ;
    assert(row * d == q * d ==> row == q) by (nonlinear_arith)
        requires
            d > 0,
    ;
    assert(col * d < r * d ==> col < r) by (nonlinear_arith)
        requires
            d > 0,
    ;
    assert(row < q ==> tried < best) by (nonlinear_arith)
        requires
            0 <= col < cols,
            0 <= r,
            tried == row * cols + col,
            best == q * cols + r,
    ;
}

/// A sweep tries nothing where the window is larger than the frame on an axis.
pub proof fn law_a_larger_window_is_not_swept(
    window: &Frame,
    frame: &Frame,
    spots: Seq<Spot>,
    step: u32,
)
    ensures
        swept(window, frame, spots, step) is None <==> window.dim().width > frame.dim().width
            || window.dim().height > frame.dim().height,
{
}

/// A window is located at its own size, never left of or above the frame, and
/// at most as far past its right and bottom edges as the refinement reaches.
pub proof fn law_located_rectangle_has_the_windows_size(window: &Frame, frame: &Frame)
    ensures
        located(window, frame) matches Some(rect) ==> {
            &&& rect.size == window.dim()
            &&& 0 <= rect.origin.x <= frame.dim().width - window.dim().width + REFINE_RADIUS
            &&& 0 <= rect.origin.y <= frame.dim().height - window.dim().height + REFINE_RADIUS
            &&& rect.size.width <= frame.dim().width
            &&& rect.size.height <= frame.dim().height
        },
{
    if located(window, frame) is Some {
        let spots = spots_at(window, sample_positions(window, COARSE_SAMPLES));
        assert(0int % (COARSE_STEP as int) == 0);
        law_a_sweep_finds_the_first_of_the_best(window, frame, spots, COARSE_STEP, 0, 0);
        let (x, y, _) = swept(window, frame, spots, COARSE_STEP)->Some_0;
        let scores = fine_scores(window, frame, x, y);
        assert(refinements() == 81) by (nonlinear_arith);
        law_best_is_the_first_of_the_highest(scores, refinements(), 40);
        lemma_agreeing_bounds(
            frame,
            spots_at(window, sample_positions(window, REFINE_SAMPLES)),
            x,
            y,
            sample_positions(window, REFINE_SAMPLES).len() as int,
        );
        let side = 2 * REFINE_RADIUS + 1;
        assert(side == 9 && 40int % side == 4 && 40int / side == 4);
        assert(around(x, y, 40) == (x, y));
        assert(scores(40) >= 0);
        let fine = best_index(scores, refinements());
        assert(0 <= fine % 9 <= 8 && fine / 9 <= 8) by (nonlinear_arith)
            requires
                0 <= fine < 81,
        ;
        assert(around(x, y, fine) == (
            x + fine % 9 - REFINE_RADIUS,
            y + fine / 9 - REFINE_RADIUS,
        ));
    }
}

proof fn lemma_agreeing_bounds(
    frame: &Frame,
    spots: Seq<Spot>,
    origin_x: int,
    origin_y: int,
    n: int,
)
    requires
        n >= 0,
    ensures
        0 <= agreeing(frame, spots, origin_x, origin_y, n) <= n,
    decreases n,
{
    if n > 0 {
        lemma_agreeing_bounds(frame, spots, origin_x, origin_y, n - 1);
    }
}

/// A window is located only where the frame bears it out: enough of the window
/// is opaque to be compared, and three samples in five agree at the place found.
pub proof fn law_a_located_window_agrees_with_the_frame(window: &Frame, frame: &Frame)
    ensures
        sample_positions(window, COARSE_SAMPLES).len() < MIN_SAMPLES ==> located(window, frame)
            is None,
        located(window, frame) matches Some(rect) ==> trusted(
            score(
                frame,
                spots_at(window, sample_positions(window, REFINE_SAMPLES)),
                rect.origin.x as int,
                rect.origin.y as int,
            ),
            sample_positions(window, REFINE_SAMPLES).len() as int,
        ),
{
    law_located_rectangle_has_the_windows_size(window, frame);
}

/// A render agrees with itself, and with nothing of another size.
pub proof fn law_a_render_agrees_with_itself(a: &Frame, b: &Frame)
    ensures
        same_picture(a, a),
        a.dim() != b.dim() ==> !same_picture(a, b),
{
}

/// A sampled pixel agrees with the frame exactly where the frame has it and
/// shows on every colour channel no less than the render's own share and no
/// more than what the background behind it can add, give or take twenty-four.
pub proof fn law_a_pixel_agrees_with_what_lies_behind_it(
    frame: &Frame,
    spot: Spot,
    origin_x: int,
    origin_y: int,
)
    ensures
        spot_agrees(frame, spot, origin_x, origin_y) <==> {
            let (x, y) = (origin_x + spot.x, origin_y + spot.y);
            &&& 0 <= x < frame.dim().width
            &&& 0 <= y < frame.dim().height
            &&& forall|c: int|
                0 <= c < 3 ==> spot.color[c] <= #[trigger] frame.channel(x, y, c) <= spot.color[c]
                    + (255 - spot.color[3]) + 24
        },
{
    let (x, y) = (origin_x + spot.x, origin_y + spot.y);
    if spot_agrees(frame, spot, origin_x, origin_y) {
        assert forall|c: int| 0 <= c < 3 implies spot.color[c] <= #[trigger] frame.channel(x, y, c)
            <= spot.color[c] + (255 - spot.color[3]) + 24 by {
            assert(c == 0 || c == 1 || c == 2);
        }
    }
    if forall|c: int|
        0 <= c < 3 ==> spot.color[c] <= #[trigger] frame.channel(x, y, c) <= spot.color[c] + (255
            - spot.color[3]) + 24 {
        assert(frame.channel(x, y, 0) >= spot.color[0]);
        assert(frame.channel(x, y, 1) >= spot.color[1]);
        assert(frame.channel(x, y, 2) >= spot.color[2]);
    }
}

/// A score counts the pixels that agree: each one more counts exactly when it
/// does, all of them together when all do, and none when none does.
pub proof fn law_a_score_counts_the_pixels_that_agree(
    frame: &Frame,
    spots: Seq<Spot>,
    spot: Spot,
    origin_x: int,
    origin_y: int,
)
    ensures
        score(frame, spots.push(spot), origin_x, origin_y) == score(
            frame,
            spots,
            origin_x,
            origin_y,
        ) + if spot_agrees(frame, spot, origin_x, origin_y) {
            1int
        } else {
            0
        },
        score(frame, Seq::empty(), origin_x, origin_y) == 0,
        0 <= score(frame, spots, origin_x, origin_y) <= spots.len(),
        (forall|i: int|
            0 <= i < spots.len() ==> spot_agrees(frame, #[trigger] spots[i], origin_x, origin_y))
            ==> score(frame, spots, origin_x, origin_y) == spots.len(),
        (forall|i: int|
            0 <= i < spots.len() ==> !spot_agrees(frame, #[trigger] spots[i], origin_x, origin_y))
            ==> score(frame, spots, origin_x, origin_y) == 0,
{
    let n = spots.len() as int;
    lemma_agreeing_bounds(frame, spots, origin_x, origin_y, n);
    lemma_agreeing_prefix(frame, spots, spots.push(spot), origin_x, origin_y, n);
    if forall|i: int|
        0 <= i < spots.len() ==> spot_agrees(frame, #[trigger] spots[i], origin_x, origin_y) {
        lemma_agreeing_all(frame, spots, origin_x, origin_y, n, true);
    }
    if forall|i: int|
        0 <= i < spots.len() ==> !spot_agrees(frame, #[trigger] spots[i], origin_x, origin_y) {
        lemma_agreeing_all(frame, spots, origin_x, origin_y, n, false);
    }
}

proof fn lemma_agreeing_prefix(
    frame: &Frame,
    a: Seq<Spot>,
    b: Seq<Spot>,
    origin_x: int,
    origin_y: int,
    n: int,
)
    requires
        n <= a.len() <= b.len(),
        forall|i: int| 0 <= i < a.len() ==> #[trigger] a[i] == b[i],
    ensures
        agreeing(frame, a, origin_x, origin_y, n) == agreeing(frame, b, origin_x, origin_y, n),
    decreases n,
{
    if n > 0 {
        assert(a[n - 1] == b[n - 1]);
        lemma_agreeing_prefix(frame, a, b, origin_x, origin_y, n - 1);
    }
}

proof fn lemma_agreeing_all(
    frame: &Frame,
    spots: Seq<Spot>,
    origin_x: int,
    origin_y: int,
    n: int,
    agrees: bool,
)
    requires
        0 <= n <= spots.len(),
        forall|i: int|
            0 <= i < spots.len() ==> spot_agrees(frame, #[trigger] spots[i], origin_x, origin_y)
                == agrees,
    ensures
        agreeing(frame, spots, origin_x, origin_y, n) == if agrees {
            n
        } else {
            0
        },
    decreases n,
{
    if n > 0 {
        assert(spot_agrees(frame, spots[n - 1], origin_x, origin_y) == agrees);
        lemma_agreeing_all(frame, spots, origin_x, origin_y, n - 1, agrees);
    }
}

/// The pixel stands out from a neighbour: on some colour channel they are more
/// than eight apart.
pub open spec fn stands_out(frame: &Frame, x: int, y: int) -> bool {
    exists|nx: int, ny: int, c: int|
        {
            &&& nx == x && (ny == y - 1 || ny == y + 1) || ny == y && (nx == x - 1 || nx == x + 1)
            &&& 0 <= nx < frame.dim().width
            &&& 0 <= ny < frame.dim().height
            &&& 0 <= c < 3
            &&& (#[trigger] frame.channel(nx, ny, c)) - frame.channel(x, y, c) > 8
                || frame.channel(x, y, c) - frame.channel(nx, ny, c) > 8
        }
}

proof fn lemma_stands_out(frame: &Frame, x: int, y: int)
    requires
        0 <= x < frame.dim().width,
        0 <= y < frame.dim().height,
    ensures
        structured_at(frame, x, y) <==> stands_out(frame, x, y),
{
    if stands_out(frame, x, y) {
        let (nx, ny, c) = choose|nx: int, ny: int, c: int|
            {
                &&& nx == x && (ny == y - 1 || ny == y + 1) || ny == y && (nx == x - 1 || nx == x
                    + 1)
                &&& 0 <= nx < frame.dim().width
                &&& 0 <= ny < frame.dim().height
                &&& 0 <= c < 3
                &&& (#[trigger] frame.channel(nx, ny, c)) - frame.channel(x, y, c) > 8
                    || frame.channel(x, y, c) - frame.channel(nx, ny, c) > 8
            };
        assert(c == 0 || c == 1 || c == 2);
        assert(differs(frame, x, y, nx, ny));
    }
    if structured_at(frame, x, y) {
        lemma_difference(frame, x, y, x - 1, y);
        lemma_difference(frame, x, y, x + 1, y);
        lemma_difference(frame, x, y, x, y - 1);
        lemma_difference(frame, x, y, x, y + 1);
    }
}

proof fn lemma_difference(frame: &Frame, x: int, y: int, nx: int, ny: int)
    requires
        nx == x && (ny == y - 1 || ny == y + 1) || ny == y && (nx == x - 1 || nx == x + 1),
    ensures
        0 <= nx < frame.dim().width && 0 <= ny < frame.dim().height && differs(frame, x, y, nx, ny)
            ==> stands_out(frame, x, y),
{
    if far_apart(frame.channel(x, y, 0), frame.channel(nx, ny, 0)) {
        assert(frame.channel(nx, ny, 0) - frame.channel(x, y, 0) > 8 || frame.channel(x, y, 0)
            - frame.channel(nx, ny, 0) > 8);
    } else if far_apart(frame.channel(x, y, 1), frame.channel(nx, ny, 1)) {
        assert(frame.channel(nx, ny, 1) - frame.channel(x, y, 1) > 8 || frame.channel(x, y, 1)
            - frame.channel(nx, ny, 1) > 8);
    } else if far_apart(frame.channel(x, y, 2), frame.channel(nx, ny, 2)) {
        assert(frame.channel(nx, ny, 2) - frame.channel(x, y, 2) > 8 || frame.channel(x, y, 2)
            - frame.channel(nx, ny, 2) > 8);
    }
}

/// The structure of a render is every pixel of it that is opaque enough and
/// stands out from a neighbour, and no other.
pub proof fn law_structure_is_what_stands_out(frame: &Frame, x: int, y: int)
    requires
        0 <= x < frame.dim().width,
        0 <= y < frame.dim().height,
    ensures
        structured_pixels(frame, frame.dim().pixels() as int).contains((x, y)) <==> frame.channel(
            x,
            y,
            3,
        ) >= 150 && stands_out(frame, x, y),
{
    let (w, h) = (frame.dim().width as int, frame.dim().height as int);
    lemma_stands_out(frame, x, y);
    lemma_node(y, x, w, 1);
    let k = y * w + x;
    assert(k < w * h) by (nonlinear_arith)
        requires
            0 <= x < w,
            0 <= y,
            y + 1 <= h,
            k == y * w + x,
    ;
    assert(x * 1 == x && y * 1 == y);
    lemma_structured_exactly(frame, w * h, k);
}

proof fn lemma_structured_exactly(frame: &Frame, n: int, k: int)
    requires
        0 <= n <= frame.dim().pixels(),
        0 <= k,
        frame.dim().width > 0,
    ensures
        ({
            let (x, y) = node(k, frame.dim().width as int, 1);
            structured_pixels(frame, n).contains((x, y)) <==> k < n && opaque_at(frame, x, y)
                && structured_at(frame, x, y)
        }),
    decreases n,
{
    let w = frame.dim().width as int;
    let (x, y) = node(k, w, 1);
    if n > 0 {
        lemma_structured_exactly(frame, n - 1, k);
        let before = structured_pixels(frame, n - 1);
        let now = structured_pixels(frame, n);
        let last = node(n - 1, w, 1);
        if last == (x, y) {
            vstd::arithmetic::div_mod::lemma_fundamental_div_mod(n - 1, w);
            vstd::arithmetic::div_mod::lemma_fundamental_div_mod(k, w);
            assert(n - 1 == k);
        }
        if opaque_at(frame, last.0, last.1) && structured_at(frame, last.0, last.1) {
            assert(now == before.push(last));
            if before.contains((x, y)) {
                let i = choose|i: int| 0 <= i < before.len() && before[i] == (x, y);
                assert(now[i] == (x, y));
            }
            assert(now[now.len() - 1] == last);
            if now.contains((x, y)) {
                let i = choose|i: int| 0 <= i < now.len() && now[i] == (x, y);
                if i < before.len() {
                    assert(before[i] == (x, y));
                }
            }
        }
    }
}

/// The grid over a render holds every node that is opaque enough, and nothing
/// else: its nodes are a stride apart both ways, and the stride is the least of
/// two or more that lays no more nodes than were asked for over so many pixels.
pub proof fn law_the_grid_holds_every_opaque_node(frame: &Frame, target: usize, x: int, y: int)
    requires
        0 <= x < frame.dim().width,
        0 <= y < frame.dim().height,
        target >= 1,
    ensures
        ({
            let area = frame.dim().width * frame.dim().height;
            let stride = grid_stride(area, target as int);
            &&& stride >= 2
            &&& stride * stride * target >= area
            &&& stride > 2 ==> (stride - 1) * (stride - 1) * target < area
            &&& grid_positions(frame, target).contains((x, y)) <==> x % stride == 0 && y % stride
                == 0 && frame.channel(x, y, 3) >= 150
        }),
{
    let (w, h) = (frame.dim().width as int, frame.dim().height as int);
    let area = w * h;
    assert(area >= 0) by (nonlinear_arith)
        requires
            w >= 0,
            h >= 0,
            area == w * h,
    ;
    lemma_grid_stride_exists(area, target as int);
    let stride = grid_stride(area, target as int);
    let (cols, rows) = (ticks(w, stride), ticks(h, stride));
    let (col, row) = (x / stride, y / stride);
    vstd::arithmetic::div_mod::lemma_fundamental_div_mod(x, stride);
    vstd::arithmetic::div_mod::lemma_fundamental_div_mod(y, stride);
    assert(col * stride == stride * col && row * stride == stride * row) by (nonlinear_arith);
    assert(col >= 0 && row >= 0) by (nonlinear_arith)
        requires
            col == x / stride,
            row == y / stride,
            x >= 0,
            y >= 0,
            stride >= 2,
    ;
    lemma_ticks(w, stride, col);
    lemma_ticks(h, stride, row);
    lemma_node(row, col, cols, stride);
    let k = row * cols + col;
    assert(k < cols * rows) by (nonlinear_arith)
        requires
            0 <= col < cols,
            0 <= row,
            row + 1 <= rows,
            k == row * cols + col,
    ;
    lemma_nodes_exactly(frame, stride, cols * rows, x, y, k);
}

proof fn lemma_nodes_exactly(frame: &Frame, stride: int, n: int, x: int, y: int, k: int)
    requires
        stride >= 1,
        0 <= k,
        0 <= x,
        0 <= y,
        ticks(frame.dim().width as int, stride) > 0,
        k == (y / stride) * ticks(frame.dim().width as int, stride) + x / stride,
        x / stride < ticks(frame.dim().width as int, stride),
    ensures
        opaque_nodes(frame, stride, n).contains((x, y)) <==> k < n && x % stride == 0 && y % stride
            == 0 && opaque_at(frame, x, y),
    decreases n,
{
    let cols = ticks(frame.dim().width as int, stride);
    if n > 0 {
        lemma_nodes_exactly(frame, stride, n - 1, x, y, k);
        let before = opaque_nodes(frame, stride, n - 1);
        let now = opaque_nodes(frame, stride, n);
        let last = node(n - 1, cols, stride);
        vstd::arithmetic::div_mod::lemma_fundamental_div_mod(x, stride);
        vstd::arithmetic::div_mod::lemma_fundamental_div_mod(y, stride);
        vstd::arithmetic::div_mod::lemma_fundamental_div_mod(n - 1, cols);
        let (q, r) = ((n - 1) / cols, (n - 1) % cols);
        assert(q >= 0 && 0 <= r < cols) by (nonlinear_arith)
            requires
                q == (n - 1) / cols,
                r == (n - 1) % cols,
                n >= 1,
                cols > 0,
        ;
        assert(stride * (x / stride) == (x / stride) * stride && stride * (y / stride) == (y
            / stride) * stride && cols * q == q * cols) by (nonlinear_arith);
        if last == (x, y) {
            vstd::arithmetic::div_mod::lemma_fundamental_div_mod_converse(x, stride, r, 0);
            vstd::arithmetic::div_mod::lemma_fundamental_div_mod_converse(y, stride, q, 0);
            assert(n - 1 == k);
        }
        if n - 1 == k {
            vstd::arithmetic::div_mod::lemma_fundamental_div_mod_converse(
                n - 1,
                cols,
                y / stride,
                x / stride,
            );
            assert(last == ((x / stride) * stride, (y / stride) * stride));
        }
        if opaque_at(frame, last.0, last.1) {
            assert(now == before.push(last));
            if before.contains((x, y)) {
                let i = choose|i: int| 0 <= i < before.len() && before[i] == (x, y);
                assert(now[i] == (x, y));
            }
            assert(now[now.len() - 1] == last);
            if now.contains((x, y)) {
                let i = choose|i: int| 0 <= i < now.len() && now[i] == (x, y);
                if i < before.len() {
                    assert(before[i] == (x, y));
                }
            }
        }
    }
}

/// A render is sampled where it has structure, at every so many of its
/// structured pixels, as long as those are sixty-four at least; else on the
/// grid.
pub proof fn law_a_render_is_sampled_at_its_structure(frame: &Frame, target: usize, i: int)
    requires
        0 <= i < sample_positions(frame, target).len(),
        target >= 1,
    ensures
        ({
            let all = structured_pixels(frame, frame.dim().pixels() as int);
            let kept = every(all, thinning(all.len() as int, 1));
            &&& kept.len() < 64 ==> sample_positions(frame, target) == grid_positions(frame, target)
            &&& kept.len() >= 64 ==> all.contains(sample_positions(frame, target)[i])
            &&& all.len() < 16384 ==> kept == all
        }),
{
    let all = structured_pixels(frame, frame.dim().pixels() as int);
    let step = thinning(all.len() as int, 1);
    let kept = every(all, step);
    lemma_ticks(all.len() as int, 1, all.len() as int);
    lemma_ticks(all.len() as int, 1, 0);
    lemma_thinning_extends(all.len() as int, 1);
    if all.len() > 0 {
        lemma_ticks(all.len() as int, 1, all.len() - 1);
    }
    assert(ticks(all.len() as int, 1) == all.len());
    if all.len() < 16384 {
        assert(step == 1);
        assert forall|k: int| 0 <= k < all.len() implies #[trigger] every(all, 1)[k] == all[k] by {
            assert(k * 1 == k);
        }
        assert(kept =~= all);
    }
    if kept.len() >= 64 {
        let stride = ticks(kept.len() as int, target as int);
        lemma_ticks(kept.len() as int, target as int, 0);
        assert(stride > 0);
        lemma_ticks(kept.len() as int, stride, i);
        let j = i * stride;
        assert(j >= 0) by (nonlinear_arith)
            requires
                j == i * stride,
                i >= 0,
                stride > 0,
        ;
        lemma_ticks(all.len() as int, step, j);
        let k = j * step;
        assert(k >= 0) by (nonlinear_arith)
            requires
                k == j * step,
                j >= 0,
                step > 0,
        ;
        assert(sample_positions(frame, target)[i] == kept[j]);
        assert(kept[j] == all[k]);
    }
}

/// A stated place is judged only where sixty-four samples at least lie on the
/// frame; it is then right exactly where three in five of those agree.
pub proof fn law_a_stated_place_is_judged_by_the_samples_on_the_frame(
    window: &Frame,
    frame: &Frame,
    origin_x: int,
    origin_y: int,
)
    requires
        window.dim().width > 0,
        window.dim().height > 0,
    ensures
        ({
            let at = sample_positions(window, REFINE_SAMPLES);
            let on = covered(frame, at, origin_x, origin_y, at.len() as int);
            let agree = score(frame, spots_at(window, at), origin_x, origin_y);
            match position_verdict(window, frame, origin_x, origin_y) {
                Some(verdict) => on >= 64 && (verdict <==> 5 * agree >= 3 * on),
                None => on < 64 || at.len() < 64,
            }
        }),
{
}

/// The samples on the frame are counted one by one.
pub proof fn law_covered_samples_are_counted(
    frame: &Frame,
    at: Seq<(int, int)>,
    origin_x: int,
    origin_y: int,
    n: int,
)
    requires
        0 <= n < at.len(),
    ensures
        covered(frame, at, origin_x, origin_y, 0) == 0,
        covered(frame, at, origin_x, origin_y, n + 1) == covered(frame, at, origin_x, origin_y, n)
            + if 0 <= origin_x + at[n].0 < frame.dim().width && 0 <= origin_y + at[n].1
            < frame.dim().height {
            1int
        } else {
            0
        },
{
}

/// The place that is found scores at least as well as every place within four
/// pixels of where the sweep settled, as long as that is not left of or above
/// the frame, and three samples in five agree there.
pub proof fn law_the_place_found_is_the_best_around(
    window: &Frame,
    frame: &Frame,
    dx: int,
    dy: int,
)
    requires
        located(window, frame) is Some,
        -4 <= dx <= 4,
        -4 <= dy <= 4,
    ensures
        ({
            let coarse = spots_at(window, sample_positions(window, COARSE_SAMPLES));
            let fine = spots_at(window, sample_positions(window, REFINE_SAMPLES));
            let (x, y, _) = swept(window, frame, coarse, COARSE_STEP)->0;
            let at = located(window, frame)->0.origin;
            &&& -4 <= at.x - x <= 4
            &&& -4 <= at.y - y <= 4
            &&& x + dx >= 0 && y + dy >= 0 ==> score(frame, fine, x + dx, y + dy) <= score(
                frame,
                fine,
                at.x as int,
                at.y as int,
            )
            &&& 5 * score(frame, fine, at.x as int, at.y as int) >= 3 * sample_positions(
                window,
                REFINE_SAMPLES,
            ).len()
        }),
{
    law_located_rectangle_has_the_windows_size(window, frame);
    law_a_located_window_agrees_with_the_frame(window, frame);
    let coarse = spots_at(window, sample_positions(window, COARSE_SAMPLES));
    let (x, y, _) = swept(window, frame, coarse, COARSE_STEP)->0;
    let scores = fine_scores(window, frame, x, y);
    let tried = (dy + 4) * 9 + (dx + 4);
    assert(refinements() == 81) by (nonlinear_arith);
    let fine = best_index(scores, refinements());
    law_best_is_the_first_of_the_highest(scores, refinements(), tried);
    assert(tried % 9 == dx + 4 && tried / 9 == dy + 4);
    assert(around(x, y, tried) == (x + dx, y + dy));
    assert(0 <= fine % 9 <= 8 && 0 <= fine / 9 <= 8) by (nonlinear_arith)
        requires
            0 <= fine < 81,
    ;
    assert(around(x, y, fine) == (x + fine % 9 - 4, y + fine / 9 - 4));
}

/// A window is found where enough of it can be told: where it fits the frame,
/// has 64 samples, agrees anywhere on the coarse sweep, and at some place within
/// four pixels of the best of that agrees with three fifths of its samples.
pub proof fn law_a_window_that_agrees_is_found(window: &Frame, frame: &Frame, dx: int, dy: int)
    requires
        0 < window.dim().width <= frame.dim().width,
        0 < window.dim().height <= frame.dim().height,
        sample_positions(window, COARSE_SAMPLES).len() >= 64,
        -4 <= dx <= 4,
        -4 <= dy <= 4,
        ({
            let coarse = spots_at(window, sample_positions(window, COARSE_SAMPLES));
            let fine = sample_positions(window, REFINE_SAMPLES);
            let (x, y, agreeing) = swept(window, frame, coarse, COARSE_STEP)->0;
            &&& agreeing != 0
            &&& 0 <= x + dx && x <= i32::MAX - 4
            &&& 0 <= y + dy && y <= i32::MAX - 4
            &&& 5 * score(frame, spots_at(window, fine), x + dx, y + dy) >= 3 * fine.len()
        }),
    ensures
        located(window, frame) is Some,
{
    let coarse = spots_at(window, sample_positions(window, COARSE_SAMPLES));
    let (x, y, _) = swept(window, frame, coarse, COARSE_STEP)->0;
    let scores = fine_scores(window, frame, x, y);
    let tried = (dy + 4) * 9 + (dx + 4);
    assert(refinements() == 81) by (nonlinear_arith);
    let fine = best_index(scores, refinements());
    law_best_is_the_first_of_the_highest(scores, refinements(), tried);
    assert(tried % 9 == dx + 4 && tried / 9 == dy + 4);
    assert(around(x, y, tried) == (x + dx, y + dy));
    assert(0 <= fine % 9 <= 8 && 0 <= fine / 9 <= 8) by (nonlinear_arith)
        requires
            0 <= fine < 81,
    ;
    assert(around(x, y, fine) == (x + fine % 9 - 4, y + fine / 9 - 4));
}

} // verus!
