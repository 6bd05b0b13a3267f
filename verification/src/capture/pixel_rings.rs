//! Windows read off the border a compositor strokes around them.
//!
//! A border is a band a few device pixels wide, uniform along its length, with
//! a sharp change on both sides; that holds for a flat colour and for a
//! gradient alike, so the test is geometric.  Four such lines that close on
//! each other are a window, and a vivid stroke is the focused one.

use vstd::prelude::*;

use crate::geometry::{max_int, min_int, Point, Rect, Size};
use crate::sorting::{descending, law_descending_sorts, sort_descending};

use super::pixel_frame::{
    abs_diff, channel_delta, delta, lemma_index_in_picture, lemma_sides_bounded, saturation,
    vividness, AnalysisFrame, Picture, Rgba, MAX_ANALYSIS_PIXELS,
};
use super::pixel_outline::MAX_BORDER;
use super::window_blend::{lemma_ticks, ticks};

verus! {

/// Channel delta between neighbouring pixels that opens or closes a band.
pub const BAND_JUMP: i32 = 20;

/// A band's interior may wander by this share of the jumps that delimit it.
/// The share is relative because a border painted as a gradient drifts along
/// its own thickness.
pub const BAND_RAMP: i32 = 4;

/// Share of the output a band run must span to be a window edge.
pub const RING_LINE_MIN_PCT: u64 = 12;

/// Two edge candidates belong to the same window when they overlap this much.
pub const RING_OVERLAP_PCT: u64 = 60;

/// Smallest ring side, as a percent of the output.
pub const RING_MIN_DIM_PCT: u32 = 12;

/// Share of the ring's other dimension a side line has to span to close it: a
/// window's border runs the whole side, what sits inside it is shorter.
pub const RING_SIDE_PCT: u64 = 60;

/// Mean ring saturation that reads as the compositor's focused stroke.
pub const RING_VIVID: i32 = 48;

/// Pixels read per stroke when a ring's saturation is measured.
pub const SAMPLES_PER_STROKE: u32 = 64;

/// Rings kept per output.
pub const MAX_RINGS: usize = 32;

// ---------------------------------------------------------------------------
// Bands
// ---------------------------------------------------------------------------
/// The change from one pixel of a line to the next.
pub open spec fn jump(line: Seq<Rgba>, at: int) -> int {
    delta(line[at], line[at + 1])
}

/// How much the inside of a band may change that the two jumps delimit.
pub open spec fn band_limit(opening: int, closing: int) -> int {
    min_int(opening, closing) / (BAND_RAMP as int)
}

/// A band of `t` pixels that begins at `start` ends sharply and is calm
/// inside.
pub open spec fn band_closes(line: Seq<Rgba>, start: int, t: int) -> bool {
    let limit = band_limit(jump(line, start - 1), jump(line, start + t - 1));
    &&& start + t < line.len()
    &&& jump(line, start + t - 1) >= BAND_JUMP
    &&& forall|i: int| start <= i < start + t ==> delta(#[trigger] line[i], line[start]) <= limit
    &&& forall|i: int|
        start <= i < start + t - 1 ==> delta(#[trigger] line[i], line[i + 1]) <= limit
}

/// The least thickness, from `t` on, at which a band closes; 0 if there is
/// none up to the thickest.
pub open spec fn closing_thickness(line: Seq<Rgba>, start: int, t: int) -> int
    decreases MAX_BORDER + 1 - t,
{
    if t > MAX_BORDER {
        0
    } else if band_closes(line, start, t) {
        t
    } else {
        closing_thickness(line, start, t + 1)
    }
}

/// The thickness of the band that begins at `start`, 0 if none does.
pub open spec fn thickness_at(line: Seq<Rgba>, start: int) -> int {
    if jump(line, start - 1) < BAND_JUMP {
        0
    } else {
        closing_thickness(line, start, 1)
    }
}

/// What a walk along the line from `start` on marks at `at`: the thickness of
/// the band that begins there.  The walk continues behind a band it found.
pub open spec fn band_mark(line: Seq<Rgba>, start: int, at: int) -> int
    decreases line.len() - start,
{
    if start + 1 >= line.len() {
        0
    } else {
        let thickness = thickness_at(line, start);
        proof {
            lemma_closing_bounds(line, start, 1);
        }
        if thickness <= 0 {
            band_mark(line, start + 1, at)
        } else if at == start {
            thickness
        } else {
            band_mark(line, start + thickness, at)
        }
    }
}

pub open spec fn column(picture: Picture, x: int) -> Seq<Rgba> {
    Seq::new(picture.height as nat, |y: int| picture.at(x, y))
}

pub open spec fn row(picture: Picture, y: int) -> Seq<Rgba> {
    Seq::new(picture.width as nat, |x: int| picture.at(x, y))
}

/// The thickness of the band whose first row is `y` in column `x`, or whose
/// first column is `x` in row `y`.
pub open spec fn picture_mark(picture: Picture, horizontal: bool, x: int, y: int) -> int {
    if horizontal {
        band_mark(column(picture, x), 1, y)
    } else {
        band_mark(row(picture, y), 1, x)
    }
}

pub proof fn lemma_closing_bounds(line: Seq<Rgba>, start: int, t: int)
    requires
        1 <= t,
    ensures
        0 <= closing_thickness(line, start, t) <= MAX_BORDER,
        closing_thickness(line, start, t) > 0 ==> start + closing_thickness(line, start, t)
            < line.len(),
    decreases MAX_BORDER + 1 - t,
{
    if t <= MAX_BORDER && !band_closes(line, start, t) {
        lemma_closing_bounds(line, start, t + 1);
    }
}

/// A walk leaves what lies behind it unmarked, and its marks are no thicker
/// than a border and stay inside the line.
proof fn lemma_mark_bounds(line: Seq<Rgba>, start: int, at: int)
    requires
        start >= 1,
    ensures
        at < start ==> band_mark(line, start, at) == 0,
        0 <= band_mark(line, start, at) <= MAX_BORDER,
        band_mark(line, start, at) > 0 ==> at + band_mark(line, start, at) < line.len(),
    decreases line.len() - start,
{
    if start + 1 < line.len() {
        lemma_closing_bounds(line, start, 1);
        let thickness = thickness_at(line, start);
        if thickness <= 0 {
            lemma_mark_bounds(line, start + 1, at);
        } else {
            lemma_mark_bounds(line, start + thickness, at);
        }
    }
}

/// Whether a band of `t` pixels that begins at `start` closes.
fn closes_at(line: &Vec<Rgba>, start: usize, t: usize, opening: i32) -> (closes: bool)
    requires
        1 <= start,
        start + 1 < line@.len(),
        1 <= t <= MAX_BORDER,
        opening == jump(line@, start - 1),
        line@.len() <= MAX_ANALYSIS_PIXELS,
        opening >= 0,
    ensures
        closes == band_closes(line@, start as int, t as int),
{
    if start + t >= line.len() {
        return false;
    }
    let closing: i32 = channel_delta(line[start + t - 1], line[start + t]);
    if closing < BAND_JUMP {
        return false;
    }
    let smaller: i32 = if opening <= closing {
        opening
    } else {
        closing
    };
    let limit: i32 = smaller / BAND_RAMP;
    let mut i: usize = start;
    while i < start + t
        invariant
            1 <= start,
            start + t < line@.len(),
            line@.len() <= MAX_ANALYSIS_PIXELS,
            start <= i <= start + t,
            limit == band_limit(jump(line@, start - 1), jump(line@, start + t - 1)),
            jump(line@, start + t - 1) >= BAND_JUMP,
            forall|k: int| start <= k < i ==> delta(#[trigger] line@[k], line@[start as int]) <= limit,
            forall|k: int|
                start <= k < i && k < start + t - 1 ==> delta(#[trigger] line@[k], line@[k + 1])
                    <= limit,
        decreases start + t - i,
    {
        if channel_delta(line[i], line[start]) > limit {
            return false;
        }
        if i + 1 < start + t && channel_delta(line[i], line[i + 1]) > limit {
            return false;
        }
        i = i + 1;
    }
    true
}

/// The thickness of the band that begins at `start`, 0 if none does.
fn measure_band(line: &Vec<Rgba>, start: usize) -> (thickness: usize)
    requires
        1 <= start,
        start + 1 < line@.len(),
        line@.len() <= MAX_ANALYSIS_PIXELS,
    ensures
        thickness == thickness_at(line@, start as int),
        thickness <= MAX_BORDER,
        thickness > 0 ==> start + thickness < line@.len(),
{
    let opening: i32 = channel_delta(line[start - 1], line[start]);
    if opening < BAND_JUMP {
        return 0;
    }
    proof {
        lemma_closing_bounds(line@, start as int, 1);
    }
    let mut t: usize = 1;
    while t <= MAX_BORDER as usize
        invariant
            1 <= start,
            start + 1 < line@.len(),
            line@.len() <= MAX_ANALYSIS_PIXELS,
            opening == jump(line@, start - 1),
            opening >= BAND_JUMP,
            1 <= t <= MAX_BORDER + 1,
            thickness_at(line@, start as int) == closing_thickness(
                line@,
                start as int,
                t as int,
            ),
        decreases MAX_BORDER + 1 - t,
    {
        if closes_at(line, start, t, opening) {
            return t;
        }
        t = t + 1;
    }
    0
}

/// Walks one line of the picture, a column for horizontal bands or a row for
/// vertical ones, and marks every thin band it starts.
fn mark_bands(line: &Vec<Rgba>) -> (marks: Vec<u8>)
    requires
        line@.len() <= MAX_ANALYSIS_PIXELS,
    ensures
        marks@.len() == line@.len(),
        forall|at: int|
            0 <= at < marks@.len() ==> #[trigger] marks@[at] == band_mark(line@, 1, at),
{
    let mut marks: Vec<u8> = Vec::new();
    while marks.len() < line.len()
        invariant
            marks@.len() <= line@.len(),
            forall|at: int| 0 <= at < marks@.len() ==> #[trigger] marks@[at] == 0,
        decreases line.len() - marks.len(),
    {
        marks.push(0);
    }
    proof {
        lemma_mark_bounds(line@, 1, 0);
    }
    let mut start: usize = 1;
    while start + 1 < line.len()
        invariant
            line@.len() <= MAX_ANALYSIS_PIXELS,
            marks@.len() == line@.len(),
            1 <= start,
            start <= line@.len() + 1,
            forall|at: int|
                0 <= at < marks@.len() && at < start ==> #[trigger] marks@[at] == band_mark(
                    line@,
                    1,
                    at,
                ),
            forall|at: int| start <= at < marks@.len() ==> #[trigger] marks@[at] == 0,
            forall|at: int|
                at >= start ==> #[trigger] band_mark(line@, 1, at) == band_mark(
                    line@,
                    start as int,
                    at,
                ),
        decreases line.len() + 1 - start,
    {
        let thickness: usize = measure_band(line, start);
        if thickness == 0 {
            assert(band_mark(line@, 1, start as int) == band_mark(
                line@,
                start as int,
                start as int,
            ));
            proof {
                lemma_mark_bounds(line@, start + 1, start as int);
            }
            start = start + 1;
        } else {
            assert(band_mark(line@, 1, start as int) == thickness);
            marks.set(start, thickness as u8);
            proof {
                assert forall|at: int| start < at < start + thickness implies #[trigger] band_mark(
                    line@,
                    1,
                    at,
                ) == 0 by {
                    assert(band_mark(line@, start as int, at) == band_mark(
                        line@,
                        start + thickness,
                        at,
                    ));
                    lemma_mark_bounds(line@, start + thickness, at);
                }
                assert forall|at: int| at >= start + thickness implies #[trigger] band_mark(
                    line@,
                    1,
                    at,
                ) == band_mark(line@, start + thickness, at) by {
                    assert(band_mark(line@, 1, at) == band_mark(line@, start as int, at));
                }
            }
            start = start + thickness;
        }
    }
    marks
}

/// Thin constant bands in one picture, per direction: a non-zero entry marks
/// the first row (or column) of a band and holds its thickness.
pub struct Bands {
    /// Indexed `y * width + x`: the band whose first row is `y`.
    horizontal: Vec<u8>,
    /// Indexed `x * height + y`: the band whose first column is `x`.
    vertical: Vec<u8>,
}

impl Bands {
    /// These are the bands of the picture.
    pub closed spec fn of(&self, picture: Picture) -> bool {
        &&& self.horizontal@.len() == picture.width * picture.height
        &&& self.vertical@.len() == picture.width * picture.height
        &&& forall|x: int, y: int|
            #![trigger picture_mark(picture, true, x, y)]
            picture.has(x, y) ==> self.horizontal@[y * picture.width + x] == picture_mark(
                picture,
                true,
                x,
                y,
            )
        &&& forall|x: int, y: int|
            #![trigger picture_mark(picture, false, x, y)]
            picture.has(x, y) ==> self.vertical@[x * picture.height + y] == picture_mark(
                picture,
                false,
                x,
                y,
            )
    }

    /// The mark at a position along a row (or column).
    fn thickness_at(
        &self,
        frame: &AnalysisFrame,
        horizontal: bool,
        at: u32,
        along: u32,
    ) -> (thickness: u8)
        requires
            frame.wf(),
            self.of(frame@),
            horizontal ==> frame@.has(along as int, at as int),
            !horizontal ==> frame@.has(at as int, along as int),
        ensures
            thickness == picture_mark(
                frame@,
                horizontal,
                if horizontal {
                    along as int
                } else {
                    at as int
                },
                if horizontal {
                    at as int
                } else {
                    along as int
                },
            ),
    {
        if horizontal {
            proof {
                lemma_index_in_picture(frame@, along as int, at as int);
                assert(frame@.has(along as int, at as int));
            }
            let ghost mark = picture_mark(frame@, true, along as int, at as int);
            self.horizontal[(at * frame.width + along) as usize]
        } else {
            proof {
                lemma_column_index(frame@, at as int, along as int);
            }
            let ghost mark = picture_mark(frame@, false, at as int, along as int);
            self.vertical[(at * frame.height + along) as usize]
        }
    }
}

/// A pixel inside a picture has a number inside its column-by-column list.
proof fn lemma_column_index(picture: Picture, x: int, y: int)
    requires
        picture.wf(),
        picture.has(x, y),
    ensures
        0 <= x * picture.height,
        0 <= x * picture.height + y < picture.width * picture.height,
{
    let (w, h) = (picture.width, picture.height);
    assert(x * h + h <= w * h && 0 <= x * h) by (nonlinear_arith)
        requires
            0 <= x,
            x + 1 <= w,
            0 <= h,
    ;
}

/// A list of `n` zeros.
fn zeros(n: usize) -> (list: Vec<u8>)
    ensures
        list@.len() == n,
{
    let mut list: Vec<u8> = Vec::new();
    while list.len() < n
        invariant
            list@.len() <= n,
        decreases n - list.len(),
    {
        list.push(0);
    }
    list
}

/// Every thin band of the picture.
pub fn bands(frame: &AnalysisFrame) -> (found: Bands)
    requires
        frame.wf(),
    ensures
        found.of(frame@),
{
    let ghost picture = frame@;
    let ghost (w, h) = (picture.width, picture.height);
    let total: usize = frame.pixels.len();
    let mut horizontal: Vec<u8> = zeros(total);
    let mut vertical: Vec<u8> = zeros(total);
    proof {
        lemma_sides_bounded(picture);
    }
    let mut x: u32 = 0;
    while x < frame.width
        invariant
            frame.wf(),
            picture == frame@,
            w == frame.width,
            h == frame.height,
            w <= MAX_ANALYSIS_PIXELS,
            h <= MAX_ANALYSIS_PIXELS,
            x <= frame.width,
            horizontal@.len() == w * h,
            forall|cx: int, cy: int|
                #![trigger picture_mark(picture, true, cx, cy)]
                picture.has(cx, cy) && cx < x ==> horizontal@[cy * w + cx] == picture_mark(
                    picture,
                    true,
                    cx,
                    cy,
                ),
        decreases frame.width - x,
    {
        let mut line: Vec<Rgba> = Vec::new();
        let mut y: u32 = 0;
        while y < frame.height
            invariant
                frame.wf(),
                picture == frame@,
                w == frame.width,
                h == frame.height,
                x < frame.width,
                y <= frame.height,
                line@.len() == y,
                forall|i: int| 0 <= i < line@.len() ==> line@[i] == picture.at(x as int, i),
            decreases frame.height - y,
        {
            let index: usize = frame.mask_index(x, y);
            line.push(frame.pixels[index]);
            y = y + 1;
        }
        assert(line@ =~= column(picture, x as int));
        let marks = mark_bands(&line);
        let mut y: u32 = 0;
        while y < frame.height
            invariant
                frame.wf(),
                picture == frame@,
                w == frame.width,
                h == frame.height,
                x < frame.width,
                y <= frame.height,
                horizontal@.len() == w * h,
                marks@.len() == h,
                forall|at: int|
                    0 <= at < marks@.len() ==> #[trigger] marks@[at] == band_mark(
                        column(picture, x as int),
                        1,
                        at,
                    ),
                forall|cx: int, cy: int|
                    #![trigger picture_mark(picture, true, cx, cy)]
                    picture.has(cx, cy) && (cx < x || cx == x && cy < y) ==> horizontal@[cy * w
                        + cx] == picture_mark(picture, true, cx, cy),
            decreases frame.height - y,
        {
            let index: usize = frame.mask_index(x, y);
            let ghost before = horizontal@;
            horizontal.set(index, marks[y as usize]);
            proof {
                assert forall|cx: int, cy: int|
                    #![trigger picture_mark(picture, true, cx, cy)]
                    picture.has(cx, cy) && (cx < x || cx == x && cy < y + 1) implies horizontal@[cy
                    * w + cx] == picture_mark(picture, true, cx, cy) by {
                    lemma_index_in_picture(picture, cx, cy);
                    if !(cx == x && cy == y) {
                        assert(cy * w + cx != y * w + x) by {
                            vstd::arithmetic::div_mod::lemma_fundamental_div_mod_converse(
                                cy * w + cx,
                                w,
                                cy,
                                cx,
                            );
                            vstd::arithmetic::div_mod::lemma_fundamental_div_mod_converse(
                                y * w + x,
                                w,
                                y as int,
                                x as int,
                            );
                        }
                    }
                }
            }
            y = y + 1;
        }
        x = x + 1;
    }
    let mut y: u32 = 0;
    while y < frame.height
        invariant
            frame.wf(),
            picture == frame@,
            w == frame.width,
            h == frame.height,
            w <= MAX_ANALYSIS_PIXELS,
            h <= MAX_ANALYSIS_PIXELS,
            y <= frame.height,
            vertical@.len() == w * h,
            forall|cx: int, cy: int|
                #![trigger picture_mark(picture, false, cx, cy)]
                picture.has(cx, cy) && cy < y ==> vertical@[cx * h + cy] == picture_mark(
                    picture,
                    false,
                    cx,
                    cy,
                ),
        decreases frame.height - y,
    {
        let mut line: Vec<Rgba> = Vec::new();
        let mut x: u32 = 0;
        while x < frame.width
            invariant
                frame.wf(),
                picture == frame@,
                w == frame.width,
                h == frame.height,
                y < frame.height,
                x <= frame.width,
                line@.len() == x,
                forall|i: int| 0 <= i < line@.len() ==> line@[i] == picture.at(i, y as int),
            decreases frame.width - x,
        {
            let index: usize = frame.mask_index(x, y);
            line.push(frame.pixels[index]);
            x = x + 1;
        }
        assert(line@ =~= row(picture, y as int));
        let marks = mark_bands(&line);
        let mut x: u32 = 0;
        while x < frame.width
            invariant
                frame.wf(),
                picture == frame@,
                w == frame.width,
                h == frame.height,
                w <= MAX_ANALYSIS_PIXELS,
                h <= MAX_ANALYSIS_PIXELS,
                y < frame.height,
                x <= frame.width,
                vertical@.len() == w * h,
                marks@.len() == w,
                forall|at: int|
                    0 <= at < marks@.len() ==> #[trigger] marks@[at] == band_mark(
                        row(picture, y as int),
                        1,
                        at,
                    ),
                forall|cx: int, cy: int|
                    #![trigger picture_mark(picture, false, cx, cy)]
                    picture.has(cx, cy) && (cy < y || cy == y && cx < x) ==> vertical@[cx * h + cy]
                        == picture_mark(picture, false, cx, cy),
            decreases frame.width - x,
        {
            proof {
                lemma_column_index(picture, x as int, y as int);
            }
            let index: usize = (x * frame.height + y) as usize;
            vertical.set(index, marks[x as usize]);
            proof {
                assert forall|cx: int, cy: int|
                    #![trigger picture_mark(picture, false, cx, cy)]
                    picture.has(cx, cy) && (cy < y || cy == y && cx < x + 1) implies vertical@[cx
                    * h + cy] == picture_mark(picture, false, cx, cy) by {
                    lemma_column_index(picture, cx, cy);
                    if !(cx == x && cy == y) {
                        assert(cx * h + cy != x * h + y) by {
                            vstd::arithmetic::div_mod::lemma_fundamental_div_mod_converse(
                                cx * h + cy,
                                h,
                                cx,
                                cy,
                            );
                            vstd::arithmetic::div_mod::lemma_fundamental_div_mod_converse(
                                x * h + y,
                                h,
                                x as int,
                                y as int,
                            );
                        }
                    }
                }
            }
            x = x + 1;
        }
        y = y + 1;
    }
    Bands { horizontal, vertical }
}

// ---------------------------------------------------------------------------
// Edge lines
// ---------------------------------------------------------------------------
/// A long run of band starts along one row or column: a window edge candidate.
#[derive(Clone, Copy, Debug, PartialEq, Eq, Structural)]
pub struct Line {
    /// The row (for horizontal edges) or column (for vertical ones) it sits on.
    pub at: u32,
    pub from: u32,
    pub to: u32,
    pub thickness: u32,
}

impl Line {
    pub open spec fn length(self) -> int {
        self.to - self.from
    }

    /// The line lies inside a picture that is `outer` across its direction and
    /// `inner` along it.
    pub open spec fn fits(self, outer: int, inner: int) -> bool {
        &&& self.at < outer
        &&& self.from <= self.to < inner
        &&& 1 <= self.thickness <= MAX_BORDER
    }

    pub fn span(&self) -> (span: u32)
        requires
            self.from <= self.to,
        ensures
            span == self.length(),
    {
        self.to - self.from
    }
}

/// The marks along row `at` (or column `at`).
pub open spec fn marks_along(picture: Picture, horizontal: bool, at: int) -> Seq<int> {
    if horizontal {
        Seq::new(picture.width as nat, |x: int| picture_mark(picture, true, x, at))
    } else {
        Seq::new(picture.height as nat, |y: int| picture_mark(picture, false, at, y))
    }
}

/// Where the run of marks that holds `along` ends: the first unmarked
/// position.
pub open spec fn run_end(marks: Seq<int>, along: int) -> int
    decreases marks.len() - along,
{
    if along < 0 || along >= marks.len() || marks[along] <= 0 {
        along
    } else {
        run_end(marks, along + 1)
    }
}

/// How many marks in `from..to` have the thickness.
pub open spec fn thickness_count(marks: Seq<int>, from: int, to: int, thickness: int) -> int
    decreases to - from,
{
    if to <= from {
        0
    } else {
        thickness_count(marks, from, to - 1, thickness) + if marks[to - 1] == thickness {
            1int
        } else {
            0
        }
    }
}

/// The most frequent thickness up to `thickness`; of equals the thickest.
pub open spec fn dominant(marks: Seq<int>, from: int, to: int, thickness: int) -> int
    decreases thickness,
{
    if thickness <= 1 {
        1
    } else {
        let thinner = dominant(marks, from, to, thickness - 1);
        if thickness_count(marks, from, to, thickness) >= thickness_count(
            marks,
            from,
            to,
            thinner,
        ) {
            thickness
        } else {
            thinner
        }
    }
}

/// How far a run has to reach to be an edge.
pub open spec fn min_run(marks: Seq<int>) -> int {
    marks.len() as int * RING_LINE_MIN_PCT / 100
}

/// The edge that the run from `from` up to `end` forms.
pub open spec fn run_line(marks: Seq<int>, at: int, from: int, end: int) -> Line {
    Line {
        at: at as u32,
        from: from as u32,
        to: (end - 1) as u32,
        thickness: dominant(marks, from, end, MAX_BORDER as int) as u32,
    }
}

/// The edges on row (or column) `at`, from `along` on: every long enough run,
/// because two tiled windows share the rows their edges sit on.
pub open spec fn lines_along(marks: Seq<int>, at: int, along: int) -> Seq<Line>
    decreases marks.len() - along,
{
    if along < 0 || along >= marks.len() {
        Seq::empty()
    } else if marks[along] <= 0 {
        lines_along(marks, at, along + 1)
    } else {
        let end = run_end(marks, along);
        proof {
            lemma_run_end(marks, along);
        }
        if end - 1 - along >= min_run(marks) {
            seq![run_line(marks, at, along, end)] + lines_along(marks, at, end)
        } else {
            lines_along(marks, at, end)
        }
    }
}

pub proof fn lemma_run_end(marks: Seq<int>, along: int)
    requires
        0 <= along <= marks.len(),
    ensures
        along <= run_end(marks, along) <= marks.len(),
        along < marks.len() && marks[along] > 0 ==> along < run_end(marks, along),
    decreases marks.len() - along,
{
    if along < marks.len() && marks[along] > 0 {
        lemma_run_end(marks, along + 1);
    }
}

/// The number of rows (or columns) of the picture.
pub open spec fn rows(picture: Picture, horizontal: bool) -> int {
    if horizontal {
        picture.height
    } else {
        picture.width
    }
}

/// The edges on the rows (or columns) from `at` on.
pub open spec fn lines_from(picture: Picture, horizontal: bool, at: int) -> Seq<Line>
    decreases rows(picture, horizontal) - at,
{
    if at >= rows(picture, horizontal) {
        Seq::empty()
    } else {
        lines_along(marks_along(picture, horizontal, at), at, 0) + lines_from(
            picture,
            horizontal,
            at + 1,
        )
    }
}

/// The most frequent thickness of a run.
fn dominant_thickness(
    counts: &Vec<u32>,
    Ghost(marks): Ghost<Seq<int>>,
    Ghost(from): Ghost<int>,
    Ghost(to): Ghost<int>,
) -> (thickness: u32)
    requires
        counts@.len() == MAX_BORDER + 1,
        forall|t: int|
            1 <= t <= MAX_BORDER ==> #[trigger] counts@[t] == thickness_count(marks, from, to, t),
    ensures
        thickness == dominant(marks, from, to, MAX_BORDER as int),
        1 <= thickness <= MAX_BORDER,
{
    let mut best: u32 = 1;
    let mut t: u32 = 2;
    while t <= MAX_BORDER
        invariant
            counts@.len() == MAX_BORDER + 1,
            forall|t: int|
                1 <= t <= MAX_BORDER ==> #[trigger] counts@[t] == thickness_count(
                    marks,
                    from,
                    to,
                    t,
                ),
            2 <= t <= MAX_BORDER + 1,
            1 <= best < t,
            best == dominant(marks, from, to, t - 1),
        decreases MAX_BORDER + 1 - t,
    {
        if counts[t as usize] >= counts[best as usize] {
            best = t;
        }
        t = t + 1;
    }
    best
}

/// Every long run of band starts along the rows (or columns) of the picture.
fn edge_lines(frame: &AnalysisFrame, bands: &Bands, horizontal: bool) -> (lines: Vec<Line>)
    requires
        frame.wf(),
        bands.of(frame@),
    ensures
        lines@ == lines_from(frame@, horizontal, 0),
        forall|i: int|
            0 <= i < lines@.len() ==> (#[trigger] lines@[i]).fits(
                rows(frame@, horizontal),
                rows(frame@, !horizontal),
            ),
{
    let ghost picture = frame@;
    let (outer, inner): (u32, u32) = if horizontal {
        (frame.height, frame.width)
    } else {
        (frame.width, frame.height)
    };
    proof {
        lemma_sides_bounded(picture);
    }
    let shortest: u64 = inner as u64 * RING_LINE_MIN_PCT / 100;
    let mut lines: Vec<Line> = Vec::new();
    let mut at: u32 = 0;
    while at < outer
        invariant
            frame.wf(),
            picture == frame@,
            bands.of(picture),
            outer == rows(picture, horizontal),
            inner == rows(picture, !horizontal),
            inner <= MAX_ANALYSIS_PIXELS,
            shortest == inner * RING_LINE_MIN_PCT / 100,
            at <= outer,
            lines@ + lines_from(picture, horizontal, at as int) == lines_from(
                picture,
                horizontal,
                0,
            ),
            forall|i: int|
                0 <= i < lines@.len() ==> (#[trigger] lines@[i]).fits(outer as int, inner as int),
        decreases outer - at,
    {
        let ghost marks = marks_along(picture, horizontal, at as int);
        let ghost rest = lines_from(picture, horizontal, at + 1);
        assert(lines@ + (lines_along(marks, at as int, 0) + rest) =~= lines_from(
            picture,
            horizontal,
            0,
        ));
        let mut along: u32 = 0;
        while along < inner
            invariant
                frame.wf(),
                picture == frame@,
                bands.of(picture),
                outer == rows(picture, horizontal),
                inner == rows(picture, !horizontal),
                inner <= MAX_ANALYSIS_PIXELS,
                shortest == inner * RING_LINE_MIN_PCT / 100,
                at < outer,
                marks == marks_along(picture, horizontal, at as int),
                marks.len() == inner,
                along <= inner,
                lines@ + (lines_along(marks, at as int, along as int) + rest) == lines_from(
                    picture,
                    horizontal,
                    0,
                ),
                forall|i: int|
                    0 <= i < lines@.len() ==> (#[trigger] lines@[i]).fits(
                        outer as int,
                        inner as int,
                    ),
            decreases inner - along,
        {
            if bands.thickness_at(frame, horizontal, at, along) == 0 {
                along = along + 1;
                continue ;
            }
            let from: u32 = along;
            let mut counts: Vec<u32> = Vec::new();
            while counts.len() < MAX_BORDER as usize + 1
                invariant
                    counts@.len() <= MAX_BORDER + 1,
                    forall|t: int| 0 <= t < counts@.len() ==> #[trigger] counts@[t] == 0,
                decreases MAX_BORDER + 1 - counts.len(),
            {
                counts.push(0);
            }
            while along < inner && bands.thickness_at(frame, horizontal, at, along) > 0
                invariant
                    frame.wf(),
                    picture == frame@,
                    bands.of(picture),
                    outer == rows(picture, horizontal),
                    inner == rows(picture, !horizontal),
                    inner <= MAX_ANALYSIS_PIXELS,
                    at < outer,
                    marks == marks_along(picture, horizontal, at as int),
                    marks.len() == inner,
                    from <= along <= inner,
                    run_end(marks, from as int) == run_end(marks, along as int),
                    counts@.len() == MAX_BORDER + 1,
                    forall|t: int|
                        0 <= t < counts@.len() ==> #[trigger] counts@[t] <= along - from,
                    forall|t: int|
                        1 <= t < counts@.len() ==> #[trigger] counts@[t] == thickness_count(
                            marks,
                            from as int,
                            along as int,
                            t,
                        ),
                decreases inner - along,
            {
                let thickness: u8 = bands.thickness_at(frame, horizontal, at, along);
                proof {
                    assert(marks[along as int] == thickness);
                    if horizontal {
                        lemma_mark_bounds(column(picture, along as int), 1, at as int);
                    } else {
                        lemma_mark_bounds(row(picture, along as int), 1, at as int);
                    }
                }
                let slot: usize = thickness as usize;
                let held: u32 = counts[slot];
                counts.set(slot, held + 1);
                along = along + 1;
            }
            proof {
                lemma_run_end(marks, from as int);
                assert(run_end(marks, along as int) == along);
                assert(from < along);
            }
            if (along - 1 - from) as u64 >= shortest {
                let thickness: u32 = dominant_thickness(
                    &counts,
                    Ghost(marks),
                    Ghost(from as int),
                    Ghost(along as int),
                );
                let ghost held = lines@;
                let line = Line { at, from, to: along - 1, thickness };
                lines.push(line);
                proof {
                    assert(line == run_line(marks, at as int, from as int, along as int));
                    assert(lines@ + (lines_along(marks, at as int, along as int) + rest) =~= held
                        + ((seq![line] + lines_along(marks, at as int, along as int)) + rest));
                }
            }
        }
        assert(lines_along(marks, at as int, along as int) + rest =~= rest);
        at = at + 1;
    }
    assert(lines@ + Seq::<Line>::empty() =~= lines@);
    lines
}

// ---------------------------------------------------------------------------
// Rings
// ---------------------------------------------------------------------------
/// A window read off its border: the rectangle the stroke spans, stroke
/// included, and how vivid that stroke is.
#[derive(Clone, Copy, Debug, PartialEq, Eq, Structural)]
pub struct Ring {
    pub rect: Rect,
    pub saturation: i32,
}

impl Ring {
    pub open spec fn is_focused(self) -> bool {
        self.saturation >= RING_VIVID
    }

    /// Whether this ring is the compositor's focus stroke rather than its
    /// inactive one.
    pub fn focused(&self) -> (focused: bool)
        ensures
            focused == self.is_focused(),
    {
        self.saturation >= RING_VIVID
    }
}

/// Two horizontal edges share enough of their extent to face each other.
pub open spec fn facing(top: Line, bottom: Line) -> bool {
    let from = max_int(top.from as int, bottom.from as int);
    let to = min_int(top.to as int, bottom.to as int);
    &&& from < to
    &&& (to - from) * 100 >= min_int(top.length(), bottom.length()) * RING_OVERLAP_PCT
}

/// The vertical edge may close a ring near `x` between the rows `from` and
/// `to`.
pub open spec fn may_close(
    line: Line,
    x: int,
    from: int,
    to: int,
    min_span: int,
    tolerance: int,
) -> bool {
    &&& line.length() >= min_span
    &&& line.from <= to
    &&& line.to >= from
    &&& abs_diff(line.at as int, x) <= tolerance
}

/// The nearest of the first `n` vertical edges that may close the ring; of
/// equally near ones the first.
pub open spec fn nearest_side(
    verticals: Seq<Line>,
    n: int,
    x: int,
    from: int,
    to: int,
    min_span: int,
    tolerance: int,
) -> Option<Line>
    decreases n,
{
    if n <= 0 {
        None
    } else {
        let before = nearest_side(verticals, n - 1, x, from, to, min_span, tolerance);
        let line = verticals[n - 1];
        if !may_close(line, x, from, to, min_span, tolerance) {
            before
        } else {
            match before {
                Some(found) => if abs_diff(line.at as int, x) < abs_diff(found.at as int, x) {
                    Some(line)
                } else {
                    before
                },
                None => Some(line),
            }
        }
    }
}

/// The shortest side of a ring in this picture.
pub open spec fn shortest_side(picture: Picture) -> int {
    min_int(picture.width, picture.height) * RING_MIN_DIM_PCT / 100
}

/// The side that closes a ring between the two edges near `x`.
pub open spec fn ring_side(
    picture: Picture,
    verticals: Seq<Line>,
    top: Line,
    bottom: Line,
    x: int,
) -> Option<Line> {
    let height = bottom.at - top.at;
    nearest_side(
        verticals,
        verticals.len() as int,
        x,
        top.at as int,
        bottom.at as int,
        max_int(shortest_side(picture), height * RING_SIDE_PCT / 100),
        max_int(height / 8, MAX_BORDER + 2),
    )
}

/// Brightness read off some pixels: the sum of their vividness, and their
/// number.
pub struct Light {
    pub sum: int,
    pub count: int,
}

/// The light of one pixel, nothing outside the picture.
pub open spec fn light_at(picture: Picture, x: int, y: int) -> Light {
    if picture.has(x, y) {
        Light { sum: vividness(picture.at(x, y)), count: 1 }
    } else {
        Light { sum: 0, count: 0 }
    }
}

pub open spec fn plus(a: Light, b: Light) -> Light {
    Light { sum: a.sum + b.sum, count: a.count + b.count }
}

/// The light of `n` pixels of a column, from `y` down.
pub open spec fn light_down(picture: Picture, x: int, y: int, n: int) -> Light
    decreases n,
{
    if n <= 0 {
        Light { sum: 0, count: 0 }
    } else {
        plus(light_down(picture, x, y, n - 1), light_at(picture, x, y + n - 1))
    }
}

/// The light of `n` pixels of a row, from `x` on.
pub open spec fn light_across(picture: Picture, x: int, y: int, n: int) -> Light
    decreases n,
{
    if n <= 0 {
        Light { sum: 0, count: 0 }
    } else {
        plus(light_across(picture, x, y, n - 1), light_at(picture, x + n - 1, y))
    }
}

/// The light of the two horizontal strokes in `n` columns, `step` apart.
pub open spec fn light_of_edges(
    picture: Picture,
    left: int,
    step: int,
    top: Line,
    bottom: Line,
    n: int,
) -> Light
    decreases n,
{
    if n <= 0 {
        Light { sum: 0, count: 0 }
    } else {
        let x = left + (n - 1) * step;
        plus(
            plus(
                light_of_edges(picture, left, step, top, bottom, n - 1),
                light_down(picture, x, top.at as int, top.thickness as int),
            ),
            light_down(picture, x, bottom.at as int, bottom.thickness as int),
        )
    }
}

/// The light of the two vertical strokes in `n` rows, `step` apart.
pub open spec fn light_of_sides(
    picture: Picture,
    top: int,
    step: int,
    left: Line,
    right: Line,
    n: int,
) -> Light
    decreases n,
{
    if n <= 0 {
        Light { sum: 0, count: 0 }
    } else {
        let y = top + (n - 1) * step;
        plus(
            plus(
                light_of_sides(picture, top, step, left, right, n - 1),
                light_across(picture, left.at as int, y, left.thickness as int),
            ),
            light_across(picture, right.at as int, y, right.thickness as int),
        )
    }
}

/// The stride that reads about as many pixels of any stroke.
pub open spec fn stroke_step(length: int) -> int {
    max_int(max_int(length, 1) / (SAMPLES_PER_STROKE as int), 1)
}

/// The light of all four strokes, sampled inside the ring's own bounds so that
/// a neighbour's border sharing the row cannot dilute it.
pub open spec fn ring_light(
    picture: Picture,
    left: Line,
    top: Line,
    right: Line,
    bottom: Line,
) -> Light {
    let (across, down) = (right.at - left.at, bottom.at - top.at);
    plus(
        light_of_edges(
            picture,
            left.at as int,
            stroke_step(across),
            top,
            bottom,
            ticks(across, stroke_step(across)),
        ),
        light_of_sides(
            picture,
            top.at as int,
            stroke_step(down),
            left,
            right,
            ticks(down, stroke_step(down)),
        ),
    )
}

/// The mean vividness of the strokes.
pub open spec fn mean(light: Light) -> int {
    if light.count == 0 {
        0
    } else {
        light.sum / light.count
    }
}

/// The rectangle the strokes span, their outer edges included.
pub open spec fn stroke_rect(left: Line, top: Line, right: Line, bottom: Line) -> Rect {
    Rect {
        origin: Point { x: left.at as i32, y: top.at as i32 },
        size: Size {
            width: (right.at + right.thickness - left.at) as u32,
            height: (bottom.at + bottom.thickness - top.at) as u32,
        },
    }
}

/// The ring two horizontal edges form with the vertical ones: both edges find
/// the same two sides, the ring is wide and high enough, and all four strokes
/// are equally thick.
pub open spec fn ring_between(
    picture: Picture,
    verticals: Seq<Line>,
    top: Line,
    bottom: Line,
) -> Option<Ring> {
    if bottom.at <= top.at + shortest_side(picture) || !facing(top, bottom) {
        None
    } else {
        match (
            ring_side(picture, verticals, top, bottom, top.from as int),
            ring_side(picture, verticals, top, bottom, top.to as int),
            ring_side(picture, verticals, top, bottom, bottom.from as int),
            ring_side(picture, verticals, top, bottom, bottom.to as int),
        ) {
            (Some(left), Some(right), Some(bottom_left), Some(bottom_right)) => if bottom_left.at
                == left.at && bottom_right.at == right.at && right.at > left.at + left.thickness
                + shortest_side(picture) && top.thickness == bottom.thickness && top.thickness
                == left.thickness && top.thickness == right.thickness {
                Some(
                    Ring {
                        rect: stroke_rect(left, top, right, bottom),
                        saturation: mean(ring_light(picture, left, top, right, bottom)) as i32,
                    },
                )
            } else {
                None
            },
            _ => None,
        }
    }
}

/// The first of the least vivid among the first `n` rings.
pub open spec fn weakest(rings: Seq<Ring>, n: int) -> int
    decreases n,
{
    if n <= 1 {
        0
    } else {
        let before = weakest(rings, n - 1);
        if rings[n - 1].saturation < rings[before].saturation {
            n - 1
        } else {
            before
        }
    }
}

/// The rings with one more: one rectangle only once, and no more than the cap,
/// the least vivid giving way.
pub open spec fn with_ring(rings: Seq<Ring>, found: Option<Ring>) -> Seq<Ring> {
    match found {
        None => rings,
        Some(ring) => if exists|i: int|
            0 <= i < rings.len() && (#[trigger] rings[i]).rect == ring.rect {
            rings
        } else if rings.len() < MAX_RINGS {
            rings.push(ring)
        } else if rings[weakest(rings, rings.len() as int)].saturation < ring.saturation {
            rings.update(weakest(rings, rings.len() as int), ring)
        } else {
            rings
        },
    }
}

/// The rings once every pair of horizontal edges from `(i, j)` on has been
/// tried.
pub open spec fn rings_from(
    picture: Picture,
    horizontals: Seq<Line>,
    verticals: Seq<Line>,
    rings: Seq<Ring>,
    i: int,
    j: int,
) -> Seq<Ring>
    decreases horizontals.len() - i, horizontals.len() - j,
{
    if i < 0 || i >= horizontals.len() {
        rings
    } else if j >= horizontals.len() {
        rings_from(picture, horizontals, verticals, rings, i + 1, i + 2)
    } else {
        rings_from(
            picture,
            horizontals,
            verticals,
            with_ring(rings, ring_between(picture, verticals, horizontals[i], horizontals[j])),
            i,
            j + 1,
        )
    }
}

/// The rings with their saturation as a sorting key.
pub open spec fn keyed(rings: Seq<Ring>) -> Seq<(u64, Ring)> {
    Seq::new(rings.len(), |i: int| (rings[i].saturation as u64, rings[i]))
}

pub open spec fn unkeyed(rings: Seq<(u64, Ring)>) -> Seq<Ring> {
    Seq::new(rings.len(), |i: int| rings[i].1)
}

/// Every ring of the picture, the most vivid first.
pub open spec fn rings(picture: Picture) -> Seq<Ring> {
    unkeyed(
        descending(
            keyed(
                rings_from(
                    picture,
                    lines_from(picture, true, 0),
                    lines_from(picture, false, 0),
                    Seq::empty(),
                    0,
                    1,
                ),
            ),
        ),
    )
}

/// Whether two horizontal edges share enough of their extent.
fn overlap(top: &Line, bottom: &Line) -> (shared: bool)
    requires
        top.from <= top.to,
        bottom.from <= bottom.to,
    ensures
        shared == facing(*top, *bottom),
{
    let from: u32 = if top.from >= bottom.from {
        top.from
    } else {
        bottom.from
    };
    let to: u32 = if top.to <= bottom.to {
        top.to
    } else {
        bottom.to
    };
    if to <= from {
        return false;
    }
    let smaller: u32 = if top.span() <= bottom.span() {
        top.span()
    } else {
        bottom.span()
    };
    (to - from) as u64 * 100 >= smaller as u64 * RING_OVERLAP_PCT
}

/// The vertical edge nearest `x` that runs along the given rows.
///
/// "Nearest" rather than "at": a window's corners are rounded, so a horizontal
/// edge stops short of the border it belongs to.  What the window contains is
/// nearer still, so a line only counts as a side when it is long enough.
fn closer(
    verticals: &Vec<Line>,
    x: u32,
    from: u32,
    to: u32,
    min_span: u32,
    tolerance: u32,
) -> (side: Option<Line>)
    requires
        forall|i: int| 0 <= i < verticals@.len() ==> (#[trigger] verticals@[i]).from <= verticals@[i].to,
    ensures
        side == nearest_side(
            verticals@,
            verticals@.len() as int,
            x as int,
            from as int,
            to as int,
            min_span as int,
            tolerance as int,
        ),
        side matches Some(line) ==> verticals@.contains(line),
{
    let mut found: Option<(Line, u32)> = None;
    let mut i: usize = 0;
    while i < verticals.len()
        invariant
            forall|i: int|
                0 <= i < verticals@.len() ==> (#[trigger] verticals@[i]).from <= verticals@[i].to,
            i <= verticals@.len(),
            match found {
                Some((line, distance)) => {
                    &&& nearest_side(
                        verticals@,
                        i as int,
                        x as int,
                        from as int,
                        to as int,
                        min_span as int,
                        tolerance as int,
                    ) == Some(line)
                    &&& distance == abs_diff(line.at as int, x as int)
                    &&& verticals@.contains(line)
                },
                None => nearest_side(
                    verticals@,
                    i as int,
                    x as int,
                    from as int,
                    to as int,
                    min_span as int,
                    tolerance as int,
                ) is None,
            },
        decreases verticals.len() - i,
    {
        let line = verticals[i];
        assert(verticals@[i as int] == line);
        let distance: u32 = if line.at >= x {
            line.at - x
        } else {
            x - line.at
        };
        if line.span() >= min_span && line.from <= to && line.to >= from && distance <= tolerance {
            match found {
                Some((_, best)) => {
                    if distance < best {
                        found = Some((line, distance));
                    }
                },
                None => {
                    found = Some((line, distance));
                },
            }
        }
        i = i + 1;
    }
    match found {
        Some((line, _)) => Some(line),
        None => None,
    }
}

/// Running sums of vividness and pixels.
#[derive(Clone, Copy)]
struct Meter {
    sum: u64,
    count: u64,
}

impl Meter {
    spec fn light(self) -> Light {
        Light { sum: self.sum as int, count: self.count as int }
    }

    /// No more than the given number of pixels were read.
    spec fn within(self, pixels: int) -> bool {
        self.count <= pixels && self.sum <= 255 * self.count
    }

    /// Reads one more pixel.
    fn read(self, frame: &AnalysisFrame, x: u32, y: u32, Ghost(pixels): Ghost<int>) -> (more: Self)
        requires
            frame.wf(),
            self.within(pixels),
            pixels < 0x100_0000_0000,
        ensures
            more.light() == plus(self.light(), light_at(frame@, x as int, y as int)),
            more.within(pixels + 1),
    {
        match frame.get(x, y) {
            Some(pixel) => Meter {
                sum: self.sum + saturation(pixel) as u64,
                count: self.count + 1,
            },
            None => self,
        }
    }

    /// Reads `n` pixels of a column.
    fn read_down(
        self,
        frame: &AnalysisFrame,
        x: u32,
        y: u32,
        n: u32,
        Ghost(pixels): Ghost<int>,
    ) -> (more: Self)
        requires
            frame.wf(),
            self.within(pixels),
            0 <= pixels,
            pixels + n < 0x100_0000_0000,
            y + n <= u32::MAX,
        ensures
            more.light() == plus(self.light(), light_down(frame@, x as int, y as int, n as int)),
            more.within(pixels + n),
    {
        let mut meter = self;
        let mut i: u32 = 0;
        while i < n
            invariant
                frame.wf(),
                0 <= pixels,
                pixels + n < 0x100_0000_0000,
                y + n <= u32::MAX,
                i <= n,
                meter.within(pixels + i),
                meter.light() == plus(
                    self.light(),
                    light_down(frame@, x as int, y as int, i as int),
                ),
            decreases n - i,
        {
            meter = meter.read(frame, x, y + i, Ghost(pixels + i));
            i = i + 1;
        }
        meter
    }

    /// Reads `n` pixels of a row.
    fn read_across(
        self,
        frame: &AnalysisFrame,
        x: u32,
        y: u32,
        n: u32,
        Ghost(pixels): Ghost<int>,
    ) -> (more: Self)
        requires
            frame.wf(),
            self.within(pixels),
            0 <= pixels,
            pixels + n < 0x100_0000_0000,
            x + n <= u32::MAX,
        ensures
            more.light() == plus(self.light(), light_across(frame@, x as int, y as int, n as int)),
            more.within(pixels + n),
    {
        let mut meter = self;
        let mut i: u32 = 0;
        while i < n
            invariant
                frame.wf(),
                0 <= pixels,
                pixels + n < 0x100_0000_0000,
                x + n <= u32::MAX,
                i <= n,
                meter.within(pixels + i),
                meter.light() == plus(
                    self.light(),
                    light_across(frame@, x as int, y as int, i as int),
                ),
            decreases n - i,
        {
            meter = meter.read(frame, x + i, y, Ghost(pixels + i));
            i = i + 1;
        }
        meter
    }
}

fn step_of(length: u32) -> (step: u32)
    requires
        length >= 1,
    ensures
        step == stroke_step(length as int),
        1 <= step <= length,
{
    let step: u32 = length / SAMPLES_PER_STROKE;
    if step >= 1 {
        step
    } else {
        1
    }
}

/// Mean saturation along the four bands of a ring.  The sample stride grows
/// with the ring, so the cost of reading one stays flat.
fn ring_saturation(
    frame: &AnalysisFrame,
    left: &Line,
    top: &Line,
    right: &Line,
    bottom: &Line,
) -> (value: i32)
    requires
        frame.wf(),
        left.at < right.at <= MAX_ANALYSIS_PIXELS,
        top.at < bottom.at <= MAX_ANALYSIS_PIXELS,
        left.thickness <= MAX_BORDER,
        right.thickness <= MAX_BORDER,
        top.thickness <= MAX_BORDER,
        bottom.thickness <= MAX_BORDER,
    ensures
        value == mean(ring_light(frame@, *left, *top, *right, *bottom)),
        0 <= value <= 255,
{
    let across: u32 = right.at - left.at;
    let down: u32 = bottom.at - top.at;
    let step_x: u32 = step_of(across);
    let step_y: u32 = step_of(down);
    let columns: u32 = (across - 1) / step_x + 1;
    let lines: u32 = (down - 1) / step_y + 1;
    let ghost picture = frame@;
    let mut edges = Meter { sum: 0, count: 0 };
    let mut i: u32 = 0;
    while i < columns
        invariant
            frame.wf(),
            picture == frame@,
            left.at + across <= MAX_ANALYSIS_PIXELS,
            top.at <= MAX_ANALYSIS_PIXELS,
            bottom.at <= MAX_ANALYSIS_PIXELS,
            top.thickness <= MAX_BORDER,
            bottom.thickness <= MAX_BORDER,
            step_x >= 1,
            columns == ticks(across as int, step_x as int),
            i <= columns <= MAX_ANALYSIS_PIXELS,
            edges.within(16 * i),
            edges.light() == light_of_edges(
                picture,
                left.at as int,
                step_x as int,
                *top,
                *bottom,
                i as int,
            ),
        decreases columns - i,
    {
        proof {
            lemma_ticks(across as int, step_x as int, i as int);
            assert(0 <= i * step_x) by (nonlinear_arith);
        }
        let x: u32 = left.at + i * step_x;
        edges = edges.read_down(frame, x, top.at, top.thickness, Ghost(16 * i));
        edges = edges.read_down(
            frame,
            x,
            bottom.at,
            bottom.thickness,
            Ghost(16 * i + top.thickness),
        );
        i = i + 1;
    }
    let mut sides = Meter { sum: 0, count: 0 };
    let mut j: u32 = 0;
    while j < lines
        invariant
            frame.wf(),
            picture == frame@,
            top.at + down <= MAX_ANALYSIS_PIXELS,
            left.at <= MAX_ANALYSIS_PIXELS,
            right.at <= MAX_ANALYSIS_PIXELS,
            left.thickness <= MAX_BORDER,
            right.thickness <= MAX_BORDER,
            step_y >= 1,
            lines == ticks(down as int, step_y as int),
            j <= lines <= MAX_ANALYSIS_PIXELS,
            sides.within(16 * j),
            sides.light() == light_of_sides(
                picture,
                top.at as int,
                step_y as int,
                *left,
                *right,
                j as int,
            ),
        decreases lines - j,
    {
        proof {
            lemma_ticks(down as int, step_y as int, j as int);
            assert(0 <= j * step_y) by (nonlinear_arith);
        }
        let y: u32 = top.at + j * step_y;
        sides = sides.read_across(frame, left.at, y, left.thickness, Ghost(16 * j));
        sides = sides.read_across(
            frame,
            right.at,
            y,
            right.thickness,
            Ghost(16 * j + left.thickness),
        );
        j = j + 1;
    }
    let sum: u64 = edges.sum + sides.sum;
    let count: u64 = edges.count + sides.count;
    if count == 0 {
        return 0;
    }
    proof {
        assert(0 <= sum / count <= 255) by (nonlinear_arith)
            requires
                0 <= sum <= 255 * count,
                count >= 1,
        ;
    }
    (sum / count) as i32
}

/// The ring that two horizontal edges form with the vertical ones.
fn find_ring(
    frame: &AnalysisFrame,
    verticals: &Vec<Line>,
    min_side: u32,
    top: &Line,
    bottom: &Line,
) -> (ring: Option<Ring>)
    requires
        frame.wf(),
        min_side == shortest_side(frame@),
        top.fits(frame@.height, frame@.width),
        bottom.fits(frame@.height, frame@.width),
        forall|i: int|
            0 <= i < verticals@.len() ==> (#[trigger] verticals@[i]).fits(
                frame@.width,
                frame@.height,
            ),
    ensures
        ring == ring_between(frame@, verticals@, *top, *bottom),
        ring matches Some(found) ==> 0 <= found.saturation <= 255 && found.rect.origin.x >= 0
            && found.rect.origin.y >= 0,
{
    proof {
        lemma_sides_bounded(frame@);
    }
    if bottom.at <= top.at + min_side || !overlap(top, bottom) {
        return None;
    }
    let height: u32 = bottom.at - top.at;
    let tolerance: u32 = if height / 8 >= MAX_BORDER + 2 {
        height / 8
    } else {
        MAX_BORDER + 2
    };
    let share: u32 = (height as u64 * RING_SIDE_PCT / 100) as u32;
    let side_span: u32 = if min_side >= share {
        min_side
    } else {
        share
    };
    let left = closer(verticals, top.from, top.at, bottom.at, side_span, tolerance);
    let right = closer(verticals, top.to, top.at, bottom.at, side_span, tolerance);
    let bottom_left = closer(verticals, bottom.from, top.at, bottom.at, side_span, tolerance);
    let bottom_right = closer(verticals, bottom.to, top.at, bottom.at, side_span, tolerance);
    assert(left == ring_side(frame@, verticals@, *top, *bottom, top.from as int));
    match (left, right, bottom_left, bottom_right) {
        (Some(left), Some(right), Some(bottom_left), Some(bottom_right)) => {
            proof {
                let l = choose|i: int| 0 <= i < verticals@.len() && verticals@[i] == left;
                let r = choose|i: int| 0 <= i < verticals@.len() && verticals@[i] == right;
                assert(verticals@[l].fits(frame@.width, frame@.height));
                assert(verticals@[r].fits(frame@.width, frame@.height));
            }
            if bottom_left.at == left.at && bottom_right.at == right.at && right.at > left.at
                + left.thickness + min_side && top.thickness == bottom.thickness && top.thickness
                == left.thickness && top.thickness == right.thickness {
                let rect = Rect::new(
                    left.at as i32,
                    top.at as i32,
                    right.at + right.thickness - left.at,
                    bottom.at + bottom.thickness - top.at,
                );
                let saturation: i32 = ring_saturation(frame, &left, top, &right, bottom);
                Some(Ring { rect, saturation })
            } else {
                None
            }
        },
        _ => None,
    }
}

/// The rings with one more.
fn add_ring(rings: &mut Vec<Ring>, ring: Ring)
    requires
        old(rings)@.len() <= MAX_RINGS,
        sane_ring(ring),
        forall|i: int| 0 <= i < old(rings)@.len() ==> sane_ring(#[trigger] old(rings)@[i]),
    ensures
        final(rings)@ == with_ring(old(rings)@, Some(ring)),
        final(rings)@.len() <= MAX_RINGS,
        forall|i: int| 0 <= i < final(rings)@.len() ==> sane_ring(#[trigger] final(rings)@[i]),
{
    let mut i: usize = 0;
    while i < rings.len()
        invariant
            rings@ == old(rings)@,
            rings@.len() <= MAX_RINGS,
            forall|k: int| 0 <= k < rings@.len() ==> sane_ring(#[trigger] rings@[k]),
            i <= rings@.len(),
            forall|k: int| 0 <= k < i ==> (#[trigger] rings@[k]).rect != ring.rect,
        decreases rings.len() - i,
    {
        if rings[i].rect == ring.rect {
            return ;
        }
        i = i + 1;
    }
    if rings.len() < MAX_RINGS {
        rings.push(ring);
        return ;
    }
    let mut weak: usize = 0;
    let mut k: usize = 1;
    while k < rings.len()
        invariant
            rings@ == old(rings)@,
            1 <= k <= rings@.len(),
            weak < k,
            weak == weakest(rings@, k as int),
        decreases rings.len() - k,
    {
        if rings[k].saturation < rings[weak].saturation {
            weak = k;
        }
        k = k + 1;
    }
    if rings[weak].saturation < ring.saturation {
        rings.set(weak, ring);
    }
}

/// A ring's saturation is that of a colour, and it lies in the picture's
/// quadrant.
pub open spec fn sane_ring(ring: Ring) -> bool {
    0 <= ring.saturation <= 255 && ring.rect.origin.x >= 0 && ring.rect.origin.y >= 0
}

/// Windows read off border bands: two long edge lines facing each other,
/// closed by two more, all four the compositor's thin constant band.
pub fn ring_candidates(frame: &AnalysisFrame) -> (found: Vec<Ring>)
    requires
        frame.wf(),
    ensures
        found@ == rings(frame@),
        forall|i: int| 0 <= i < found@.len() ==> sane_ring(#[trigger] found@[i]),
{
    let ghost picture = frame@;
    let marked = bands(frame);
    let horizontals = edge_lines(frame, &marked, true);
    let verticals = edge_lines(frame, &marked, false);
    proof {
        lemma_sides_bounded(picture);
    }
    let shorter: u32 = if frame.width <= frame.height {
        frame.width
    } else {
        frame.height
    };
    let min_side: u32 = shorter * RING_MIN_DIM_PCT / 100;
    let mut rings: Vec<Ring> = Vec::new();
    let ghost goal = rings_from(picture, horizontals@, verticals@, Seq::empty(), 0, 1);
    let mut i: usize = 0;
    while i < horizontals.len()
        invariant
            frame.wf(),
            picture == frame@,
            min_side == shortest_side(picture),
            forall|k: int|
                0 <= k < horizontals@.len() ==> (#[trigger] horizontals@[k]).fits(
                    picture.height,
                    picture.width,
                ),
            forall|k: int|
                0 <= k < verticals@.len() ==> (#[trigger] verticals@[k]).fits(
                    picture.width,
                    picture.height,
                ),
            i <= horizontals@.len(),
            rings@.len() <= MAX_RINGS,
            forall|k: int| 0 <= k < rings@.len() ==> sane_ring(#[trigger] rings@[k]),
            rings_from(picture, horizontals@, verticals@, rings@, i as int, i + 1) == goal,
        decreases horizontals.len() - i,
    {
        let mut j: usize = i + 1;
        while j < horizontals.len()
            invariant
                frame.wf(),
                picture == frame@,
                min_side == shortest_side(picture),
                forall|k: int|
                    0 <= k < horizontals@.len() ==> (#[trigger] horizontals@[k]).fits(
                        picture.height,
                        picture.width,
                    ),
                forall|k: int|
                    0 <= k < verticals@.len() ==> (#[trigger] verticals@[k]).fits(
                        picture.width,
                        picture.height,
                    ),
                i < horizontals@.len(),
                i < j <= horizontals@.len(),
                rings@.len() <= MAX_RINGS,
                forall|k: int| 0 <= k < rings@.len() ==> sane_ring(#[trigger] rings@[k]),
                rings_from(picture, horizontals@, verticals@, rings@, i as int, j as int) == goal,
            decreases horizontals.len() - j,
        {
            assert(horizontals@[i as int].fits(picture.height, picture.width));
            assert(horizontals@[j as int].fits(picture.height, picture.width));
            match find_ring(frame, &verticals, min_side, &horizontals[i], &horizontals[j]) {
                Some(ring) => {
                    add_ring(&mut rings, ring);
                },
                None => {},
            }
            j = j + 1;
        }
        i = i + 1;
    }
    assert(rings@ == goal);
    let mut items: Vec<(u64, Ring)> = Vec::new();
    while items.len() < rings.len()
        invariant
            items@.len() <= rings@.len(),
            forall|k: int| 0 <= k < rings@.len() ==> sane_ring(#[trigger] rings@[k]),
            forall|k: int| 0 <= k < items@.len() ==> #[trigger] items@[k] == keyed(rings@)[k],
        decreases rings.len() - items.len(),
    {
        let ring = rings[items.len()];
        assert(sane_ring(rings@[items@.len() as int]));
        items.push((ring.saturation as u64, ring));
    }
    assert(items@ =~= keyed(rings@));
    let sorted = sort_descending(&items);
    proof {
        law_descending_sorts(items@);
    }
    let mut found: Vec<Ring> = Vec::new();
    while found.len() < sorted.len()
        invariant
            sorted@.to_multiset() == items@.to_multiset(),
            items@ == keyed(rings@),
            forall|k: int| 0 <= k < rings@.len() ==> sane_ring(#[trigger] rings@[k]),
            found@.len() <= sorted@.len(),
            forall|k: int| 0 <= k < found@.len() ==> #[trigger] found@[k] == sorted@[k].1,
            forall|k: int| 0 <= k < found@.len() ==> sane_ring(#[trigger] found@[k]),
        decreases sorted.len() - found.len(),
    {
        let entry = sorted[found.len()];
        proof {
            broadcast use vstd::seq_lib::group_to_multiset_ensures;

            assert(sorted@.contains(entry));
            assert(items@.to_multiset().count(entry) > 0);
            assert(items@.contains(entry));
            let k = choose|k: int| 0 <= k < items@.len() && items@[k] == entry;
            assert(sane_ring(rings@[k]));
        }
        found.push(entry.1);
    }
    assert(found@ =~= unkeyed(sorted@));
    found
}

proof fn lemma_light_down(picture: Picture, x: int, y: int, n: int)
    ensures
        0 <= light_down(picture, x, y, n).count,
        0 <= light_down(picture, x, y, n).sum <= 255 * light_down(picture, x, y, n).count,
    decreases n,
{
    if n > 0 {
        lemma_light_down(picture, x, y, n - 1);
    }
}

proof fn lemma_light_across(picture: Picture, x: int, y: int, n: int)
    ensures
        0 <= light_across(picture, x, y, n).count,
        0 <= light_across(picture, x, y, n).sum <= 255 * light_across(picture, x, y, n).count,
    decreases n,
{
    if n > 0 {
        lemma_light_across(picture, x, y, n - 1);
    }
}

proof fn lemma_light_of_edges(picture: Picture, left: int, step: int, top: Line, bottom: Line, n: int)
    ensures
        0 <= light_of_edges(picture, left, step, top, bottom, n).count,
        0 <= light_of_edges(picture, left, step, top, bottom, n).sum <= 255 * light_of_edges(
            picture,
            left,
            step,
            top,
            bottom,
            n,
        ).count,
    decreases n,
{
    if n > 0 {
        let x = left + (n - 1) * step;
        lemma_light_of_edges(picture, left, step, top, bottom, n - 1);
        lemma_light_down(picture, x, top.at as int, top.thickness as int);
        lemma_light_down(picture, x, bottom.at as int, bottom.thickness as int);
    }
}

proof fn lemma_light_of_sides(picture: Picture, top: int, step: int, left: Line, right: Line, n: int)
    ensures
        0 <= light_of_sides(picture, top, step, left, right, n).count,
        0 <= light_of_sides(picture, top, step, left, right, n).sum <= 255 * light_of_sides(
            picture,
            top,
            step,
            left,
            right,
            n,
        ).count,
    decreases n,
{
    if n > 0 {
        let y = top + (n - 1) * step;
        lemma_light_of_sides(picture, top, step, left, right, n - 1);
        lemma_light_across(picture, left.at as int, y, left.thickness as int);
        lemma_light_across(picture, right.at as int, y, right.thickness as int);
    }
}

/// The mean vividness of a ring is that of some colour.
proof fn lemma_mean_is_a_vividness(picture: Picture, left: Line, top: Line, right: Line, bottom: Line)
    ensures
        0 <= mean(ring_light(picture, left, top, right, bottom)) <= 255,
{
    let (across, down) = (right.at - left.at, bottom.at - top.at);
    lemma_light_of_edges(
        picture,
        left.at as int,
        stroke_step(across),
        top,
        bottom,
        ticks(across, stroke_step(across)),
    );
    lemma_light_of_sides(
        picture,
        top.at as int,
        stroke_step(down),
        left,
        right,
        ticks(down, stroke_step(down)),
    );
    let light = ring_light(picture, left, top, right, bottom);
    if light.count > 0 {
        assert(0 <= light.sum / light.count <= 255) by (nonlinear_arith)
            requires
                0 <= light.sum <= 255 * light.count,
                light.count >= 1,
        ;
    }
}

proof fn lemma_weakest(held: Seq<Ring>, n: int)
    requires
        1 <= n <= held.len(),
    ensures
        0 <= weakest(held, n) < n,
    decreases n,
{
    if n > 1 {
        lemma_weakest(held, n - 1);
    }
}

proof fn lemma_rings_from_saturation(
    picture: Picture,
    horizontals: Seq<Line>,
    verticals: Seq<Line>,
    held: Seq<Ring>,
    i: int,
    j: int,
)
    requires
        forall|k: int| 0 <= k < held.len() ==> 0 <= (#[trigger] held[k]).saturation <= 255,
        held.len() <= MAX_RINGS,
    ensures
        ({
            let all = rings_from(picture, horizontals, verticals, held, i, j);
            &&& all.len() <= MAX_RINGS
            &&& forall|k: int| 0 <= k < all.len() ==> 0 <= (#[trigger] all[k]).saturation <= 255
        }),
    decreases horizontals.len() - i, horizontals.len() - j,
{
    if i < 0 || i >= horizontals.len() {
    } else if j >= horizontals.len() {
        lemma_rings_from_saturation(picture, horizontals, verticals, held, i + 1, i + 2);
    } else {
        let (top, bottom) = (horizontals[i], horizontals[j]);
        let found = ring_between(picture, verticals, top, bottom);
        if found is Some {
            let left = ring_side(picture, verticals, top, bottom, top.from as int)->0;
            let right = ring_side(picture, verticals, top, bottom, top.to as int)->0;
            lemma_mean_is_a_vividness(picture, left, top, right, bottom);
        }
        if held.len() > 0 {
            lemma_weakest(held, held.len() as int);
        }
        lemma_rings_from_saturation(
            picture,
            horizontals,
            verticals,
            with_ring(held, found),
            i,
            j + 1,
        );
    }
}

/// A picture offers no more rings than the cap, and they come the most vivid
/// first.
pub proof fn law_rings_come_most_vivid_first(picture: Picture)
    ensures
        rings(picture).len() <= MAX_RINGS,
        forall|i: int, j: int|
            0 <= i <= j < rings(picture).len() ==> rings(picture)[i].saturation >= rings(
                picture,
            )[j].saturation,
{
    let (horizontals, verticals) = (lines_from(picture, true, 0), lines_from(picture, false, 0));
    lemma_rings_from_saturation(picture, horizontals, verticals, Seq::empty(), 0, 1);
    let all = rings_from(picture, horizontals, verticals, Seq::empty(), 0, 1);
    let unsorted = keyed(all);
    law_descending_sorts(unsorted);
    let sorted = descending(unsorted);
    broadcast use vstd::seq_lib::group_to_multiset_ensures;

    assert forall|i: int, j: int| 0 <= i <= j < rings(picture).len() implies rings(
        picture,
    )[i].saturation >= rings(picture)[j].saturation by {
        assert(sorted[i].0 >= sorted[j].0);
        assert(sorted.contains(sorted[i]) && sorted.contains(sorted[j]));
        assert(unsorted.to_multiset().count(sorted[i]) > 0);
        assert(unsorted.to_multiset().count(sorted[j]) > 0);
        assert(unsorted.contains(sorted[i]) && unsorted.contains(sorted[j]));
        let a = choose|k: int| 0 <= k < unsorted.len() && unsorted[k] == sorted[i];
        let b = choose|k: int| 0 <= k < unsorted.len() && unsorted[k] == sorted[j];
        assert(0 <= all[a].saturation <= 255 && 0 <= all[b].saturation <= 255);
    }
}

/// A stroke lies inside a picture that is `outer` across its direction and
/// `inner` along it, all of its thickness included.
pub open spec fn stroke_fits(line: Line, outer: int, inner: int) -> bool {
    line.fits(outer, inner) && line.at + line.thickness < outer
}

proof fn lemma_count_has(marks: Seq<int>, from: int, to: int, thickness: int)
    requires
        0 <= from <= to <= marks.len(),
    ensures
        thickness_count(marks, from, to, thickness) >= 0,
        thickness_count(marks, from, to, thickness) > 0 <==> exists|i: int|
            from <= i < to && #[trigger] marks[i] == thickness,
    decreases to - from,
{
    if from < to {
        lemma_count_has(marks, from, to - 1, thickness);
        if thickness_count(marks, from, to, thickness) > 0 {
            if marks[to - 1] != thickness {
                let i = choose|i: int| from <= i < to - 1 && #[trigger] marks[i] == thickness;
                assert(marks[i] == thickness);
            }
        }
    }
}

proof fn lemma_dominant_occurs(marks: Seq<int>, from: int, to: int, thickness: int, witness: int)
    requires
        0 <= from <= witness < to <= marks.len(),
        1 <= marks[witness] <= thickness,
    ensures
        1 <= dominant(marks, from, to, thickness) <= thickness,
        thickness_count(marks, from, to, dominant(marks, from, to, thickness)) > 0,
    decreases thickness,
{
    lemma_count_has(marks, from, to, thickness);
    lemma_count_has(marks, from, to, marks[witness]);
    if thickness > 1 {
        if marks[witness] < thickness {
            lemma_dominant_occurs(marks, from, to, thickness - 1, witness);
        } else {
            lemma_dominant_bounds(marks, from, to, thickness - 1);
        }
    }
}

proof fn lemma_dominant_bounds(marks: Seq<int>, from: int, to: int, thickness: int)
    requires
        1 <= thickness,
    ensures
        1 <= dominant(marks, from, to, thickness) <= thickness,
    decreases thickness,
{
    if thickness > 1 {
        lemma_dominant_bounds(marks, from, to, thickness - 1);
    }
}

proof fn lemma_lines_along_fit(picture: Picture, horizontal: bool, at: int, along: int)
    requires
        picture.wf(),
        0 <= at < rows(picture, horizontal),
        0 <= along <= rows(picture, !horizontal),
    ensures
        forall|i: int|
            #![trigger lines_along(marks_along(picture, horizontal, at), at, along)[i]]
            0 <= i < lines_along(marks_along(picture, horizontal, at), at, along).len()
                ==> stroke_fits(
                lines_along(marks_along(picture, horizontal, at), at, along)[i],
                rows(picture, horizontal),
                rows(picture, !horizontal),
            ),
    decreases rows(picture, !horizontal) - along,
{
    let marks = marks_along(picture, horizontal, at);
    let (outer, inner) = (rows(picture, horizontal), rows(picture, !horizontal));
    lemma_sides_bounded(picture);
    assert(marks.len() == inner);
    if along < inner {
        if marks[along] <= 0 {
            lemma_lines_along_fit(picture, horizontal, at, along + 1);
            assert(lines_along(marks, at, along) == lines_along(marks, at, along + 1));
        } else {
            let end = run_end(marks, along);
            lemma_run_end(marks, along);
            lemma_lines_along_fit(picture, horizontal, at, end);
            lemma_mark_inside(picture, horizontal, at, along);
            lemma_dominant_occurs(marks, along, end, MAX_BORDER as int, along);
            let thickness = dominant(marks, along, end, MAX_BORDER as int);
            lemma_count_has(marks, along, end, thickness);
            let i = choose|i: int| along <= i < end && #[trigger] marks[i] == thickness;
            lemma_mark_inside(picture, horizontal, at, i);
            let rest = lines_along(marks, at, end);
            let all = lines_along(marks, at, along);
            assert forall|k: int| #![trigger all[k]] 0 <= k < all.len() implies stroke_fits(
                all[k],
                outer,
                inner,
            ) by {
                if end - 1 - along >= min_run(marks) {
                    if k > 0 {
                        assert(all[k] == rest[k - 1]);
                    } else {
                        assert(all[k] == run_line(marks, at, along, end));
                    }
                } else {
                    assert(all[k] == rest[k]);
                }
            }
        }
    }
}

proof fn lemma_mark_inside(picture: Picture, horizontal: bool, at: int, along: int)
    requires
        picture.wf(),
        0 <= at < rows(picture, horizontal),
        0 <= along < rows(picture, !horizontal),
        marks_along(picture, horizontal, at)[along] > 0,
    ensures
        marks_along(picture, horizontal, at)[along] <= MAX_BORDER,
        at + marks_along(picture, horizontal, at)[along] < rows(picture, horizontal),
{
    if horizontal {
        lemma_mark_bounds(column(picture, along), 1, at);
    } else {
        lemma_mark_bounds(row(picture, along), 1, at);
    }
}

proof fn lemma_lines_fit(picture: Picture, horizontal: bool, at: int)
    requires
        picture.wf(),
        0 <= at,
    ensures
        forall|i: int|
            #![trigger lines_from(picture, horizontal, at)[i]]
            0 <= i < lines_from(picture, horizontal, at).len() ==> stroke_fits(
                lines_from(picture, horizontal, at)[i],
                rows(picture, horizontal),
                rows(picture, !horizontal),
            ),
    decreases rows(picture, horizontal) - at,
{
    if at < rows(picture, horizontal) {
        lemma_lines_along_fit(picture, horizontal, at, 0);
        lemma_lines_fit(picture, horizontal, at + 1);
        let own = lines_along(marks_along(picture, horizontal, at), at, 0);
        let rest = lines_from(picture, horizontal, at + 1);
        let all = lines_from(picture, horizontal, at);
        assert forall|i: int| #![trigger all[i]] 0 <= i < all.len() implies stroke_fits(
            all[i],
            rows(picture, horizontal),
            rows(picture, !horizontal),
        ) by {
            if i < own.len() {
                assert(all[i] == own[i]);
            } else {
                assert(all[i] == rest[i - own.len()]);
            }
        }
    }
}

proof fn lemma_nearest_is_one(
    verticals: Seq<Line>,
    n: int,
    x: int,
    from: int,
    to: int,
    min_span: int,
    tolerance: int,
)
    requires
        0 <= n <= verticals.len(),
    ensures
        nearest_side(verticals, n, x, from, to, min_span, tolerance) matches Some(line)
            ==> verticals.contains(line),
    decreases n,
{
    if n > 0 {
        lemma_nearest_is_one(verticals, n - 1, x, from, to, min_span, tolerance);
        assert(verticals.contains(verticals[n - 1]));
    }
}

/// A ring lies inside the picture, and both of its sides are longer than the
/// shortest side.
pub open spec fn ring_fits(picture: Picture, ring: Ring) -> bool {
    &&& 0 <= ring.rect.origin.x
    &&& 0 <= ring.rect.origin.y
    &&& ring.rect.right_edge() <= picture.width
    &&& ring.rect.bottom_edge() <= picture.height
    &&& ring.rect.size.width > shortest_side(picture)
    &&& ring.rect.size.height > shortest_side(picture)
}

/// No two rings have the same rectangle, and each of them fits the picture.
pub open spec fn rings_apart(picture: Picture, held: Seq<Ring>) -> bool {
    &&& forall|i: int| 0 <= i < held.len() ==> ring_fits(picture, #[trigger] held[i])
    &&& forall|i: int, j: int|
        0 <= i < j < held.len() ==> (#[trigger] held[i]).rect != (#[trigger] held[j]).rect
}

proof fn lemma_ring_between_fits(picture: Picture, verticals: Seq<Line>, top: Line, bottom: Line)
    requires
        picture.wf(),
        stroke_fits(top, picture.height, picture.width),
        stroke_fits(bottom, picture.height, picture.width),
        forall|i: int|
            0 <= i < verticals.len() ==> stroke_fits(
                #[trigger] verticals[i],
                picture.width,
                picture.height,
            ),
    ensures
        ring_between(picture, verticals, top, bottom) matches Some(ring) ==> ring_fits(
            picture,
            ring,
        ),
{
    lemma_sides_bounded(picture);
    let height = bottom.at - top.at;
    let span = max_int(shortest_side(picture), height * RING_SIDE_PCT / 100);
    let reach = max_int(height / 8, MAX_BORDER + 2);
    let n = verticals.len() as int;
    lemma_nearest_is_one(
        verticals,
        n,
        top.from as int,
        top.at as int,
        bottom.at as int,
        span,
        reach,
    );
    lemma_nearest_is_one(
        verticals,
        n,
        top.to as int,
        top.at as int,
        bottom.at as int,
        span,
        reach,
    );
    if ring_between(picture, verticals, top, bottom) is Some {
        let left = ring_side(picture, verticals, top, bottom, top.from as int)->Some_0;
        let right = ring_side(picture, verticals, top, bottom, top.to as int)->Some_0;
        let l = choose|i: int| 0 <= i < verticals.len() && verticals[i] == left;
        let r = choose|i: int| 0 <= i < verticals.len() && verticals[i] == right;
        assert(stroke_fits(verticals[l], picture.width, picture.height));
        assert(stroke_fits(verticals[r], picture.width, picture.height));
        assert(shortest_side(picture) >= 0);
    }
}

proof fn lemma_rings_apart(
    picture: Picture,
    horizontals: Seq<Line>,
    verticals: Seq<Line>,
    held: Seq<Ring>,
    i: int,
    j: int,
)
    requires
        picture.wf(),
        0 <= j,
        rings_apart(picture, held),
        forall|k: int|
            0 <= k < horizontals.len() ==> stroke_fits(
                #[trigger] horizontals[k],
                picture.height,
                picture.width,
            ),
        forall|k: int|
            0 <= k < verticals.len() ==> stroke_fits(
                #[trigger] verticals[k],
                picture.width,
                picture.height,
            ),
    ensures
        rings_apart(picture, rings_from(picture, horizontals, verticals, held, i, j)),
    decreases horizontals.len() - i, horizontals.len() - j,
{
    if i < 0 || i >= horizontals.len() {
    } else if j >= horizontals.len() {
        lemma_rings_apart(picture, horizontals, verticals, held, i + 1, i + 2);
    } else {
        let found = ring_between(picture, verticals, horizontals[i], horizontals[j]);
        lemma_ring_between_fits(picture, verticals, horizontals[i], horizontals[j]);
        if held.len() > 0 {
            lemma_weakest(held, held.len() as int);
        }
        assert(rings_apart(picture, with_ring(held, found)));
        lemma_rings_apart(picture, horizontals, verticals, with_ring(held, found), i, j + 1);
    }
}

/// Every ring is another window of the picture: no two share a rectangle, each
/// lies inside the picture, and its sides exceed the shortest side.
pub proof fn law_rings_are_different_windows_of_the_picture(picture: Picture)
    requires
        picture.wf(),
    ensures
        rings_apart(picture, rings(picture)),
{
    broadcast use vstd::seq_lib::group_to_multiset_ensures;

    let (horizontals, verticals) = (lines_from(picture, true, 0), lines_from(picture, false, 0));
    lemma_lines_fit(picture, true, 0);
    lemma_lines_fit(picture, false, 0);
    lemma_rings_apart(picture, horizontals, verticals, Seq::empty(), 0, 1);
    let all = rings_from(picture, horizontals, verticals, Seq::empty(), 0, 1);
    let unsorted = keyed(all);
    law_descending_sorts(unsorted);
    let sorted = descending(unsorted);
    assert(unsorted.no_duplicates()) by {
        assert forall|i: int, j: int|
            0 <= i < unsorted.len() && 0 <= j < unsorted.len() && i != j implies unsorted[i]
            != unsorted[j] by {
            if i < j {
                assert(all[i].rect != all[j].rect);
            } else {
                assert(all[j].rect != all[i].rect);
            }
        }
    }
    unsorted.lemma_multiset_has_no_duplicates();
    sorted.lemma_multiset_has_no_duplicates_conv();
    let last = rings(picture);
    assert forall|i: int| 0 <= i < sorted.len() implies unsorted.contains(#[trigger] sorted[i]) by {
        assert(sorted.contains(sorted[i]));
        assert(unsorted.to_multiset().count(sorted[i]) > 0);
    }
    assert forall|i: int| 0 <= i < last.len() implies ring_fits(picture, #[trigger] last[i]) by {
        assert(unsorted.contains(sorted[i]));
        let a = choose|k: int| 0 <= k < unsorted.len() && unsorted[k] == sorted[i];
        assert(ring_fits(picture, all[a]));
    }
    assert forall|i: int, j: int| 0 <= i < j < last.len() implies (#[trigger] last[i]).rect != (
    #[trigger] last[j]).rect by {
        assert(unsorted.contains(sorted[i]) && unsorted.contains(sorted[j]));
        let a = choose|k: int| 0 <= k < unsorted.len() && unsorted[k] == sorted[i];
        let b = choose|k: int| 0 <= k < unsorted.len() && unsorted[k] == sorted[j];
        assert(sorted[i] != sorted[j]);
        if a < b {
            assert(all[a].rect != all[b].rect);
        } else {
            assert(all[b].rect != all[a].rect);
        }
    }
}

} // verus!
