//! The downscaled picture of one output that window detection reads.

use vstd::prelude::*;

use crate::geometry::{min_int, Point, Rect, Size};
use crate::model::{Frame, OutputSnapshot};

verus! {

/// Pixel budget of an analysis frame.  The borders and gaps that separate
/// windows are a few device pixels wide, so the budget is set by area: a 1080p
/// output is analysed 1:1 and a 4K one at 2:1.
pub const MAX_ANALYSIS_PIXELS: u64 = 4_000_000;

/// One pixel.
#[derive(Clone, Copy, Debug, PartialEq, Eq, Structural)]
pub struct Rgba {
    pub r: u8,
    pub g: u8,
    pub b: u8,
    pub a: u8,
}

/// A picture as a mathematical value: its pixels row by row.
pub struct Picture {
    pub width: int,
    pub height: int,
    pub pixels: Seq<Rgba>,
}

impl Picture {
    pub open spec fn wf(self) -> bool {
        &&& self.width >= 1
        &&& self.height >= 1
        &&& self.pixels.len() == self.width * self.height
        &&& self.width * self.height <= MAX_ANALYSIS_PIXELS
    }

    pub open spec fn has(self, x: int, y: int) -> bool {
        0 <= x < self.width && 0 <= y < self.height
    }

    pub open spec fn at(self, x: int, y: int) -> Rgba {
        self.pixels[y * self.width + x]
    }
}

pub open spec fn abs_diff(a: int, b: int) -> int {
    if a >= b {
        a - b
    } else {
        b - a
    }
}

pub open spec fn max3(a: int, b: int, c: int) -> int {
    if a >= b && a >= c {
        a
    } else if b >= c {
        b
    } else {
        c
    }
}

pub open spec fn min3(a: int, b: int, c: int) -> int {
    if a <= b && a <= c {
        a
    } else if b <= c {
        b
    } else {
        c
    }
}

/// The largest difference on a colour channel.
pub open spec fn delta(a: Rgba, b: Rgba) -> int {
    max3(
        abs_diff(a.r as int, b.r as int),
        abs_diff(a.g as int, b.g as int),
        abs_diff(a.b as int, b.b as int),
    )
}

/// How far apart a pixel's strongest and weakest colour channels are.
pub open spec fn vividness(color: Rgba) -> int {
    max3(color.r as int, color.g as int, color.b as int) - min3(
        color.r as int,
        color.g as int,
        color.b as int,
    )
}

/// The sum of the differences on the colour channels.
pub open spec fn distance(a: Rgba, b: Rgba) -> int {
    abs_diff(a.r as int, b.r as int) + abs_diff(a.g as int, b.g as int) + abs_diff(
        a.b as int,
        b.b as int,
    )
}

fn byte_diff(a: u8, b: u8) -> (d: i32)
    ensures
        d == abs_diff(a as int, b as int),
        0 <= d <= 255,
{
    if a >= b {
        a as i32 - b as i32
    } else {
        b as i32 - a as i32
    }
}

pub fn channel_delta(a: Rgba, b: Rgba) -> (d: i32)
    ensures
        d == delta(a, b),
        0 <= d <= 255,
{
    let (r, g, b): (i32, i32, i32) = (byte_diff(a.r, b.r), byte_diff(a.g, b.g), byte_diff(a.b, b.b));
    if r >= g && r >= b {
        r
    } else if g >= b {
        g
    } else {
        b
    }
}

pub fn saturation(color: Rgba) -> (s: i32)
    ensures
        s == vividness(color),
        0 <= s <= 255,
{
    let (r, g, b): (i32, i32, i32) = (color.r as i32, color.g as i32, color.b as i32);
    let high: i32 = if r >= g && r >= b {
        r
    } else if g >= b {
        g
    } else {
        b
    };
    let low: i32 = if r <= g && r <= b {
        r
    } else if g <= b {
        g
    } else {
        b
    };
    high - low
}

/// Sum-of-channels distance, the tolerance every colour mask test uses.
pub fn color_distance(a: Rgba, b: Rgba) -> (d: i32)
    ensures
        d == distance(a, b),
{
    byte_diff(a.r, b.r) + byte_diff(a.g, b.g) + byte_diff(a.b, b.b)
}

pub open spec fn rect_area(rect: Rect) -> int {
    rect.size.width * rect.size.height
}

pub fn area(rect: Rect) -> (area: u64)
    ensures
        area == rect_area(rect),
{
    proof {
        let (w, h) = (rect.size.width, rect.size.height);
        assert(0 <= w * h <= u32::MAX * u32::MAX) by (nonlinear_arith)
            requires
                w <= u32::MAX,
                h <= u32::MAX,
        ;
    }
    rect.size.width as u64 * rect.size.height as u64
}

pub open spec fn ceil_div(a: int, b: int) -> int {
    (a + b - 1) / b
}

/// The factor brings the frame inside the pixel budget, and no smaller one
/// does.
pub open spec fn fits_budget(size: Size, factor: int) -> bool {
    ceil_div(size.width as int, factor) * ceil_div(size.height as int, factor)
        <= MAX_ANALYSIS_PIXELS
}

pub open spec fn is_analysis_factor(size: Size, factor: int) -> bool {
    &&& 1 <= factor <= u32::MAX
    &&& fits_budget(size, factor)
    &&& forall|smaller: int| 1 <= smaller < factor ==> !#[trigger] fits_budget(size, smaller)
}

/// The downsampling factor of a frame of this size.
pub open spec fn factor_of(size: Size) -> int {
    choose|factor: int| is_analysis_factor(size, factor)
}

proof fn lemma_factor_unique(size: Size, factor: int)
    requires
        is_analysis_factor(size, factor),
    ensures
        factor_of(size) == factor,
{
    let chosen = factor_of(size);
    assert(is_analysis_factor(size, chosen));
    if chosen < factor {
        assert(!fits_budget(size, chosen));
    } else if factor < chosen {
        assert(!fits_budget(size, factor));
    }
}

fn div_up(a: u32, b: u32) -> (q: u32)
    requires
        b > 0,
    ensures
        q == ceil_div(a as int, b as int),
        q <= a,
{
    proof {
        let s = (a + b - 1) as int;
        vstd::arithmetic::div_mod::lemma_fundamental_div_mod(s, b as int);
        let q = s / b as int;
        assert(q <= a) by (nonlinear_arith)
            requires
                b * q <= a + b - 1,
                b >= 1,
                a >= 0,
        ;
        assert(q >= 0) by (nonlinear_arith)
            requires
                q == s / b as int,
                s >= 0,
                b >= 1,
        ;
    }
    ((a as u64 + b as u64 - 1) / b as u64) as u32
}

/// Downsampling factor that keeps an output inside the pixel budget.
pub fn analysis_factor(size: Size) -> (factor: u32)
    ensures
        factor == factor_of(size),
        is_analysis_factor(size, factor as int),
{
    let mut factor: u32 = 1;
    loop
        invariant
            factor >= 1,
            forall|smaller: int|
                1 <= smaller < factor ==> !#[trigger] fits_budget(size, smaller),
        ensures
            is_analysis_factor(size, factor as int),
        decreases u32::MAX - factor,
    {
        let (w, h): (u32, u32) = (div_up(size.width, factor), div_up(size.height, factor));
        proof {
            assert(0 <= w * h <= u32::MAX * u32::MAX) by (nonlinear_arith)
                requires
                    w <= u32::MAX,
                    h <= u32::MAX,
            ;
        }
        if w as u64 * h as u64 <= MAX_ANALYSIS_PIXELS {
            break;
        }
        assert(!fits_budget(size, factor as int));
        proof {
            if factor == u32::MAX {
                assert((size.width + factor - 1) / (factor as int) <= 1) by (nonlinear_arith)
                    requires
                        size.width <= factor,
                        factor >= 1,
                ;
                assert((size.height + factor - 1) / (factor as int) <= 1) by (nonlinear_arith)
                    requires
                        size.height <= factor,
                        factor >= 1,
                ;
                assert(w * h <= 1) by (nonlinear_arith)
                    requires
                        0 <= w <= 1,
                        0 <= h <= 1,
                ;
            }
        }
        factor = factor + 1;
    }
    proof {
        lemma_factor_unique(size, factor as int);
    }
    factor
}

/// A side of the analysis frame.
pub open spec fn scaled_side(side: u32, factor: int) -> int {
    if side as int / factor >= 1 {
        side as int / factor
    } else {
        1
    }
}

pub open spec fn blank() -> Rgba {
    Rgba { r: 0, g: 0, b: 0, a: 0 }
}

/// The pixel of `frame` at `(x, y)`; blank where the position does not fit the
/// coordinate type.
pub open spec fn source_pixel(frame: &Frame, x: int, y: int) -> Rgba {
    if x <= i32::MAX && y <= i32::MAX {
        Rgba {
            r: frame.channel(x, y, 0),
            g: frame.channel(x, y, 1),
            b: frame.channel(x, y, 2),
            a: frame.channel(x, y, 3),
        }
    } else {
        blank()
    }
}

/// The downscaled picture: pixel `(x, y)` is the first one of its source
/// block.
pub open spec fn picture_of(frame: &Frame, factor: int) -> Picture {
    let width = scaled_side(frame.dim().width, factor);
    let height = scaled_side(frame.dim().height, factor);
    Picture {
        width,
        height,
        pixels: Seq::new(
            (width * height) as nat,
            |i: int| source_pixel(frame, (i % width) * factor, (i / width) * factor),
        ),
    }
}

/// What one output looks like to the detectors.
pub open spec fn picture_of_output(output: &OutputSnapshot) -> Picture {
    picture_of(output.shown(), factor_of(output.shown().dim()))
}

/// Downscaled copy of one output's frame.
pub struct AnalysisFrame {
    pub width: u32,
    pub height: u32,
    pub pixels: Vec<Rgba>,
}

impl AnalysisFrame {
    pub open spec fn view(&self) -> Picture {
        Picture { width: self.width as int, height: self.height as int, pixels: self.pixels@ }
    }

    pub open spec fn wf(&self) -> bool {
        self@.wf()
    }

    /// The picture of `frame` under its own analysis factor.
    pub fn sample(frame: &Frame, factor: u32) -> (analysis: Self)
        requires
            frame.dim().width > 0,
            frame.dim().height > 0,
            is_analysis_factor(frame.dim(), factor as int),
        ensures
            analysis@ == picture_of(frame, factor as int),
            analysis.wf(),
    {
        let source = frame.size();
        let width: u32 = if source.width / factor >= 1 {
            source.width / factor
        } else {
            1
        };
        let height: u32 = if source.height / factor >= 1 {
            source.height / factor
        } else {
            1
        };
        proof {
            lemma_scaled_within(source.width, factor as int);
            lemma_scaled_within(source.height, factor as int);
            let (cw, ch) = (
                ceil_div(source.width as int, factor as int),
                ceil_div(source.height as int, factor as int),
            );
            assert(width * height <= cw * ch && width * height >= 0) by (nonlinear_arith)
                requires
                    0 <= width <= cw,
                    0 <= height <= ch,
            ;
        }
        let mut pixels: Vec<Rgba> = Vec::new();
        let ghost goal = picture_of(frame, factor as int);
        let mut y: u32 = 0;
        while y < height
            invariant
                source == frame.dim(),
                width == scaled_side(source.width, factor as int),
                height == scaled_side(source.height, factor as int),
                goal == picture_of(frame, factor as int),
                1 <= width,
                1 <= height,
                1 <= factor,
                source.width > 0,
                source.height > 0,
                0 <= width * height <= MAX_ANALYSIS_PIXELS,
                y <= height,
                pixels@.len() == y * width,
                y * width <= width * height,
                forall|i: int| 0 <= i < pixels@.len() ==> pixels@[i] == goal.pixels[i],
            decreases height - y,
        {
            let mut x: u32 = 0;
            proof {
                lemma_block_start(source.height, factor as int, y as int);
                assert((y + 1) * width <= width * height) by (nonlinear_arith)
                    requires
                        y + 1 <= height,
                        width >= 0,
                ;
                assert((y + 1) * width == y * width + width) by (nonlinear_arith);
            }
            let sy: u32 = y * factor;
            while x < width
                invariant
                    source == frame.dim(),
                    width == scaled_side(source.width, factor as int),
                    goal == picture_of(frame, factor as int),
                    1 <= width,
                    1 <= factor,
                    source.width > 0,
                    x <= width,
                    sy == y * factor,
                    sy < source.height,
                    pixels@.len() == y * width + x,
                    y * width + width <= width * height,
                    goal.pixels.len() == width * height,
                    forall|i: int| 0 <= i < pixels@.len() ==> pixels@[i] == goal.pixels[i],
                decreases width - x,
            {
                proof {
                    lemma_block_start(source.width, factor as int, x as int);
                    vstd::arithmetic::div_mod::lemma_fundamental_div_mod_converse(
                        y * width + x,
                        width as int,
                        y as int,
                        x as int,
                    );
                }
                let sx: u32 = x * factor;
                let pixel: Rgba = if sx <= i32::MAX as u32 && sy <= i32::MAX as u32 {
                    match frame.pixel(Point::new(sx as i32, sy as i32)) {
                        Some(rgba) => {
                            assert(rgba@[0] == frame.channel(sx as int, sy as int, 0));
                            assert(rgba@[1] == frame.channel(sx as int, sy as int, 1));
                            assert(rgba@[2] == frame.channel(sx as int, sy as int, 2));
                            assert(rgba@[3] == frame.channel(sx as int, sy as int, 3));
                            Rgba { r: rgba[0], g: rgba[1], b: rgba[2], a: rgba[3] }
                        },
                        None => Rgba { r: 0, g: 0, b: 0, a: 0 },
                    }
                } else {
                    Rgba { r: 0, g: 0, b: 0, a: 0 }
                };
                assert(pixel == goal.pixels[y * width + x]);
                pixels.push(pixel);
                x = x + 1;
            }
            y = y + 1;
        }
        proof {
            assert(height * width == width * height) by (nonlinear_arith);
            assert(pixels@ =~= goal.pixels);
        }
        AnalysisFrame { width, height, pixels }
    }

    /// The pixel at `(x, y)`.
    pub fn get(&self, x: u32, y: u32) -> (pixel: Option<Rgba>)
        requires
            self.wf(),
        ensures
            pixel == if self@.has(x as int, y as int) {
                Some(self@.at(x as int, y as int))
            } else {
                None
            },
    {
        if x >= self.width || y >= self.height {
            return None;
        }
        let index: usize = self.mask_index(x, y);
        Some(self.pixels[index])
    }

    /// The row-by-row number of the pixel at `(x, y)`.
    pub fn mask_index(&self, x: u32, y: u32) -> (index: usize)
        requires
            self.wf(),
            x < self.width,
            y < self.height,
        ensures
            index == y * self.width + x,
            index < self.pixels@.len(),
    {
        proof {
            lemma_index_in_picture(self@, x as int, y as int);
        }
        (y * self.width + x) as usize
    }

    pub fn area(&self) -> (area: u64)
        requires
            self.wf(),
        ensures
            area == self.width * self.height,
    {
        proof {
            assert(0 <= self.width * self.height) by (nonlinear_arith);
        }
        self.width as u64 * self.height as u64
    }
}

/// A pixel inside a picture has a number inside its pixel list.
pub proof fn lemma_index_in_picture(picture: Picture, x: int, y: int)
    requires
        picture.wf(),
        picture.has(x, y),
    ensures
        0 <= y * picture.width,
        0 <= y * picture.width + x < picture.pixels.len(),
        picture.width <= MAX_ANALYSIS_PIXELS,
        picture.height <= MAX_ANALYSIS_PIXELS,
{
    let (w, h) = (picture.width, picture.height);
    assert(y * w + w <= w * h) by (nonlinear_arith)
        requires
            0 <= y,
            y + 1 <= h,
            0 <= w,
    ;
    assert(0 <= y * w) by (nonlinear_arith)
        requires
            0 <= y,
            0 <= w,
    ;
    lemma_sides_bounded(picture);
}

/// Each side of a picture stays inside the pixel budget.
pub proof fn lemma_sides_bounded(picture: Picture)
    requires
        picture.wf(),
    ensures
        picture.width <= MAX_ANALYSIS_PIXELS,
        picture.height <= MAX_ANALYSIS_PIXELS,
{
    let (w, h) = (picture.width, picture.height);
    assert(w <= w * h && h <= w * h) by (nonlinear_arith)
        requires
            w >= 1,
            h >= 1,
    ;
}

/// A scaled side is no longer than the number of source blocks.
proof fn lemma_scaled_within(side: u32, factor: int)
    requires
        side > 0,
        factor >= 1,
    ensures
        1 <= scaled_side(side, factor) <= ceil_div(side as int, factor),
{
    vstd::arithmetic::div_mod::lemma_div_is_ordered(side as int, side + factor - 1, factor);
    vstd::arithmetic::div_mod::lemma_div_is_ordered(factor, side + factor - 1, factor);
    assert(factor / factor == 1) by (nonlinear_arith)
        requires
            factor >= 1,
    ;
}

/// The first pixel of every source block lies inside the source.
proof fn lemma_block_start(side: u32, factor: int, at: int)
    requires
        side > 0,
        factor >= 1,
        0 <= at < scaled_side(side, factor),
    ensures
        0 <= at * factor < side,
{
    let q = side as int / factor;
    vstd::arithmetic::div_mod::lemma_fundamental_div_mod(side as int, factor);
    if q >= 1 {
        assert(at * factor <= (q - 1) * factor && 0 <= at * factor && (q - 1) * factor == q * factor
            - factor && factor * q == q * factor) by (nonlinear_arith)
            requires
                0 <= at <= q - 1,
                factor >= 1,
        ;
    } else {
        assert(at * factor == 0) by (nonlinear_arith)
            requires
                at == 0,
        ;
    }
}

/// A global logical point in the analysis coordinates of an output; `None`
/// when it is not on that output.
pub open spec fn local_point(output: &OutputSnapshot, point: Point) -> Option<Point> {
    let picture = picture_of_output(output);
    let factor = factor_of(output.shown().dim());
    let x = (point.x - output.area().origin.x) * output.density() / factor;
    let y = (point.y - output.area().origin.y) * output.density() / factor;
    if output.area().covers(point.x as int, point.y as int) && x < picture.width && y
        < picture.height {
        Some(Point { x: x as i32, y: y as i32 })
    } else {
        None
    }
}

proof fn lemma_local_fits(offset: int, side: u32, scale: u32, factor: int)
    requires
        0 <= offset < side,
        side * scale <= i32::MAX,
        factor >= 1,
    ensures
        0 <= offset * scale <= i32::MAX,
        0 <= offset * scale / factor <= i32::MAX,
{
    assert(0 <= offset * scale <= side * scale) by (nonlinear_arith)
        requires
            0 <= offset < side,
            scale >= 0,
    ;
    let n = offset * scale;
    assert(0 <= n / factor <= n) by (nonlinear_arith)
        requires
            n >= 0,
            factor >= 1,
    ;
}

/// Converts a global logical point into one output's analysis coordinates;
/// `None` when the point is not on that output.
pub fn to_local(
    analysis: &AnalysisFrame,
    factor: u32,
    output: &OutputSnapshot,
    point: Point,
) -> (local: Option<Point>)
    requires
        analysis@ == picture_of_output(output),
        factor == factor_of(output.shown().dim()),
        factor >= 1,
    ensures
        local == local_point(output, point),
        local matches Some(at) ==> analysis@.has(at.x as int, at.y as int),
{
    let bounds = output.geometry();
    let scale: u32 = output.scale();
    if !bounds.contains(point) {
        return None;
    }
    let dx: i64 = point.x as i64 - bounds.origin.x as i64;
    let dy: i64 = point.y as i64 - bounds.origin.y as i64;
    proof {
        lemma_local_fits(dx as int, bounds.size.width, scale, factor as int);
        lemma_local_fits(dy as int, bounds.size.height, scale, factor as int);
    }
    let x: i64 = dx * scale as i64 / factor as i64;
    let y: i64 = dy * scale as i64 / factor as i64;
    if x < analysis.width as i64 && y < analysis.height as i64 {
        Some(Point::new(x as i32, y as i32))
    } else {
        None
    }
}

/// A device length in logical pixels, rounded to the nearest.
pub open spec fn rounded(device: int, scale: int) -> int {
    let q = (device + scale / 2) / scale;
    if q > i32::MAX {
        0
    } else {
        q
    }
}

pub open spec fn at_least_1(n: int) -> int {
    if n >= 1 {
        n
    } else {
        1
    }
}

/// An analysis rectangle in the global logical space of its output, clamped to
/// the output.
pub open spec fn global_rect(output: &OutputSnapshot, rect: Rect) -> Option<Rect> {
    let factor = factor_of(output.shown().dim());
    let scale = output.density() as int;
    let source = output.shown().dim();
    let x = output.area().origin.x + rounded(
        min_int(rect.origin.x * factor, source.width as int),
        scale,
    );
    let y = output.area().origin.y + rounded(
        min_int(rect.origin.y * factor, source.height as int),
        scale,
    );
    let width = at_least_1(
        rounded(min_int(rect.size.width * factor, source.width as int), scale),
    );
    let height = at_least_1(
        rounded(min_int(rect.size.height * factor, source.height as int), scale),
    );
    if x > i32::MAX || y > i32::MAX {
        None
    } else {
        (Rect {
            origin: Point { x: x as i32, y: y as i32 },
            size: Size { width: width as u32, height: height as u32 },
        }).common(output.area())
    }
}

fn round_div(value: u64, scale: u32) -> (q: i32)
    requires
        scale > 0,
        value <= u32::MAX,
    ensures
        q == rounded(value as int, scale as int),
        q >= 0,
{
    let q: u64 = (value + (scale / 2) as u64) / scale as u64;
    if q > i32::MAX as u64 {
        0
    } else {
        q as i32
    }
}

fn device_length(length: u32, factor: u32, limit: u32) -> (device: u64)
    ensures
        device == min_int(length * factor, limit as int),
        device <= u32::MAX,
{
    proof {
        assert(0 <= length * factor <= u32::MAX * u32::MAX) by (nonlinear_arith)
            requires
                length <= u32::MAX,
                factor <= u32::MAX,
        ;
    }
    let device: u64 = length as u64 * factor as u64;
    if device <= limit as u64 {
        device
    } else {
        limit as u64
    }
}

/// Converts an analysis-space rectangle into the output's global logical
/// geometry, clamped to the output; `None` when nothing survives the clamping.
pub fn to_global(output: &OutputSnapshot, factor: u32, rect: Rect) -> (geometry: Option<Rect>)
    requires
        factor == factor_of(output.shown().dim()),
        rect.origin.x >= 0,
        rect.origin.y >= 0,
    ensures
        geometry == global_rect(output, rect),
        geometry matches Some(inside) ==> inside.within(output.area()) && inside.size.width > 0
            && inside.size.height > 0,
{
    let bounds = output.geometry();
    let scale: u32 = output.scale();
    let source = output.frame().size();
    let device_x: u64 = device_length(rect.origin.x as u32, factor, source.width);
    let device_y: u64 = device_length(rect.origin.y as u32, factor, source.height);
    let device_width: u64 = device_length(rect.size.width, factor, source.width);
    let device_height: u64 = device_length(rect.size.height, factor, source.height);
    let x: i64 = bounds.origin.x as i64 + round_div(device_x, scale) as i64;
    let y: i64 = bounds.origin.y as i64 + round_div(device_y, scale) as i64;
    let width: i32 = round_div(device_width, scale);
    let height: i32 = round_div(device_height, scale);
    if x > i32::MAX as i64 || y > i32::MAX as i64 {
        return None;
    }
    let geometry = Rect::new(
        x as i32,
        y as i32,
        if width >= 1 {
            width as u32
        } else {
            1
        },
        if height >= 1 {
            height as u32
        } else {
            1
        },
    );
    geometry.clamp_to(bounds)
}

/// Wherever a detector looks, what it reports lies inside the output it looked
/// at, and is not empty.
pub proof fn law_global_rectangles_stay_on_their_output(output: &OutputSnapshot, rect: Rect)
    requires
        output.wf(),
        rect.origin.x >= 0,
        rect.origin.y >= 0,
    ensures
        global_rect(output, rect) matches Some(inside) ==> inside.within(output.area())
            && inside.size.width > 0 && inside.size.height > 0,
{
}

/// Whether a rectangle, if there is one, covers the pixel at `(x, y)`.
pub open spec fn some_covers(rect: Option<Rect>, x: int, y: int) -> bool {
    match rect {
        Some(rect) => rect.covers(x, y),
        None => false,
    }
}

/// A block of `factor` pixels holds exactly the positions whose quotient is its
/// number.
proof fn lemma_block_of(n: int, factor: int, at: int)
    requires
        factor >= 1,
    ensures
        at <= n / factor <==> at * factor <= n,
        n / factor < at <==> n < at * factor,
        (n / factor) * factor <= n < (n / factor) * factor + factor,
{
    let q = n / factor;
    vstd::arithmetic::div_mod::lemma_fundamental_div_mod(n, factor);
    assert(factor * q == q * factor) by (nonlinear_arith);
    if at <= q {
        assert(at * factor <= q * factor) by (nonlinear_arith)
            requires
                at <= q,
                factor >= 1,
        ;
    } else {
        assert(at * factor >= q * factor + factor) by (nonlinear_arith)
            requires
                at >= q + 1,
                factor >= 1,
        ;
    }
}

/// Rounding to logical pixels moves a device length by half a logical pixel at
/// most.
proof fn lemma_rounded_near(device: int, scale: int)
    requires
        0 <= device <= i32::MAX,
        scale >= 1,
    ensures
        0 <= rounded(device, scale) <= i32::MAX,
        -scale <= 2 * (scale * rounded(device, scale) - device) <= scale,
        scale == 1 ==> rounded(device, scale) == device,
{
    let total = device + scale / 2;
    let q = total / scale;
    vstd::arithmetic::div_mod::lemma_fundamental_div_mod(total, scale);
    assert(q >= 0) by (nonlinear_arith)
        requires
            q == total / scale,
            total >= 0,
            scale >= 1,
    ;
    if q > device {
        assert(scale * q >= scale * device + scale) by (nonlinear_arith)
            requires
                q >= device + 1,
                scale >= 1,
        ;
        assert(scale * device >= device) by (nonlinear_arith)
            requires
                device >= 0,
                scale >= 1,
        ;
    }
    assert(rounded(device, scale) == q);
    if scale == 1 {
        assert(1 * q == q) by (nonlinear_arith);
    }
}

/// The analysis pixel of a point on an output is the one whose source block the
/// point's first device pixel lies in, and it shows the first pixel of that
/// block. A point has none exactly when it is off the output, or in the strip
/// at the far edges that is too narrow for another block.
pub proof fn law_a_point_is_looked_up_where_it_was_sampled(
    output: &OutputSnapshot,
    factor: int,
    point: Point,
)
    requires
        output.wf(),
        is_analysis_factor(output.shown().dim(), factor),
    ensures
        ({
            let picture = picture_of_output(output);
            let x = (point.x - output.area().origin.x) * output.density();
            let y = (point.y - output.area().origin.y) * output.density();
            match local_point(output, point) {
                Some(at) => {
                    &&& output.area().covers(point.x as int, point.y as int)
                    &&& picture.has(at.x as int, at.y as int)
                    &&& at.x * factor <= x < (at.x + 1) * factor
                    &&& at.y * factor <= y < (at.y + 1) * factor
                    &&& picture.at(at.x as int, at.y as int) == source_pixel(
                        output.shown(),
                        at.x * factor,
                        at.y * factor,
                    )
                },
                None => output.area().covers(point.x as int, point.y as int) ==> x
                    >= picture.width * factor || y >= picture.height * factor,
            }
        }),
{
    lemma_factor_unique(output.shown().dim(), factor);
    let picture = picture_of_output(output);
    let x = (point.x - output.area().origin.x) * output.density();
    let y = (point.y - output.area().origin.y) * output.density();
    if output.area().covers(point.x as int, point.y as int) {
        let (dx, dy) = (point.x - output.area().origin.x, point.y - output.area().origin.y);
        lemma_local_fits(dx, output.area().size.width, output.density(), factor);
        lemma_local_fits(dy, output.area().size.height, output.density(), factor);
        lemma_block_of(x, factor, x / factor);
        lemma_block_of(y, factor, y / factor);
        lemma_block_of(x, factor, picture.width);
        lemma_block_of(y, factor, picture.height);
        if let Some(at) = local_point(output, point) {
            let (px, py) = (at.x as int, at.y as int);
            assert(px == x / factor && py == y / factor);
            assert((px + 1) * factor == px * factor + factor) by (nonlinear_arith);
            assert((py + 1) * factor == py * factor + factor) by (nonlinear_arith);
            let w = picture.width;
            assert(py * w + px < w * picture.height && 0 <= py * w) by (nonlinear_arith)
                requires
                    0 <= px < w,
                    0 <= py,
                    py + 1 <= picture.height,
            ;
            vstd::arithmetic::div_mod::lemma_fundamental_div_mod_converse(py * w + px, w, py, px);
        }
    }
}

/// At one device pixel to a logical one, a rectangle of the analysis picture
/// becomes exactly the source blocks of its pixels, as far as they lie on the
/// output: a logical point belongs to the result when the block it lies in
/// belongs to the rectangle.
pub proof fn law_a_rectangle_becomes_the_blocks_it_was_seen_in(
    output: &OutputSnapshot,
    factor: int,
    rect: Rect,
    x: int,
    y: int,
)
    requires
        output.wf(),
        output.density() == 1,
        is_analysis_factor(output.shown().dim(), factor),
        rect.origin.x >= 0,
        rect.origin.y >= 0,
        rect.size.width > 0,
        rect.size.height > 0,
        rect.right_edge() * factor <= output.shown().dim().width <= i32::MAX,
        rect.bottom_edge() * factor <= output.shown().dim().height <= i32::MAX,
    ensures
        some_covers(
            global_rect(output, rect),
            output.area().origin.x + x,
            output.area().origin.y + y,
        ) <==> output.area().covers(output.area().origin.x + x, output.area().origin.y + y)
            && rect.covers(x / factor, y / factor),
        rect.right_edge() * factor <= output.area().size.width && rect.bottom_edge() * factor
            <= output.area().size.height ==> {
            &&& global_rect(output, rect) matches Some(global)
            &&& global.origin.x == output.area().origin.x + rect.origin.x * factor
            &&& global.origin.y == output.area().origin.y + rect.origin.y * factor
            &&& global.size.width == rect.size.width * factor
            &&& global.size.height == rect.size.height * factor
        },
{
    lemma_factor_unique(output.shown().dim(), factor);
    lemma_device_side(rect.origin.x as int, rect.size.width as int, factor);
    lemma_device_side(rect.origin.y as int, rect.size.height as int, factor);
    lemma_rounded_near(rect.origin.x * factor, 1);
    lemma_rounded_near(rect.origin.y * factor, 1);
    lemma_rounded_near(rect.size.width * factor, 1);
    lemma_rounded_near(rect.size.height * factor, 1);
    lemma_block_of(x, factor, rect.origin.x as int);
    lemma_block_of(y, factor, rect.origin.y as int);
    lemma_block_of(x, factor, rect.right_edge());
    lemma_block_of(y, factor, rect.bottom_edge());
}

proof fn lemma_device_side(from: int, length: int, factor: int)
    requires
        from >= 0,
        length > 0,
        factor >= 1,
    ensures
        (from + length) * factor == from * factor + length * factor,
        0 <= from * factor <= (from + length) * factor,
        1 <= length * factor <= (from + length) * factor,
{
    assert((from + length) * factor == from * factor + length * factor) by (nonlinear_arith);
    assert(0 <= from * factor) by (nonlinear_arith)
        requires
            from >= 0,
            factor >= 1,
    ;
    assert(1 <= length * factor) by (nonlinear_arith)
        requires
            length >= 1,
            factor >= 1,
    ;
}

/// The two maps undo each other: at one device pixel to a logical one, the
/// first and the last point of what a rectangle becomes are looked up at the
/// rectangle's own first and last pixel.
pub proof fn law_a_rectangle_is_found_again_in_the_picture(
    output: &OutputSnapshot,
    factor: int,
    rect: Rect,
)
    requires
        output.wf(),
        output.density() == 1,
        is_analysis_factor(output.shown().dim(), factor),
        rect.origin.x >= 0,
        rect.origin.y >= 0,
        rect.size.width > 0,
        rect.size.height > 0,
        rect.right_edge() * factor <= output.shown().dim().width <= i32::MAX,
        rect.bottom_edge() * factor <= output.shown().dim().height <= i32::MAX,
        rect.right_edge() * factor <= output.area().size.width,
        rect.bottom_edge() * factor <= output.area().size.height,
    ensures
        global_rect(output, rect) matches Some(global) && {
            &&& local_point(output, global.origin) == Some(rect.origin)
            &&& local_point(
                output,
                Point {
                    x: (global.right_edge() - 1) as i32,
                    y: (global.bottom_edge() - 1) as i32,
                },
            ) == Some(
                Point { x: (rect.right_edge() - 1) as i32, y: (rect.bottom_edge() - 1) as i32 },
            )
        },
{
    lemma_factor_unique(output.shown().dim(), factor);
    law_a_rectangle_becomes_the_blocks_it_was_seen_in(output, factor, rect, 0, 0);
    lemma_device_side(rect.origin.x as int, rect.size.width as int, factor);
    lemma_device_side(rect.origin.y as int, rect.size.height as int, factor);
    let (left, top) = (rect.origin.x * factor, rect.origin.y * factor);
    let (right, bottom) = (rect.right_edge() * factor - 1, rect.bottom_edge() * factor - 1);
    lemma_block_of(left, factor, rect.origin.x as int);
    lemma_block_of(left, factor, rect.origin.x + 1);
    lemma_block_of(top, factor, rect.origin.y as int);
    lemma_block_of(top, factor, rect.origin.y + 1);
    lemma_block_of(right, factor, rect.right_edge() - 1);
    lemma_block_of(right, factor, rect.right_edge());
    lemma_block_of(bottom, factor, rect.bottom_edge() - 1);
    lemma_block_of(bottom, factor, rect.bottom_edge());
    lemma_next_block(rect.origin.x as int, factor);
    lemma_next_block(rect.origin.y as int, factor);
    lemma_next_block(rect.right_edge() - 1, factor);
    lemma_next_block(rect.bottom_edge() - 1, factor);
    lemma_block_of(output.shown().dim().width as int, factor, rect.right_edge());
    lemma_block_of(output.shown().dim().height as int, factor, rect.bottom_edge());
}

proof fn lemma_next_block(at: int, factor: int)
    ensures
        (at + 1) * factor == at * factor + factor,
{
    assert((at + 1) * factor == at * factor + factor) by (nonlinear_arith);
}

/// On an output of any density, what a rectangle becomes starts within half a
/// logical pixel of the rectangle's first source block and ends within one and
/// a half of its last; and it becomes something whenever it starts more than
/// half a logical pixel before the output's far edges.
pub proof fn law_a_rectangle_lands_on_its_blocks(
    output: &OutputSnapshot,
    factor: int,
    rect: Rect,
)
    requires
        output.wf(),
        is_analysis_factor(output.shown().dim(), factor),
        rect.origin.x >= 0,
        rect.origin.y >= 0,
        rect.size.width > 0,
        rect.size.height > 0,
        rect.right_edge() * factor <= output.shown().dim().width <= i32::MAX,
        rect.bottom_edge() * factor <= output.shown().dim().height <= i32::MAX,
        rect.right_edge() * factor <= output.density() * output.area().size.width,
        rect.bottom_edge() * factor <= output.density() * output.area().size.height,
    ensures
        global_rect(output, rect) matches Some(global) ==> {
            let scale = output.density() as int;
            let left = scale * (global.origin.x - output.area().origin.x) - rect.origin.x * factor;
            let top = scale * (global.origin.y - output.area().origin.y) - rect.origin.y * factor;
            let right = scale * (global.right_edge() - output.area().origin.x) - rect.right_edge()
                * factor;
            let bottom = scale * (global.bottom_edge() - output.area().origin.y)
                - rect.bottom_edge() * factor;
            &&& -scale <= 2 * left <= scale
            &&& -scale <= 2 * top <= scale
            &&& -3 * scale <= 2 * right <= 3 * scale
            &&& -3 * scale <= 2 * bottom <= 3 * scale
        },
        2 * (rect.origin.x * factor) + output.density() < 2 * (output.density()
            * output.area().size.width) && 2 * (rect.origin.y * factor) + output.density() < 2 * (
        output.density() * output.area().size.height) ==> global_rect(output, rect) is Some,
{
    let scale = output.density() as int;
    lemma_factor_unique(output.shown().dim(), factor);
    lemma_device_side(rect.origin.x as int, rect.size.width as int, factor);
    lemma_device_side(rect.origin.y as int, rect.size.height as int, factor);
    lemma_landing(
        rect.origin.x * factor,
        rect.size.width * factor,
        scale,
        output.area().size.width as int,
    );
    lemma_landing(
        rect.origin.y * factor,
        rect.size.height * factor,
        scale,
        output.area().size.height as int,
    );
}

/// Where a stretch of device pixels lands on a side of `limit` logical ones.
proof fn lemma_landing(from: int, length: int, scale: int, limit: int)
    requires
        0 <= from,
        1 <= length,
        from + length <= i32::MAX,
        scale >= 1,
        limit >= 1,
        from + length <= scale * limit,
    ensures
        0 <= rounded(from, scale) <= i32::MAX,
        0 <= rounded(length, scale) <= i32::MAX,
        -scale <= 2 * (scale * rounded(from, scale) - from) <= scale,
        2 * from + scale < 2 * (scale * limit) ==> rounded(from, scale) < limit,
        ({
            let end = min_int(
                rounded(from, scale) + at_least_1(rounded(length, scale)),
                limit,
            );
            -3 * scale <= 2 * (scale * end - (from + length)) <= 3 * scale
        }),
{
    lemma_rounded_near(from, scale);
    lemma_rounded_near(length, scale);
    let start = rounded(from, scale);
    let extent = at_least_1(rounded(length, scale));
    assert(scale * (start + extent) == scale * start + scale * extent) by (nonlinear_arith);
    if rounded(length, scale) < 1 {
        assert(rounded(length, scale) == 0);
        assert(scale * 0 == 0 && scale * 1 == scale) by (nonlinear_arith);
    }
    if start + extent > limit {
        assert(scale * limit <= scale * (start + extent)) by (nonlinear_arith)
            requires
                limit <= start + extent,
                scale >= 1,
        ;
    }
    if start >= limit {
        assert(scale * start >= scale * limit) by (nonlinear_arith)
            requires
                start >= limit,
                scale >= 1,
        ;
    }
}

/// The picture that is looked at is the frame itself where the frame is within
/// the pixel budget; otherwise it is sampled no more coarsely than the budget
/// asks.
pub proof fn law_a_small_frame_is_looked_at_whole(size: Size, factor: int)
    requires
        is_analysis_factor(size, factor),
    ensures
        size.width * size.height <= MAX_ANALYSIS_PIXELS <==> factor == 1,
        ((size.width + factor - 1) / factor) * ((size.height + factor - 1) / factor)
            <= MAX_ANALYSIS_PIXELS,
        factor > 1 ==> ((size.width + factor - 2) / (factor - 1)) * ((size.height + factor - 2) / (
        factor - 1)) > MAX_ANALYSIS_PIXELS,
{
    assert(size.width as int / 1 == size.width && size.height as int / 1 == size.height);
    assert(fits_budget(size, 1) <==> size.width * size.height <= MAX_ANALYSIS_PIXELS);
    if factor > 1 {
        assert(!fits_budget(size, factor - 1));
    }
}

/// Every pixel of the picture shows the first pixel of its source block, and
/// the picture has as many blocks each way as fit the frame, one at least.
pub proof fn law_the_picture_samples_every_block(frame: &Frame, factor: int, x: int, y: int)
    requires
        frame.dim().width > 0,
        frame.dim().height > 0,
        factor >= 1,
        picture_of(frame, factor).has(x, y),
    ensures
        picture_of(frame, factor).at(x, y) == source_pixel(frame, x * factor, y * factor),
        0 <= x * factor < frame.dim().width,
        0 <= y * factor < frame.dim().height,
        factor <= frame.dim().width ==> picture_of(frame, factor).width * factor
            <= frame.dim().width < (picture_of(frame, factor).width + 1) * factor,
        factor <= frame.dim().height ==> picture_of(frame, factor).height * factor
            <= frame.dim().height < (picture_of(frame, factor).height + 1) * factor,
        factor > frame.dim().width ==> picture_of(frame, factor).width == 1,
        factor > frame.dim().height ==> picture_of(frame, factor).height == 1,
{
    let picture = picture_of(frame, factor);
    let (w, h) = (picture.width, picture.height);
    assert(y * w + x < w * h && 0 <= y * w) by (nonlinear_arith)
        requires
            0 <= x < w,
            0 <= y,
            y + 1 <= h,
    ;
    vstd::arithmetic::div_mod::lemma_fundamental_div_mod_converse(y * w + x, w, y, x);
    lemma_block_start(frame.dim().width, factor, x);
    lemma_block_start(frame.dim().height, factor, y);
    lemma_block_of(frame.dim().width as int, factor, 1);
    lemma_block_of(frame.dim().height as int, factor, 1);
    lemma_next_block(frame.dim().width as int / factor, factor);
    lemma_next_block(frame.dim().height as int / factor, factor);
}

/// The distances between colours: the largest of the channels' differences is
/// one of them and none exceeds it, their sum is nought only between equal
/// colours, and a colour is as vivid as its two farthest channels are apart.
/// None of them looks at the alpha channel or at the order of the colours.
pub proof fn law_colours_are_compared_by_their_channels(a: Rgba, b: Rgba)
    ensures
        -delta(a, b) <= a.r - b.r <= delta(a, b),
        -delta(a, b) <= a.g - b.g <= delta(a, b),
        -delta(a, b) <= a.b - b.b <= delta(a, b),
        ({
            ||| delta(a, b) == a.r - b.r
            ||| delta(a, b) == b.r - a.r
            ||| delta(a, b) == a.g - b.g
            ||| delta(a, b) == b.g - a.g
            ||| delta(a, b) == a.b - b.b
            ||| delta(a, b) == b.b - a.b
        }),
        delta(a, b) == delta(b, a),
        delta(a, b) <= distance(a, b) <= 3 * delta(a, b),
        distance(a, b) == distance(b, a),
        distance(a, b) == 0 <==> a.r == b.r && a.g == b.g && a.b == b.b,
        a.g == b.g && a.b == b.b ==> distance(a, b) == delta(a, b),
        a.r == b.r && a.b == b.b ==> distance(a, b) == delta(a, b),
        a.r == b.r && a.g == b.g ==> distance(a, b) == delta(a, b),
        -vividness(a) <= a.r - a.g <= vividness(a),
        -vividness(a) <= a.g - a.b <= vividness(a),
        -vividness(a) <= a.b - a.r <= vividness(a),
        ({
            ||| vividness(a) == a.r - a.g
            ||| vividness(a) == a.g - a.r
            ||| vividness(a) == a.g - a.b
            ||| vividness(a) == a.b - a.g
            ||| vividness(a) == a.b - a.r
            ||| vividness(a) == a.r - a.b
        }),
{
}

/// The area of a rectangle is the number of pixels it covers: its columns in
/// each of its rows.
pub proof fn law_the_area_of_a_rectangle(rect: Rect)
    ensures
        rect_area(rect) == rect.size.width * rect.size.height,
{
}

} // verus!
