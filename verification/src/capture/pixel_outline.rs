//! Windows drawn with an outline of one accent colour.
//!
//! The colours that meet a contrasting neighbour are ranked by how often they
//! do and how vivid they are; for each of the best, the connected regions of
//! that colour are tried as hollow rectangles.

use vstd::prelude::*;

use crate::binary64::{nearest_even, round_even};
use crate::geometry::{min_int, Point, Rect, Size};
use crate::sorting::{descending, law_descending_sorts, sort_descending};

use super::pixel_components::{component_boxes, find_component_boxes, inside_picture};
use super::pixel_frame::{
    area, channel_delta, color_distance, delta, distance, lemma_index_in_picture,
    lemma_sides_bounded, rect_area, saturation, vividness, AnalysisFrame, Picture, Rgba,
    MAX_ANALYSIS_PIXELS,
};

verus! {

/// Neighbour channel delta that marks both pixels as content edges.
pub const EDGE_DIFF: i32 = 24;

/// Sum-of-channel distance for a pixel to join a candidate outline colour.
pub const COLOR_TOLERANCE: i32 = 45;

/// Smallest outline window side, as a percent of the analysis frame.
pub const OUTLINE_MIN_DIM_PCT: u32 = 15;

/// Smallest share of the output an accent outline must cover to be believed as
/// a window rather than as a rectangle of matching colours in its content.
pub const OUTLINE_MIN_AREA_PCT: u64 = 25;

/// Probed border thickness range, in analysis pixels.
pub const MAX_BORDER: u32 = 8;

/// Outline colours tried per output.
pub const OUTLINE_COLORS: usize = 8;

/// Number of buckets the colour cube is cut into, sixteen per channel.
pub const BUCKETS: usize = 4096;

// ---------------------------------------------------------------------------
// Edge colours
// ---------------------------------------------------------------------------
/// Two opaque neighbours contrast.
pub open spec fn edge_pair(picture: Picture, x: int, y: int, nx: int, ny: int) -> bool {
    &&& picture.has(nx, ny)
    &&& picture.at(x, y).a != 0
    &&& picture.at(nx, ny).a != 0
    &&& delta(picture.at(x, y), picture.at(nx, ny)) >= EDGE_DIFF
}

/// Both colours of a contrasting pair.
pub open spec fn pair_colors(picture: Picture, x: int, y: int, nx: int, ny: int) -> Seq<Rgba> {
    if edge_pair(picture, x, y, nx, ny) {
        seq![picture.at(x, y), picture.at(nx, ny)]
    } else {
        Seq::empty()
    }
}

/// The colours of the contrasting pairs that the first `n` pixels, row by row,
/// form with their right and lower neighbours.
pub open spec fn edge_colors(picture: Picture, n: int) -> Seq<Rgba>
    decreases n,
{
    if n <= 0 {
        Seq::empty()
    } else {
        let (x, y) = ((n - 1) % picture.width, (n - 1) / picture.width);
        edge_colors(picture, n - 1) + pair_colors(picture, x, y, x + 1, y) + pair_colors(
            picture,
            x,
            y,
            x,
            y + 1,
        )
    }
}

/// All edge colours of a picture.
pub open spec fn all_edge_colors(picture: Picture) -> Seq<Rgba> {
    edge_colors(picture, picture.width * picture.height)
}

/// The bucket of the colour cube a colour falls into.
pub open spec fn bucket(color: Rgba) -> int {
    (color.r as int / 16) * 256 + (color.g as int / 16) * 16 + color.b as int / 16
}

/// How many of the colours fall into a bucket.
pub open spec fn bucket_count(colors: Seq<Rgba>, b: int) -> int
    decreases colors.len(),
{
    if colors.len() == 0 {
        0
    } else {
        bucket_count(colors.drop_last(), b) + if bucket(colors.last()) == b {
            1int
        } else {
            0
        }
    }
}

/// The colour channel numbered `c`.
pub open spec fn channel_of(color: Rgba, c: int) -> int {
    if c == 0 {
        color.r as int
    } else if c == 1 {
        color.g as int
    } else {
        color.b as int
    }
}

/// The sum of one channel over the colours in a bucket.
pub open spec fn bucket_sum(colors: Seq<Rgba>, b: int, c: int) -> int
    decreases colors.len(),
{
    if colors.len() == 0 {
        0
    } else {
        bucket_sum(colors.drop_last(), b, c) + if bucket(colors.last()) == b {
            channel_of(colors.last(), c)
        } else {
            0
        }
    }
}

/// The mean colour of a bucket.
pub open spec fn bucket_average(colors: Seq<Rgba>, b: int) -> Rgba {
    let count = if bucket_count(colors, b) == 0 {
        1
    } else {
        bucket_count(colors, b)
    };
    Rgba {
        r: (bucket_sum(colors, b, 0) / count) as u8,
        g: (bucket_sum(colors, b, 1) / count) as u8,
        b: (bucket_sum(colors, b, 2) / count) as u8,
        a: 255,
    }
}

/// How much a bucket deserves to be tried: often met, and vivid.
pub open spec fn bucket_score(colors: Seq<Rgba>, b: int) -> int {
    bucket_count(colors, b) * (24 + vividness(bucket_average(colors, b)))
}

/// The non-empty ones of the first `n` buckets, with their scores.
pub open spec fn scored_buckets(colors: Seq<Rgba>, n: int) -> Seq<(u64, usize)>
    decreases n,
{
    if n <= 0 {
        Seq::empty()
    } else if bucket_count(colors, n - 1) > 0 {
        scored_buckets(colors, n - 1).push(
            (bucket_score(colors, n - 1) as u64, (n - 1) as usize),
        )
    } else {
        scored_buckets(colors, n - 1)
    }
}

/// The mean colours of the best buckets, at most `limit` of them, best first.
pub open spec fn accent_colors(colors: Seq<Rgba>, limit: int) -> Seq<Rgba> {
    let ranked = descending(scored_buckets(colors, BUCKETS as int));
    Seq::new(
        min_int(ranked.len() as int, limit) as nat,
        |i: int| bucket_average(colors, ranked[i].1 as int),
    )
}

/// One bucket of a [`Histogram`].
#[derive(Clone, Copy)]
pub struct Bucket {
    pub count: u32,
    pub red: u64,
    pub green: u64,
    pub blue: u64,
}

/// Quantised colour histogram over edge pixels; both pixels of every differing
/// pair are recorded, so border pixels count against content and wallpaper.
pub struct Histogram {
    buckets: Vec<Bucket>,
    /// The number of colours recorded.
    recorded: u64,
}

impl Histogram {
    /// The histogram is that of these colours.
    pub closed spec fn of(&self, colors: Seq<Rgba>) -> bool {
        &&& self.buckets@.len() == BUCKETS
        &&& self.recorded == colors.len()
        &&& forall|b: int|
            0 <= b < BUCKETS ==> {
                &&& (#[trigger] self.buckets@[b]).count == bucket_count(colors, b)
                &&& self.buckets@[b].red == bucket_sum(colors, b, 0)
                &&& self.buckets@[b].green == bucket_sum(colors, b, 1)
                &&& self.buckets@[b].blue == bucket_sum(colors, b, 2)
            }
    }

    fn empty() -> (histogram: Self)
        ensures
            histogram.of(Seq::empty()),
    {
        let mut buckets: Vec<Bucket> = Vec::new();
        while buckets.len() < BUCKETS
            invariant
                buckets.len() <= BUCKETS,
                forall|b: int|
                    0 <= b < buckets@.len() ==> (#[trigger] buckets@[b]) == (Bucket {
                        count: 0,
                        red: 0,
                        green: 0,
                        blue: 0,
                    }),
            decreases BUCKETS - buckets.len(),
        {
            buckets.push(Bucket { count: 0, red: 0, green: 0, blue: 0 });
        }
        Histogram { buckets, recorded: 0 }
    }

    fn record(&mut self, pixel: Rgba, Ghost(colors): Ghost<Seq<Rgba>>)
        requires
            old(self).of(colors),
            colors.len() < u32::MAX,
        ensures
            final(self).of(colors.push(pixel)),
    {
        let at: usize = bucket_of(pixel);
        let held = self.buckets[at];
        let ghost old_buckets = self.buckets@;
        proof {
            lemma_bucket_bounds(colors, at as int);
        }
        self.buckets.set(
            at,
            Bucket {
                count: held.count + 1,
                red: held.red + pixel.r as u64,
                green: held.green + pixel.g as u64,
                blue: held.blue + pixel.b as u64,
            },
        );
        self.recorded = self.recorded + 1;
        proof {
            let more = colors.push(pixel);
            assert(more.drop_last() =~= colors);
            assert forall|b: int| 0 <= b < BUCKETS implies {
                &&& (#[trigger] self.buckets@[b]).count == bucket_count(more, b)
                &&& self.buckets@[b].red == bucket_sum(more, b, 0)
                &&& self.buckets@[b].green == bucket_sum(more, b, 1)
                &&& self.buckets@[b].blue == bucket_sum(more, b, 2)
            } by {
                assert(old_buckets[b].count == bucket_count(colors, b));
            }
        }
    }

    /// Records the pair if its pixels contrast.
    fn record_pair(
        &mut self,
        frame: &AnalysisFrame,
        x: u32,
        y: u32,
        nx: u32,
        ny: u32,
        Ghost(colors): Ghost<Seq<Rgba>>,
    )
        requires
            frame.wf(),
            frame@.has(x as int, y as int),
            old(self).of(colors),
            colors.len() + 2 <= u32::MAX,
        ensures
            final(self).of(
                colors + pair_colors(frame@, x as int, y as int, nx as int, ny as int),
            ),
    {
        let ghost pair = pair_colors(frame@, x as int, y as int, nx as int, ny as int);
        if let (Some(pixel), Some(neighbor)) = (frame.get(x, y), frame.get(nx, ny)) {
            if pixel.a != 0 && neighbor.a != 0 && channel_delta(pixel, neighbor) >= EDGE_DIFF {
                self.record(pixel, Ghost(colors));
                self.record(neighbor, Ghost(colors.push(pixel)));
                assert(colors + pair =~= colors.push(pixel).push(neighbor));
                return;
            }
        }
        assert(colors + pair =~= colors);
    }

    /// The histogram of the colours at the content edges of the picture.
    pub(crate) fn collect_edge_colors(frame: &AnalysisFrame) -> (histogram: Self)
        requires
            frame.wf(),
        ensures
            histogram.of(all_edge_colors(frame@)),
    {
        let mut histogram = Histogram::empty();
        let ghost picture = frame@;
        let ghost w = picture.width;
        proof {
            lemma_sides_bounded(picture);
        }
        let mut y: u32 = 0;
        while y < frame.height
            invariant
                frame.wf(),
                picture == frame@,
                w == frame.width,
                picture.width <= MAX_ANALYSIS_PIXELS,
                picture.height <= MAX_ANALYSIS_PIXELS,
                y <= frame.height,
                histogram.of(edge_colors(picture, y * w)),
                edge_colors(picture, y * w).len() <= 4 * (y * w),
            decreases frame.height - y,
        {
            let mut x: u32 = 0;
            while x < frame.width
                invariant
                    frame.wf(),
                    picture == frame@,
                    w == frame.width,
                    picture.width <= MAX_ANALYSIS_PIXELS,
                    picture.height <= MAX_ANALYSIS_PIXELS,
                    x <= frame.width,
                    y < frame.height,
                    histogram.of(edge_colors(picture, y * w + x)),
                    edge_colors(picture, y * w + x).len() <= 4 * (y * w + x),
                decreases frame.width - x,
            {
                let ghost colors = edge_colors(picture, y * w + x);
                proof {
                    lemma_index_in_picture(picture, x as int, y as int);
                    vstd::arithmetic::div_mod::lemma_fundamental_div_mod_converse(
                        y * w + x,
                        w,
                        y as int,
                        x as int,
                    );
                }
                histogram.record_pair(frame, x, y, x + 1, y, Ghost(colors));
                let ghost more = colors + pair_colors(
                    picture,
                    x as int,
                    y as int,
                    x + 1,
                    y as int,
                );
                histogram.record_pair(frame, x, y, x, y + 1, Ghost(more));
                x = x + 1;
            }
            proof {
                assert((y + 1) * w == y * w + w) by (nonlinear_arith);
            }
            y = y + 1;
        }
        proof {
            assert(frame.height * w == w * frame.height) by (nonlinear_arith);
        }
        histogram
    }

    /// The number of colours recorded, two per contrasting pair.
    pub(crate) fn recorded(&self, Ghost(colors): Ghost<Seq<Rgba>>) -> (recorded: u64)
        requires
            self.of(colors),
        ensures
            recorded == colors.len(),
    {
        self.recorded
    }

    fn average(&self, at: usize, Ghost(colors): Ghost<Seq<Rgba>>) -> (color: Rgba)
        requires
            self.of(colors),
            at < BUCKETS,
        ensures
            color == bucket_average(colors, at as int),
    {
        let held = self.buckets[at];
        let count: u64 = if held.count == 0 {
            1
        } else {
            held.count as u64
        };
        proof {
            lemma_bucket_bounds(colors, at as int);
            lemma_mean_fits(held.red as int, count as int);
            lemma_mean_fits(held.green as int, count as int);
            lemma_mean_fits(held.blue as int, count as int);
        }
        Rgba {
            r: (held.red / count) as u8,
            g: (held.green / count) as u8,
            b: (held.blue / count) as u8,
            a: 255,
        }
    }

    /// Colours ranked by `count x saturation`, capped at `limit`.
    pub(crate) fn take_candidates(&self, limit: usize, Ghost(colors): Ghost<Seq<Rgba>>) -> (accents:
        Vec<Rgba>)
        requires
            self.of(colors),
            colors.len() <= u32::MAX,
        ensures
            accents@ == accent_colors(colors, limit as int),
    {
        let mut scored: Vec<(u64, usize)> = Vec::new();
        let mut at: usize = 0;
        while at < BUCKETS
            invariant
                self.of(colors),
                colors.len() <= u32::MAX,
                at <= BUCKETS,
                scored@ == scored_buckets(colors, at as int),
                forall|i: int| 0 <= i < scored@.len() ==> (#[trigger] scored@[i]).1 < BUCKETS,
            decreases BUCKETS - at,
        {
            let count: u32 = self.buckets[at].count;
            if count > 0 {
                let color = self.average(at, Ghost(colors));
                let vivid: u64 = (24 + saturation(color)) as u64;
                proof {
                    assert(0 <= count * vivid <= u32::MAX * 300) by (nonlinear_arith)
                        requires
                            count <= u32::MAX,
                            vivid <= 300,
                    ;
                }
                scored.push((count as u64 * vivid, at));
            }
            at = at + 1;
        }
        let ranked = sort_descending(&scored);
        proof {
            law_descending_sorts(scored@);
        }
        let mut accents: Vec<Rgba> = Vec::new();
        let ghost goal = accent_colors(colors, limit as int);
        while accents.len() < limit && accents.len() < ranked.len()
            invariant
                self.of(colors),
                ranked@ == descending(scored_buckets(colors, BUCKETS as int)),
                goal == accent_colors(colors, limit as int),
                ranked@.to_multiset() == scored@.to_multiset(),
                forall|i: int| 0 <= i < scored@.len() ==> (#[trigger] scored@[i]).1 < BUCKETS,
                accents@.len() <= goal.len(),
                accents@ == goal.take(accents@.len() as int),
            decreases ranked.len() - accents.len(),
        {
            let entry = ranked[accents.len()];
            proof {
                broadcast use vstd::seq_lib::group_to_multiset_ensures;

                assert(ranked@.contains(entry));
                assert(scored@.to_multiset().count(entry) > 0);
                assert(scored@.contains(entry));
            }
            let ghost n = accents@.len() as int;
            accents.push(self.average(entry.1, Ghost(colors)));
            assert(goal.take(n + 1) =~= goal.take(n).push(goal[n]));
        }
        assert(goal.take(accents@.len() as int) =~= goal);
        accents
    }
}

proof fn lemma_bucket_bounds(colors: Seq<Rgba>, b: int)
    ensures
        0 <= bucket_count(colors, b) <= colors.len(),
        0 <= bucket_sum(colors, b, 0) <= 255 * bucket_count(colors, b),
        0 <= bucket_sum(colors, b, 1) <= 255 * bucket_count(colors, b),
        0 <= bucket_sum(colors, b, 2) <= 255 * bucket_count(colors, b),
    decreases colors.len(),
{
    if colors.len() > 0 {
        lemma_bucket_bounds(colors.drop_last(), b);
    }
}

proof fn lemma_mean_fits(sum: int, count: int)
    requires
        0 <= sum <= 255 * count,
        count >= 1,
    ensures
        0 <= sum / count <= 255,
{
    assert(0 <= sum / count <= 255) by (nonlinear_arith)
        requires
            0 <= sum <= 255 * count,
            count >= 1,
    ;
}

fn bucket_of(pixel: Rgba) -> (at: usize)
    ensures
        at == bucket(pixel),
        at < BUCKETS,
{
    (pixel.r as usize / 16) * 256 + (pixel.g as usize / 16) * 16 + pixel.b as usize / 16
}

// ---------------------------------------------------------------------------
// Hollow rectangles
// ---------------------------------------------------------------------------
/// The pixels of the picture that have the colour.
pub open spec fn color_mask(picture: Picture, color: Rgba) -> Seq<bool> {
    Seq::new(
        picture.pixels.len(),
        |i: int|
            picture.pixels[i].a != 0 && distance(picture.pixels[i], color) <= COLOR_TOLERANCE,
    )
}

/// How far the pixel lies from the nearest edge of the rectangle.
pub open spec fn depth(rect: Rect, x: int, y: int) -> int {
    min_int(
        min_int(x - rect.origin.x, rect.right_edge() - 1 - x),
        min_int(y - rect.origin.y, rect.bottom_edge() - 1 - y),
    )
}

/// A count of the pixels in a band along the edges of a rectangle and of those
/// it encloses, and of the set ones among them.
pub struct Tally {
    pub band: int,
    pub band_set: int,
    pub inner: int,
    pub inner_set: int,
}

/// The tally of the first `n` pixels, row by row, of the rectangle, with a
/// band of this thickness.
pub open spec fn tally(mask: Seq<bool>, width: int, rect: Rect, thickness: int, n: int) -> Tally
    decreases n,
{
    if n <= 0 {
        Tally { band: 0, band_set: 0, inner: 0, inner_set: 0 }
    } else {
        let before = tally(mask, width, rect, thickness, n - 1);
        let x = rect.origin.x + (n - 1) % (rect.size.width as int);
        let y = rect.origin.y + (n - 1) / (rect.size.width as int);
        let set = if mask[y * width + x] {
            1int
        } else {
            0
        };
        if depth(rect, x, y) < thickness {
            Tally { band: before.band + 1, band_set: before.band_set + set, ..before }
        } else {
            Tally { inner: before.inner + 1, inner_set: before.inner_set + set, ..before }
        }
    }
}

pub open spec fn whole_tally(mask: Seq<bool>, width: int, rect: Rect, thickness: int) -> Tally {
    tally(mask, width, rect, thickness, rect_area(rect))
}

/// `n / d` to 53 significant binary digits, counted in parts of
/// `2^75`: `scaled / d` is brought up to 53 digits while the `unit` that
/// one of them is worth comes down.
pub open spec fn significant(scaled: int, d: int, unit: int) -> int
    decreases unit,
{
    if unit <= 1 || scaled >= d * 0x10_0000_0000_0000 {
        nearest_even(scaled, d) * unit
    } else {
        significant(scaled * 2, d, unit / 2)
    }
}

/// The share `n / d`, at most one, to 53 significant binary digits, in parts
/// of `2^75`.
pub open spec fn share(n: int, d: int) -> int {
    if n == 0 {
        0
    } else {
        significant(n * 0x10_0000_0000_0000, d, 0x80_0000)
    }
}

/// How good an outline is: its coverage less half of what is set inside it,
/// kept to 53 significant binary digits and counted in parts of `2^76`.  An
/// outline that is mostly inside scores nothing.
pub open spec fn outline_score(counts: Tally) -> int {
    let exact = 2 * share(counts.band_set, counts.band) - if counts.inner > 0 {
        share(counts.inner_set, counts.inner)
    } else {
        0
    };
    if exact <= 0 {
        0
    } else if exact >= 0x8_0000_0000_0000_0000_00 {
        nearest_even(exact, 0x80_0000) * 0x80_0000
    } else {
        nearest_even(exact, 0x40_0000) * 0x40_0000
    }
}

pub open spec fn inset_side(side: u32, thickness: int) -> int {
    if side - 2 * thickness >= 1 {
        side - 2 * thickness
    } else {
        1
    }
}

/// What a band of this thickness encloses.
pub open spec fn inset(rect: Rect, thickness: int) -> Rect {
    Rect {
        origin: Point {
            x: (rect.origin.x + thickness) as i32,
            y: (rect.origin.y + thickness) as i32,
        },
        size: Size {
            width: inset_side(rect.size.width, thickness) as u32,
            height: inset_side(rect.size.height, thickness) as u32,
        },
    }
}

/// A band of this thickness is a believable outline: at least 62 percent of it
/// set, at most 35 percent of its interior, and room inside for a window.
pub open spec fn believable(mask: Seq<bool>, width: int, rect: Rect, thickness: int) -> bool {
    let counts = whole_tally(mask, width, rect, thickness);
    &&& counts.band > 0
    &&& counts.band_set * 50 >= counts.band * 31
    &&& counts.inner_set * 20 <= counts.inner * 7
    &&& inset(rect, thickness).size.width >= 8
    &&& inset(rect, thickness).size.height >= 8
}

/// The best believable band of at most this thickness; of equals the thinnest.
pub open spec fn best_band(mask: Seq<bool>, width: int, rect: Rect, thickness: int) -> Option<int>
    decreases thickness,
{
    if thickness <= 0 {
        None
    } else {
        let thinner = best_band(mask, width, rect, thickness - 1);
        if !believable(mask, width, rect, thickness) {
            thinner
        } else {
            match thinner {
                Some(best) => if outline_score(whole_tally(mask, width, rect, thickness))
                    > outline_score(whole_tally(mask, width, rect, best)) {
                    Some(thickness)
                } else {
                    Some(best)
                },
                None => Some(thickness),
            }
        }
    }
}

/// The window an outline filling the rectangle encloses.
pub open spec fn outlined(mask: Seq<bool>, width: int, rect: Rect) -> Option<Rect> {
    match best_band(mask, width, rect, MAX_BORDER as int) {
        Some(thickness) => Some(inset(rect, thickness)),
        None => None,
    }
}

/// The region is large enough to be tried.
pub open spec fn large_enough(picture: Picture, rect: Rect) -> bool {
    &&& rect.size.width >= picture.width * OUTLINE_MIN_DIM_PCT / 100
    &&& rect.size.height >= picture.height * OUTLINE_MIN_DIM_PCT / 100
}

/// The windows outlined by the first `n` of these regions.
pub open spec fn outlined_regions(
    picture: Picture,
    mask: Seq<bool>,
    regions: Seq<Rect>,
    n: int,
) -> Seq<Rect>
    decreases n,
{
    if n <= 0 {
        Seq::empty()
    } else {
        let before = outlined_regions(picture, mask, regions, n - 1);
        if large_enough(picture, regions[n - 1]) {
            match outlined(mask, picture.width, regions[n - 1]) {
                Some(rect) => before.push(rect),
                None => before,
            }
        } else {
            before
        }
    }
}

/// The windows outlined in one colour.
pub open spec fn outlines_in_color(picture: Picture, color: Rgba) -> Seq<Rect> {
    let mask = color_mask(picture, color);
    let regions = component_boxes(mask, picture.width, mask.len() as int);
    outlined_regions(picture, mask, regions, regions.len() as int)
}

/// The windows outlined in the first `n` of these colours.
pub open spec fn outlines_in_colors(picture: Picture, colors: Seq<Rgba>, n: int) -> Seq<Rect>
    decreases n,
{
    if n <= 0 {
        Seq::empty()
    } else {
        outlines_in_colors(picture, colors, n - 1) + outlines_in_color(picture, colors[n - 1])
    }
}

/// Every closed accent outline the picture yields, across all plausible border
/// colours.
pub open spec fn outlines(picture: Picture) -> Seq<Rect> {
    let colors = accent_colors(all_edge_colors(picture), OUTLINE_COLORS as int);
    outlines_in_colors(picture, colors, colors.len() as int)
}

/// An outline covers a window-sized share of the output.
pub open spec fn is_window_sized(picture: Picture, rect: Rect) -> bool {
    rect_area(rect) * 100 >= picture.width * picture.height * OUTLINE_MIN_AREA_PCT
}

/// The share `n / d` to 53 significant binary digits, in parts of `2^75`.
fn share_of(n: u64, d: u64) -> (value: u128)
    requires
        n <= d,
        0 < d <= MAX_ANALYSIS_PIXELS,
    ensures
        value == share(n as int, d as int),
        value <= 0x8_0000_0000_0000_0080_0000,
{
    if n == 0 {
        return 0;
    }
    let mut scaled: u128 = n as u128 * 0x10_0000_0000_0000;
    let mut unit: u128 = 0x80_0000;
    let goal: u128 = d as u128 * 0x10_0000_0000_0000;
    assert(scaled * unit <= d * 0x10_0000_0000_0000 * 0x80_0000) by (nonlinear_arith)
        requires
            scaled == n * 0x10_0000_0000_0000,
            unit == 0x80_0000,
            n <= d,
    ;
    while unit > 1 && scaled < goal
        invariant
            0 < d <= MAX_ANALYSIS_PIXELS,
            goal == d * 0x10_0000_0000_0000,
            1 <= unit <= 0x80_0000,
            scaled <= 2 * goal,
            scaled * unit <= goal * 0x80_0000,
            significant(scaled as int, d as int, unit as int) == share(n as int, d as int),
        decreases unit,
    {
        assert(unit / 2 * 2 <= unit);
        assert((scaled * 2) * (unit / 2) <= scaled * unit) by (nonlinear_arith)
            requires
                unit / 2 * 2 <= unit,
                scaled >= 0,
        ;
        scaled = scaled * 2;
        unit = unit / 2;
    }
    let digits: u128 = round_even(scaled, d as u128);
    proof {
        assert(digits * unit <= 0x8_0000_0000_0000_0080_0000) by {
            lemma_share_bound(scaled as int, d as int, unit as int);
        };
        assert(digits * unit >= 0) by (nonlinear_arith);
    }
    digits * unit
}

/// A share of at most one stays about one when it is rounded.
proof fn lemma_share_bound(scaled: int, d: int, unit: int)
    requires
        d >= 1,
        1 <= unit <= 0x80_0000,
        0 <= scaled,
        scaled * unit <= d * 0x10_0000_0000_0000 * 0x80_0000,
    ensures
        nearest_even(scaled, d) * unit <= 0x8_0000_0000_0000_0080_0000,
{
    let q = scaled / d;
    vstd::arithmetic::div_mod::lemma_fundamental_div_mod(scaled, d);
    assert(d * 0x10_0000_0000_0000 * 0x80_0000 == d * (0x10_0000_0000_0000 * 0x80_0000))
        by (nonlinear_arith);
    assert(q * unit <= 0x10_0000_0000_0000 * 0x80_0000) by (nonlinear_arith)
        requires
            d * q <= scaled,
            scaled * unit <= d * (0x10_0000_0000_0000 * 0x80_0000),
            d >= 1,
            unit >= 1,
    ;
    assert((q + 1) * unit == q * unit + unit) by (nonlinear_arith);
}

/// The score of a believable outline.
fn score_outline(band: u64, band_set: u64, inner: u64, inner_set: u64) -> (score: u128)
    requires
        band_set <= band,
        inner_set <= inner,
        0 < band <= MAX_ANALYSIS_PIXELS,
        inner <= MAX_ANALYSIS_PIXELS,
    ensures
        score == outline_score(
            Tally {
                band: band as int,
                band_set: band_set as int,
                inner: inner as int,
                inner_set: inner_set as int,
            },
        ),
{
    let coverage: u128 = share_of(band_set, band);
    let hollow: u128 = if inner > 0 {
        share_of(inner_set, inner)
    } else {
        0
    };
    if 2 * coverage <= hollow {
        return 0;
    }
    let exact: u128 = 2 * coverage - hollow;
    if exact >= 0x8_0000_0000_0000_0000_00 {
        let digits: u128 = round_even(exact, 0x80_0000);
        digits * 0x80_0000
    } else {
        let digits: u128 = round_even(exact, 0x40_0000);
        digits * 0x40_0000
    }
}

/// Counts a band of this thickness along the edges of the rectangle.
fn count_band(mask: &Vec<bool>, width: usize, height: usize, rect: Rect, thickness: u32) -> (counts:
    (u64, u64, u64, u64))
    requires
        1 <= width,
        1 <= height,
        mask@.len() == width * height,
        width * height <= MAX_ANALYSIS_PIXELS,
        inside_picture(rect, width as int, height as int),
        thickness <= MAX_BORDER,
    ensures
        whole_tally(mask@, width as int, rect, thickness as int) == (Tally {
            band: counts.0 as int,
            band_set: counts.1 as int,
            inner: counts.2 as int,
            inner_set: counts.3 as int,
        }),
        counts.1 <= counts.0 <= MAX_ANALYSIS_PIXELS,
        counts.3 <= counts.2 <= MAX_ANALYSIS_PIXELS,
{
    let (mut band, mut band_set, mut inner, mut inner_set): (u64, u64, u64, u64) = (0, 0, 0, 0);
    let ghost (w, h) = (width as int, height as int);
    let (left, top): (usize, usize) = (rect.origin.x as usize, rect.origin.y as usize);
    let (across, down): (usize, usize) = (rect.size.width as usize, rect.size.height as usize);
    let limit: usize = thickness as usize;
    proof {
        assert(w <= w * h && h <= w * h) by (nonlinear_arith)
            requires
                w >= 1,
                h >= 1,
        ;
    }
    let mut row: usize = 0;
    while row < down
        invariant
            w == width,
            h == height,
            1 <= w <= MAX_ANALYSIS_PIXELS,
            1 <= h <= MAX_ANALYSIS_PIXELS,
            mask@.len() == w * h,
            w * h <= MAX_ANALYSIS_PIXELS,
            inside_picture(rect, w, h),
            left == rect.origin.x,
            top == rect.origin.y,
            across == rect.size.width,
            down == rect.size.height,
            limit == thickness,
            limit <= MAX_BORDER,
            row <= down,
            tally(mask@, w, rect, thickness as int, row * across) == (Tally {
                band: band as int,
                band_set: band_set as int,
                inner: inner as int,
                inner_set: inner_set as int,
            }),
            band_set <= band,
            inner_set <= inner,
            band + inner == row * across,
        decreases down - row,
    {
        let mut col: usize = 0;
        proof {
            assert((row + 1) * across == row * across + across) by (nonlinear_arith);
            assert(row * across + across <= w * h) by (nonlinear_arith)
                requires
                    row + 1 <= h,
                    across <= w,
                    0 <= row,
                    0 <= across,
            ;
        }
        while col < across
            invariant
                w == width,
                h == height,
                1 <= w <= MAX_ANALYSIS_PIXELS,
                1 <= h <= MAX_ANALYSIS_PIXELS,
                mask@.len() == w * h,
                w * h <= MAX_ANALYSIS_PIXELS,
                inside_picture(rect, w, h),
                left == rect.origin.x,
                top == rect.origin.y,
                across == rect.size.width,
                down == rect.size.height,
                limit == thickness,
                limit <= MAX_BORDER,
                row < down,
                col <= across,
                row * across + across <= w * h,
                tally(mask@, w, rect, thickness as int, row * across + col) == (Tally {
                    band: band as int,
                    band_set: band_set as int,
                    inner: inner as int,
                    inner_set: inner_set as int,
                }),
                band_set <= band,
                inner_set <= inner,
                band + inner == row * across + col,
            decreases across - col,
        {
            let (x, y): (usize, usize) = (left + col, top + row);
            proof {
                vstd::arithmetic::div_mod::lemma_fundamental_div_mod_converse(
                    row * across + col,
                    across as int,
                    row as int,
                    col as int,
                );
                assert(0 <= y * w && y * w + w <= w * h) by (nonlinear_arith)
                    requires
                        0 <= y,
                        y + 1 <= h,
                        0 <= w,
                ;
                assert(0 <= row * across) by (nonlinear_arith);
            }
            let set: u64 = if mask[y * width + x] {
                1
            } else {
                0
            };
            if col < limit || across - 1 - col < limit || row < limit || down - 1 - row < limit {
                band = band + 1;
                band_set = band_set + set;
            } else {
                inner = inner + 1;
                inner_set = inner_set + set;
            }
            col = col + 1;
        }
        row = row + 1;
    }
    proof {
        assert(down * across == rect_area(rect)) by (nonlinear_arith)
            requires
                rect_area(rect) == across * down,
        ;
        assert(down * across <= w * h) by (nonlinear_arith)
            requires
                0 <= down <= h,
                0 <= across <= w,
        ;
    }
    (band, band_set, inner, inner_set)
}

/// Tries border depths up to the thickest inside `rect`: the band must be
/// almost fully set while the interior beyond stays mostly empty.
fn fit_outline_in_bbox(mask: &Vec<bool>, width: usize, height: usize, rect: Rect) -> (window:
    Option<Rect>)
    requires
        1 <= width,
        1 <= height,
        mask@.len() == width * height,
        width * height <= MAX_ANALYSIS_PIXELS,
        inside_picture(rect, width as int, height as int),
    ensures
        window == outlined(mask@, width as int, rect),
        window matches Some(inside) ==> inside.origin.x >= 0 && inside.origin.y >= 0,
{
    let mut best: Option<(u32, u128, Rect)> = None;
    let ghost w = width as int;
    proof {
        let h = height as int;
        assert(w <= w * h && h <= w * h) by (nonlinear_arith)
            requires
                w >= 1,
                h >= 1,
        ;
    }
    let mut t: u32 = 1;
    while t <= MAX_BORDER
        invariant
            1 <= width <= MAX_ANALYSIS_PIXELS,
            1 <= height <= MAX_ANALYSIS_PIXELS,
            w == width,
            mask@.len() == width * height,
            width * height <= MAX_ANALYSIS_PIXELS,
            inside_picture(rect, width as int, height as int),
            1 <= t <= MAX_BORDER + 1,
            match best {
                Some(found) => {
                    &&& best_band(mask@, w, rect, t - 1) == Some(found.0 as int)
                    &&& found.1 == outline_score(whole_tally(mask@, w, rect, found.0 as int))
                    &&& found.2 == inset(rect, found.0 as int)
                    &&& found.2.origin.x >= 0
                    &&& found.2.origin.y >= 0
                },
                None => best_band(mask@, w, rect, t - 1) is None,
            },
        decreases MAX_BORDER + 1 - t,
    {
        let (band, band_set, inner, inner_set) = count_band(mask, width, height, rect, t);
        let inner_width: u32 = if rect.size.width > 2 * t {
            rect.size.width - 2 * t
        } else {
            1
        };
        let inner_height: u32 = if rect.size.height > 2 * t {
            rect.size.height - 2 * t
        } else {
            1
        };
        let window = Rect::new(
            rect.origin.x + t as i32,
            rect.origin.y + t as i32,
            inner_width,
            inner_height,
        );
        assert(window == inset(rect, t as int));
        if band > 0 && band_set * 50 >= band * 31 && inner_set * 20 <= inner * 7 && inner_width >= 8
            && inner_height >= 8 {
            assert(believable(mask@, w, rect, t as int));
            let score: u128 = score_outline(band, band_set, inner, inner_set);
            match best {
                Some(found) => {
                    if score > found.1 {
                        best = Some((t, score, window));
                    }
                },
                None => {
                    best = Some((t, score, window));
                },
            }
        } else {
            assert(!believable(mask@, w, rect, t as int));
        }
        t = t + 1;
    }
    match best {
        Some((_, _, window)) => Some(window),
        None => None,
    }
}

/// Every fitted outline of one border colour, in scan order.
fn fit_outlines_for_color(frame: &AnalysisFrame, color: Rgba) -> (fits: Vec<Rect>)
    requires
        frame.wf(),
    ensures
        fits@ == outlines_in_color(frame@, color),
        forall|i: int|
            0 <= i < fits@.len() ==> (#[trigger] fits@[i]).origin.x >= 0 && fits@[i].origin.y >= 0,
{
    let ghost picture = frame@;
    let ghost goal = color_mask(picture, color);
    let mut mask: Vec<bool> = Vec::new();
    while mask.len() < frame.pixels.len()
        invariant
            picture == frame@,
            goal == color_mask(picture, color),
            mask@.len() <= goal.len(),
            forall|i: int| 0 <= i < mask@.len() ==> mask@[i] == goal[i],
        decreases frame.pixels.len() - mask.len(),
    {
        let pixel = frame.pixels[mask.len()];
        mask.push(pixel.a != 0 && color_distance(pixel, color) <= COLOR_TOLERANCE);
    }
    assert(mask@ =~= goal);
    proof {
        lemma_sides_bounded(picture);
    }
    let min_width: u32 = frame.width * OUTLINE_MIN_DIM_PCT / 100;
    let min_height: u32 = frame.height * OUTLINE_MIN_DIM_PCT / 100;
    let regions = find_component_boxes(&mask, frame.width as usize, frame.height as usize);
    let mut fits: Vec<Rect> = Vec::new();
    let mut i: usize = 0;
    while i < regions.len()
        invariant
            frame.wf(),
            picture == frame@,
            mask@ == color_mask(picture, color),
            min_width == picture.width * OUTLINE_MIN_DIM_PCT / 100,
            min_height == picture.height * OUTLINE_MIN_DIM_PCT / 100,
            forall|j: int|
                0 <= j < regions@.len() ==> inside_picture(
                    #[trigger] regions@[j],
                    picture.width,
                    picture.height,
                ),
            i <= regions@.len(),
            fits@ == outlined_regions(picture, mask@, regions@, i as int),
            forall|j: int|
                0 <= j < fits@.len() ==> (#[trigger] fits@[j]).origin.x >= 0 && fits@[j].origin.y
                    >= 0,
        decreases regions.len() - i,
    {
        let region = regions[i];
        assert(inside_picture(regions@[i as int], picture.width, picture.height));
        if region.size.width >= min_width && region.size.height >= min_height {
            match fit_outline_in_bbox(&mask, frame.width as usize, frame.height as usize, region) {
                Some(window) => {
                    fits.push(window);
                },
                None => {},
            }
        }
        i = i + 1;
    }
    fits
}

/// Every closed accent outline the frame yields, across all plausible border
/// colours.
pub fn outline_candidates(frame: &AnalysisFrame) -> (fits: Vec<Rect>)
    requires
        frame.wf(),
    ensures
        fits@ == outlines(frame@),
        forall|i: int|
            0 <= i < fits@.len() ==> (#[trigger] fits@[i]).origin.x >= 0 && fits@[i].origin.y >= 0,
{
    let histogram = Histogram::collect_edge_colors(frame);
    let ghost all = all_edge_colors(frame@);
    proof {
        lemma_edge_colors_len(frame@, frame@.width * frame@.height);
    }
    let colors = histogram.take_candidates(OUTLINE_COLORS, Ghost(all));
    let mut fits: Vec<Rect> = Vec::new();
    let mut i: usize = 0;
    while i < colors.len()
        invariant
            frame.wf(),
            i <= colors@.len(),
            fits@ == outlines_in_colors(frame@, colors@, i as int),
            forall|j: int|
                0 <= j < fits@.len() ==> (#[trigger] fits@[j]).origin.x >= 0 && fits@[j].origin.y
                    >= 0,
        decreases colors.len() - i,
    {
        let mut more = fit_outlines_for_color(frame, colors[i]);
        fits.append(&mut more);
        i = i + 1;
    }
    fits
}

/// A pixel contributes at most two contrasting pairs.
pub proof fn lemma_edge_colors_len(picture: Picture, n: int)
    requires
        n >= 0,
    ensures
        edge_colors(picture, n).len() <= 4 * n,
    decreases n,
{
    if n > 0 {
        lemma_edge_colors_len(picture, n - 1);
    }
}

/// Does an outline fit describe a window rather than a block of page content?
pub fn window_sized(rect: Rect, frame: &AnalysisFrame) -> (sized: bool)
    requires
        frame.wf(),
    ensures
        sized == is_window_sized(frame@, rect),
{
    let own: u64 = area(rect);
    let whole: u64 = frame.area();
    assert(whole <= MAX_ANALYSIS_PIXELS);
    own as u128 * 100 >= (whole * OUTLINE_MIN_AREA_PCT) as u128
}

} // verus!
