//! Windows that stand out from the background.
//!
//! The wallpaper and soft shadows are traced from the output's edges with a
//! locally smooth flood fill; the large regions it does not reach are window
//! candidates.

use vstd::prelude::*;

use crate::geometry::{Point, Rect};

use super::pixel_components::{component_boxes, find_component_boxes, inside_picture};
use super::pixel_flood::{
    flood, lemma_closed_holds_what_is_reached, lemma_reaches_itself, reaches,
    Ground, Terrain,
};
use super::pixel_frame::{
    area, lemma_sides_bounded, rect_area, AnalysisFrame, Picture, MAX_ANALYSIS_PIXELS,
};
use super::pixel_outline::{all_edge_colors, lemma_edge_colors_len, Histogram};

verus! {

/// Smallest segmentation candidate: area percent and per-dimension percent.
pub const SEG_MIN_AREA_PCT: u64 = 4;

pub const SEG_MIN_DIM_PCT: u32 = 20;

/// The pixel lies on an edge of the picture.
pub open spec fn on_edge(picture: Picture, i: int) -> bool {
    let (x, y) = (i % picture.width, i / picture.width);
    x == 0 || x == picture.width - 1 || y == 0 || y == picture.height - 1
}

/// A smooth walk from an edge of the picture reaches the pixel.
pub open spec fn is_background(picture: Picture, j: int) -> bool {
    exists|edge: int|
        #![trigger reaches(Terrain::Smooth(picture.pixels), picture.width, edge, j)]
        0 <= edge < picture.pixels.len() && on_edge(picture, edge) && reaches(
            Terrain::Smooth(picture.pixels),
            picture.width,
            edge,
            j,
        )
}

/// The pixels that do not belong to the background.
pub open spec fn foreground(picture: Picture) -> Seq<bool> {
    Seq::new(picture.pixels.len(), |j: int| !is_background(picture, j))
}

/// How many of the first `n` pixels belong to the background.
pub open spec fn background_count(picture: Picture, n: int) -> int
    decreases n,
{
    if n <= 0 {
        0
    } else {
        background_count(picture, n - 1) + if is_background(picture, n - 1) {
            1int
        } else {
            0
        }
    }
}

/// The region is large enough to be a window.
pub open spec fn is_major(picture: Picture, rect: Rect) -> bool {
    &&& rect.size.width >= picture.width * SEG_MIN_DIM_PCT / 100
    &&& rect.size.height >= picture.height * SEG_MIN_DIM_PCT / 100
    &&& rect_area(rect) >= picture.width * picture.height * SEG_MIN_AREA_PCT / 100
}

/// The region is too small for that, but no mere block of text either.
pub open spec fn is_minor(picture: Picture, rect: Rect) -> bool {
    &&& !is_major(picture, rect)
    &&& rect_area(rect) >= picture.width * picture.height / 200
    &&& rect.size.width >= picture.width / 12
    &&& rect.size.height >= picture.height / 12
}

/// The major ones of the first `n` regions.
pub open spec fn major_regions(picture: Picture, regions: Seq<Rect>, n: int) -> Seq<Rect>
    decreases n,
{
    if n <= 0 {
        Seq::empty()
    } else if is_major(picture, regions[n - 1]) {
        major_regions(picture, regions, n - 1).push(regions[n - 1])
    } else {
        major_regions(picture, regions, n - 1)
    }
}

/// The minor ones of the first `n` regions.
pub open spec fn minor_regions(picture: Picture, regions: Seq<Rect>, n: int) -> Seq<Rect>
    decreases n,
{
    if n <= 0 {
        Seq::empty()
    } else if is_minor(picture, regions[n - 1]) {
        minor_regions(picture, regions, n - 1).push(regions[n - 1])
    } else {
        minor_regions(picture, regions, n - 1)
    }
}

/// The bounding boxes of the foreground's components.
pub open spec fn regions(picture: Picture) -> Seq<Rect> {
    component_boxes(foreground(picture), picture.width, foreground(picture).len() as int)
}

pub open spec fn majors(picture: Picture) -> Seq<Rect> {
    major_regions(picture, regions(picture), regions(picture).len() as int)
}

pub open spec fn minors(picture: Picture) -> Seq<Rect> {
    minor_regions(picture, regions(picture), regions(picture).len() as int)
}

/// The share of the picture that is background, in whole percent.
pub open spec fn background_share(picture: Picture) -> int {
    background_count(picture, picture.pixels.len() as int) * 100 / (picture.pixels.len() as int)
}

/// The picture has hardly any edges: under one contrasting pair in a thousand
/// pixels.
pub open spec fn is_uniform(picture: Picture) -> bool {
    (all_edge_colors(picture).len() / 2) * 1000 < picture.width * picture.height
}

/// The minor region to answer with: the only one, or the first one under the
/// cursor.
pub open spec fn lone(minor: Seq<Rect>, cursor: Option<Point>) -> Option<Rect> {
    if minor.len() == 1 {
        Some(minor[0])
    } else if minor.len() == 0 {
        None
    } else {
        match cursor {
            Some(point) => first_covering(minor, point, 0),
            None => None,
        }
    }
}

/// The first of the rectangles, from `from` on, that covers the point.
pub open spec fn first_covering(rects: Seq<Rect>, point: Point, from: int) -> Option<Rect>
    decreases rects.len() - from,
{
    if from < 0 || from >= rects.len() {
        None
    } else if rects[from].covers(point.x as int, point.y as int) {
        Some(rects[from])
    } else {
        first_covering(rects, point, from + 1)
    }
}

/// The whole picture, for one that reads as one surface: nearly all smooth
/// background, or hardly any of it.
pub open spec fn whole_output(picture: Picture) -> Option<Rect> {
    if background_share(picture) > 97 && is_uniform(picture) || background_share(picture) < 50 {
        Some(
            Rect {
                origin: Point { x: 0, y: 0 },
                size: crate::geometry::Size {
                    width: picture.width as u32,
                    height: picture.height as u32,
                },
            },
        )
    } else {
        None
    }
}

/// What the background flood fill left over, split by confidence.
pub struct Segments {
    /// Components that pass the size thresholds.
    pub candidates: Vec<Rect>,
    /// Smaller components: a lone one is still a window, several are ambiguous.
    pub minor: Vec<Rect>,
    /// Percentage of the frame the flood fill reached from its edges.
    pub background_percent: u64,
    /// The frame reads as one uniform surface, with no internal seams.
    pub uniform: bool,
}

pub open spec fn all_in_front(rects: Seq<Rect>) -> bool {
    forall|i: int|
        0 <= i < rects.len() ==> (#[trigger] rects[i]).origin.x >= 0 && rects[i].origin.y >= 0
}

impl Segments {
    /// These are the segments of the picture.
    pub open spec fn of(&self, picture: Picture) -> bool {
        &&& self.candidates@ == majors(picture)
        &&& self.minor@ == minors(picture)
        &&& self.background_percent == background_share(picture)
        &&& self.uniform == is_uniform(picture)
        &&& all_in_front(self.candidates@)
        &&& all_in_front(self.minor@)
    }

    /// A lone small window is still a valid answer; several are ambiguous
    /// unless the cursor settles them.
    pub fn lone_minor(&self, cursor: Option<Point>) -> (rect: Option<Rect>)
        ensures
            rect == lone(self.minor@, cursor),
            all_in_front(self.minor@) ==> (rect matches Some(found) ==> found.origin.x >= 0
                && found.origin.y >= 0),
    {
        if self.minor.len() == 1 {
            return Some(self.minor[0]);
        }
        if self.minor.len() == 0 {
            return None;
        }
        let point = match cursor {
            Some(point) => point,
            None => {
                return None;
            },
        };
        let mut i: usize = 0;
        while i < self.minor.len()
            invariant
                cursor == Some(point),
                self.minor@.len() >= 2,
                i <= self.minor@.len(),
                first_covering(self.minor@, point, 0) == first_covering(
                    self.minor@,
                    point,
                    i as int,
                ),
            decreases self.minor.len() - i,
        {
            if self.minor[i].contains(point) {
                return Some(self.minor[i]);
            }
            i = i + 1;
        }
        None
    }

    /// The whole output, but only for an essentially uniform one.  Internal
    /// edges mean several windows that cannot be told apart, and guessing
    /// "everything" there would crop unrelated windows together.
    pub fn degraded_whole_output(&self, frame: &AnalysisFrame) -> (rect: Option<Rect>)
        requires
            self.of(frame@),
        ensures
            rect == whole_output(frame@),
    {
        if (self.background_percent > 97 && self.uniform) || self.background_percent < 50 {
            Some(Rect::new(0, 0, frame.width, frame.height))
        } else {
            None
        }
    }
}

/// Marks the background: everything a smooth flood from the edges reaches.
fn find_background(frame: &AnalysisFrame) -> (background: Vec<bool>)
    requires
        frame.wf(),
    ensures
        background@.len() == frame@.pixels.len(),
        forall|j: int|
            0 <= j < background@.len() ==> #[trigger] background@[j] == is_background(frame@, j),
{
    let ghost picture = frame@;
    let ghost terrain = Terrain::Smooth(picture.pixels);
    let ghost w = picture.width;
    let total: usize = frame.pixels.len();
    let (width, height): (usize, usize) = (frame.width as usize, frame.height as usize);
    let mut background: Vec<bool> = Vec::new();
    let mut starts: Vec<usize> = Vec::new();
    while background.len() < total
        invariant
            frame.wf(),
            picture == frame@,
            width == frame.width,
            height == frame.height,
            total == picture.pixels.len(),
            background@.len() <= total,
            forall|j: int|
                0 <= j < background@.len() ==> #[trigger] background@[j] == on_edge(picture, j),
            starts@.no_duplicates(),
            forall|i: int|
                0 <= i < starts@.len() ==> #[trigger] starts@[i] < background@.len() && on_edge(
                    picture,
                    starts@[i] as int,
                ),
            forall|j: int|
                0 <= j < background@.len() && #[trigger] background@[j] ==> starts@.contains(
                    j as usize,
                ),
        decreases total - background.len(),
    {
        let i: usize = background.len();
        let (x, y): (usize, usize) = (i % width, i / width);
        let edge = x == 0 || x == width - 1 || y == 0 || y == height - 1;
        let ghost before = starts@;
        if edge {
            starts.push(i);
        }
        background.push(edge);
        proof {
            assert forall|j: int|
                0 <= j < background@.len() && #[trigger] background@[j] implies starts@.contains(
                j as usize,
            ) by {
                if j == i {
                    assert(starts@[before.len() as int] == i);
                } else {
                    assert(before.contains(j as usize));
                    let k = choose|k: int| 0 <= k < before.len() && before[k] == j as usize;
                    assert(starts@[k] == j as usize);
                }
            }
        }
    }
    let ghost first = starts@;
    let ghost edges = background@;
    proof {
        assert(picture.pixels.len() % (width as nat) == 0) by {
            vstd::arithmetic::div_mod::lemma_mod_multiples_basic(picture.height, w);
            assert(picture.height * w == w * picture.height) by (nonlinear_arith);
        }
    }
    let ground = Ground::Smooth(&frame.pixels);
    let order = flood(&ground, width, &mut background, starts);
    proof {
        assert forall|j: int| 0 <= j < background@.len() implies #[trigger] background@[j]
            == is_background(picture, j) by {
            if is_background(picture, j) {
                let edge = choose|edge: int|
                    #![trigger reaches(terrain, w, edge, j)]
                    0 <= edge < picture.pixels.len() && on_edge(picture, edge) && reaches(
                        terrain,
                        w,
                        edge,
                        j,
                    );
                assert(edges[edge]);
                assert(background@[edge]);
                lemma_closed_holds_what_is_reached(terrain, w, background@, edge, j);
            }
            if background@[j] {
                if edges[j] {
                    lemma_reaches_itself(terrain, w, j);
                    assert(reaches(terrain, w, j, j));
                } else {
                    assert(order@.contains(j as usize));
                    let i = choose|i: int| 0 <= i < order@.len() && order@[i] == j as usize;
                    assert(order@[i] as int == j);
                    let k = choose|k: int|
                        0 <= k < first.len() && reaches(
                            terrain,
                            w,
                            #[trigger] first[k] as int,
                            order@[i] as int,
                        );
                    assert(reaches(terrain, w, first[k] as int, j));
                }
            }
        }
    }
    background
}

/// Runs the background flood fill and groups what it left into window
/// candidates.
pub fn segment_components(frame: &AnalysisFrame) -> (segments: Segments)
    requires
        frame.wf(),
    ensures
        segments.of(frame@),
{
    let ghost picture = frame@;
    let background = find_background(frame);
    let total: usize = background.len();
    let mut mask: Vec<bool> = Vec::new();
    let mut background_pixels: u64 = 0;
    while mask.len() < total
        invariant
            total == background@.len(),
            total == picture.pixels.len(),
            total <= MAX_ANALYSIS_PIXELS,
            forall|j: int|
                0 <= j < background@.len() ==> #[trigger] background@[j] == is_background(
                    picture,
                    j,
                ),
            mask@.len() <= total,
            background_pixels <= mask@.len(),
            background_pixels == background_count(picture, mask@.len() as int),
            forall|j: int| 0 <= j < mask@.len() ==> mask@[j] == foreground(picture)[j],
        decreases total - mask.len(),
    {
        let seed = background[mask.len()];
        if seed {
            background_pixels = background_pixels + 1;
        }
        mask.push(!seed);
    }
    assert(mask@ =~= foreground(picture));
    proof {
        lemma_sides_bounded(picture);
        assert(1 <= picture.width * picture.height) by (nonlinear_arith)
            requires
                picture.width >= 1,
                picture.height >= 1,
        ;
    }
    let whole: u64 = frame.area();
    let min_width: u32 = frame.width * SEG_MIN_DIM_PCT / 100;
    let min_height: u32 = frame.height * SEG_MIN_DIM_PCT / 100;
    let min_area: u64 = whole * SEG_MIN_AREA_PCT / 100;
    let minor_min_area: u64 = whole / 200;
    let boxes = find_component_boxes(&mask, frame.width as usize, frame.height as usize);
    let mut candidates: Vec<Rect> = Vec::new();
    let mut minor: Vec<Rect> = Vec::new();
    let mut i: usize = 0;
    while i < boxes.len()
        invariant
            frame.wf(),
            picture == frame@,
            whole == picture.width * picture.height,
            min_width == picture.width * SEG_MIN_DIM_PCT / 100,
            min_height == picture.height * SEG_MIN_DIM_PCT / 100,
            min_area == picture.width * picture.height * SEG_MIN_AREA_PCT / 100,
            minor_min_area == picture.width * picture.height / 200,
            forall|j: int|
                0 <= j < boxes@.len() ==> inside_picture(
                    #[trigger] boxes@[j],
                    picture.width,
                    picture.height,
                ),
            i <= boxes@.len(),
            candidates@ == major_regions(picture, boxes@, i as int),
            minor@ == minor_regions(picture, boxes@, i as int),
            all_in_front(candidates@),
            all_in_front(minor@),
        decreases boxes.len() - i,
    {
        let rect = boxes[i];
        assert(inside_picture(boxes@[i as int], picture.width, picture.height));
        let covered: u64 = area(rect);
        if rect.size.width < min_width || rect.size.height < min_height || covered < min_area {
            if covered >= minor_min_area && rect.size.width >= frame.width / 12 && rect.size.height
                >= frame.height / 12 {
                minor.push(rect);
            }
        } else {
            candidates.push(rect);
        }
        i = i + 1;
    }
    let ghost colors = all_edge_colors(picture);
    proof {
        lemma_edge_colors_len(picture, picture.width * picture.height);
    }
    let histogram = Histogram::collect_edge_colors(frame);
    let edge_pairs: u64 = histogram.recorded(Ghost(colors)) / 2;
    let background_percent: u64 = background_pixels * 100 / total as u64;
    Segments { candidates, minor, background_percent, uniform: edge_pairs * 1000 < whole }
}

} // verus!
