//! Pixel fallback for window capture: the window is detected from the captured
//! frame itself.
//!
//! Detection never looks across a monitor seam: every output is analysed on
//! its own frame, in its own device pixels.  Border rings are the primary
//! detector, regions that stand out from the background the second one, and an
//! outline of one accent colour the third; a final rung degrades to the whole
//! output.  A cursor position, when known, decides between candidates within a
//! rung, and the largest candidate wins otherwise.

use vstd::prelude::*;

use crate::error::{ErrorView, Result, VshotError};
use crate::geometry::{Point, Rect};
use crate::model::{OutputSnapshot, SceneSnapshot};
use crate::sorting::{descending, law_descending_sorts, sort_descending};

use super::pixel_frame::{
    analysis_factor, area, factor_of, global_rect, local_point, picture_of_output, rect_area,
    to_global, to_local, AnalysisFrame, Picture,
};
use super::pixel_outline::{is_window_sized, outline_candidates, outlines, window_sized};
use super::pixel_rings::{ring_candidates, rings, sane_ring, Ring};
use super::pixel_segments::{
    all_in_front, lone, majors, minors, segment_components, whole_output, Segments,
};
use super::window::{ActiveWindow, WindowSource};

verus! {

/// How much a candidate is trusted, best first.
#[derive(Clone, Copy, Debug, PartialEq, Eq, Structural)]
pub enum Tier {
    /// Four border bands that close on each other, stroked in the compositor's
    /// focus colour.
    Ring,
    /// A region the background flood fill separated from its output, or a ring
    /// whose stroke is gray.
    Segment,
    /// A closed accent outline big enough to be a window.
    Outline,
    /// The whole output, for an output that reads as one surface.
    WholeOutput,
}

impl Tier {
    /// The place on the ladder, 0 the most trusted.
    pub open spec fn rung(self) -> int {
        match self {
            Tier::Ring => 0,
            Tier::Segment => 1,
            Tier::Outline => 2,
            Tier::WholeOutput => 3,
        }
    }

    fn rank(self) -> (rank: u8)
        ensures
            rank == self.rung(),
    {
        match self {
            Tier::Ring => 0,
            Tier::Segment => 1,
            Tier::Outline => 2,
            Tier::WholeOutput => 3,
        }
    }
}

/// A candidate in the picture of one output.
#[derive(Clone, Copy, Debug, PartialEq, Eq, Structural)]
pub struct Found {
    pub tier: Tier,
    /// A focused border stroke.
    pub focused: bool,
    pub rect: Rect,
}

/// A window candidate in global logical coordinates.
#[derive(Clone, Copy, Debug, PartialEq, Eq, Structural)]
pub struct Candidate {
    pub tier: Tier,
    pub geometry: Rect,
    pub under_cursor: bool,
    /// The candidate sits on the output the pointer is on.
    pub on_cursor_output: bool,
    pub focused: bool,
}

// ---------------------------------------------------------------------------
// One output's ladder
// ---------------------------------------------------------------------------
/// The first `n` rings that are (or are not) focused, as candidates.
pub open spec fn ring_finds(found: Seq<Ring>, focused: bool, n: int) -> Seq<Found>
    decreases n,
{
    if n <= 0 {
        Seq::empty()
    } else if found[n - 1].is_focused() == focused {
        ring_finds(found, focused, n - 1).push(
            Found {
                tier: if focused {
                    Tier::Ring
                } else {
                    Tier::Segment
                },
                focused,
                rect: found[n - 1].rect,
            },
        )
    } else {
        ring_finds(found, focused, n - 1)
    }
}

/// Rectangles as candidates of one rung.
pub open spec fn finds(rects: Seq<Rect>, tier: Tier) -> Seq<Found> {
    Seq::new(rects.len(), |i: int| Found { tier, focused: false, rect: rects[i] })
}

/// The rectangle as the only candidate of a rung, if there is one.
pub open spec fn optional_find(rect: Option<Rect>, tier: Tier) -> Seq<Found> {
    match rect {
        Some(rect) => seq![Found { tier, focused: false, rect }],
        None => Seq::empty(),
    }
}

/// The window-sized ones of the first `n` rectangles.
pub open spec fn sized(picture: Picture, rects: Seq<Rect>, n: int) -> Seq<Rect>
    decreases n,
{
    if n <= 0 {
        Seq::empty()
    } else if is_window_sized(picture, rects[n - 1]) {
        sized(picture, rects, n - 1).push(rects[n - 1])
    } else {
        sized(picture, rects, n - 1)
    }
}

/// The outlines of the picture that are as large as a window.
pub open spec fn sized_outlines(picture: Picture) -> Seq<Rect> {
    sized(picture, outlines(picture), outlines(picture).len() as int)
}

/// One output's candidates: whatever the strongest detector that found
/// something yields.  Only a vivid ring outranks the segmented regions; a gray
/// one takes its place among them.
pub open spec fn ladder(picture: Picture, cursor: Option<Point>) -> Seq<Found> {
    let all = rings(picture);
    let vivid = ring_finds(all, true, all.len() as int);
    let gray = ring_finds(all, false, all.len() as int);
    let regions = gray + finds(majors(picture), Tier::Segment);
    let small = optional_find(lone(minors(picture), cursor), Tier::Segment);
    let outlined = finds(sized_outlines(picture), Tier::Outline);
    if vivid.len() > 0 {
        vivid
    } else if regions.len() > 0 {
        regions
    } else if small.len() > 0 {
        small
    } else if outlined.len() > 0 {
        outlined
    } else {
        optional_find(whole_output(picture), Tier::WholeOutput)
    }
}

// ---------------------------------------------------------------------------
// The scene
// ---------------------------------------------------------------------------
/// The id of the first output, from `from` on, that covers the point.
pub open spec fn home_of(scene: Seq<OutputSnapshot>, point: Point, from: int) -> Option<u32>
    decreases scene.len() - from,
{
    if from < 0 || from >= scene.len() {
        None
    } else if scene[from].area().covers(point.x as int, point.y as int) {
        Some(scene[from].id())
    } else {
        home_of(scene, point, from + 1)
    }
}

/// The id of the output the cursor is on.
pub open spec fn home(scene: Seq<OutputSnapshot>, cursor: Option<Point>) -> Option<u32> {
    match cursor {
        Some(point) => home_of(scene, point, 0),
        None => None,
    }
}

/// The cursor in the picture of an output.
pub open spec fn local_cursor(output: &OutputSnapshot, cursor: Option<Point>) -> Option<Point> {
    match cursor {
        Some(point) => local_point(output, point),
        None => None,
    }
}

/// The cursor lies inside the rectangle.
pub open spec fn points_into(cursor: Option<Point>, rect: Rect) -> bool {
    match cursor {
        Some(point) => rect.covers(point.x as int, point.y as int),
        None => false,
    }
}

/// The candidates that the first `n` finds of an output amount to.
pub open spec fn candidates_of(
    output: &OutputSnapshot,
    found: Seq<Found>,
    cursor: Option<Point>,
    home: Option<u32>,
    n: int,
) -> Seq<Candidate>
    decreases n,
{
    if n <= 0 {
        Seq::empty()
    } else {
        let before = candidates_of(output, found, cursor, home, n - 1);
        match global_rect(output, found[n - 1].rect) {
            Some(geometry) => before.push(
                Candidate {
                    tier: found[n - 1].tier,
                    geometry,
                    under_cursor: points_into(cursor, geometry),
                    on_cursor_output: home == Some(output.id()),
                    focused: found[n - 1].focused,
                },
            ),
            None => before,
        }
    }
}

/// The candidates of one output.
pub open spec fn output_pool(
    output: &OutputSnapshot,
    cursor: Option<Point>,
    home: Option<u32>,
) -> Seq<Candidate> {
    let found = ladder(picture_of_output(output), local_cursor(output, cursor));
    candidates_of(output, found, cursor, home, found.len() as int)
}

/// The candidates of the first `n` outputs.
pub open spec fn pool(
    scene: Seq<OutputSnapshot>,
    cursor: Option<Point>,
    home: Option<u32>,
    n: int,
) -> Seq<Candidate>
    decreases n,
{
    if n <= 0 {
        Seq::empty()
    } else {
        pool(scene, cursor, home, n - 1) + output_pool(&scene[n - 1], cursor, home)
    }
}

/// `a` is the better answer: a higher rung, then a focused stroke, then the
/// pointer's output, then the window under the pointer, then the larger one.
pub open spec fn better(a: Candidate, b: Candidate) -> bool {
    if a.tier != b.tier {
        a.tier.rung() < b.tier.rung()
    } else if a.focused != b.focused {
        a.focused
    } else if a.on_cursor_output != b.on_cursor_output {
        a.on_cursor_output
    } else if a.under_cursor != b.under_cursor {
        a.under_cursor
    } else {
        rect_area(a.geometry) > rect_area(b.geometry)
    }
}

/// The best of the first `n` candidates; of equals the first.
pub open spec fn best(candidates: Seq<Candidate>, n: int) -> int
    decreases n,
{
    if n <= 1 {
        0
    } else {
        let before = best(candidates, n - 1);
        if better(candidates[n - 1], candidates[before]) {
            n - 1
        } else {
            before
        }
    }
}

/// All candidates of a scene.
pub open spec fn scene_pool(scene: Seq<OutputSnapshot>, cursor: Option<Point>) -> Seq<Candidate> {
    pool(scene, cursor, home(scene, cursor), scene.len() as int)
}

/// The window detected as the active one, if any.
pub open spec fn detected(scene: Seq<OutputSnapshot>, cursor: Option<Point>) -> Option<Rect> {
    let all = scene_pool(scene, cursor);
    if all.len() == 0 {
        None
    } else {
        Some(all[best(all, all.len() as int)].geometry)
    }
}

// ---------------------------------------------------------------------------
// Every candidate
// ---------------------------------------------------------------------------
pub open spec fn ring_rects(found: Seq<Ring>) -> Seq<Rect> {
    Seq::new(found.len(), |i: int| found[i].rect)
}

/// Everything the detectors see on one output, in its picture.
pub open spec fn picture_rects(picture: Picture) -> Seq<Rect> {
    ring_rects(rings(picture)) + majors(picture) + sized_outlines(picture) + minors(picture)
}

/// The first `n` of the rectangles in global coordinates, those that lie on
/// the output.
pub open spec fn on_output(output: &OutputSnapshot, rects: Seq<Rect>, n: int) -> Seq<Rect>
    decreases n,
{
    if n <= 0 {
        Seq::empty()
    } else {
        match global_rect(output, rects[n - 1]) {
            Some(geometry) => on_output(output, rects, n - 1).push(geometry),
            None => on_output(output, rects, n - 1),
        }
    }
}

/// Everything the detectors see on the first `n` outputs.
pub open spec fn scene_rects(scene: Seq<OutputSnapshot>, n: int) -> Seq<Rect>
    decreases n,
{
    if n <= 0 {
        Seq::empty()
    } else {
        let rects = picture_rects(picture_of_output(&scene[n - 1]));
        scene_rects(scene, n - 1) + on_output(&scene[n - 1], rects, rects.len() as int)
    }
}

/// Rectangles with their area as a sorting key.
pub open spec fn by_area(rects: Seq<Rect>) -> Seq<(u64, Rect)> {
    Seq::new(rects.len(), |i: int| (rect_area(rects[i]) as u64, rects[i]))
}

pub open spec fn without_keys(rects: Seq<(u64, Rect)>) -> Seq<Rect> {
    Seq::new(rects.len(), |i: int| rects[i].1)
}

/// The sequence without the repetitions of neighbours.
pub open spec fn without_repeats(rects: Seq<Rect>) -> Seq<Rect>
    decreases rects.len(),
{
    if rects.len() <= 1 {
        rects
    } else {
        let before = without_repeats(rects.drop_last());
        if rects.last() == rects[rects.len() - 2] {
            before
        } else {
            before.push(rects.last())
        }
    }
}

/// Every window candidate of the scene, the largest first.
pub open spec fn all_candidates(scene: Seq<OutputSnapshot>) -> Seq<Rect> {
    without_repeats(without_keys(descending(by_area(scene_rects(scene, scene.len() as int)))))
}

// ---------------------------------------------------------------------------
// The detectors
// ---------------------------------------------------------------------------
pub open spec fn finds_in_front(found: Seq<Found>) -> bool {
    forall|i: int|
        0 <= i < found.len() ==> (#[trigger] found[i]).rect.origin.x >= 0 && found[i].rect.origin.y
            >= 0
}

/// The rings that are (or are not) focused, as candidates.
fn pick_rings(found: &Vec<Ring>, focused: bool) -> (picked: Vec<Found>)
    requires
        forall|i: int| 0 <= i < found@.len() ==> sane_ring(#[trigger] found@[i]),
    ensures
        picked@ == ring_finds(found@, focused, found@.len() as int),
        finds_in_front(picked@),
{
    let mut picked: Vec<Found> = Vec::new();
    let mut i: usize = 0;
    while i < found.len()
        invariant
            forall|i: int| 0 <= i < found@.len() ==> sane_ring(#[trigger] found@[i]),
            i <= found@.len(),
            picked@ == ring_finds(found@, focused, i as int),
            finds_in_front(picked@),
        decreases found.len() - i,
    {
        assert(sane_ring(found@[i as int]));
        if found[i].focused() == focused {
            let tier = if focused {
                Tier::Ring
            } else {
                Tier::Segment
            };
            picked.push(Found { tier, focused, rect: found[i].rect });
        }
        i = i + 1;
    }
    picked
}

/// Rectangles as candidates of one rung.
fn as_finds(rects: &Vec<Rect>, tier: Tier) -> (list: Vec<Found>)
    requires
        all_in_front(rects@),
    ensures
        list@ == finds(rects@, tier),
        finds_in_front(list@),
{
    let mut list: Vec<Found> = Vec::new();
    while list.len() < rects.len()
        invariant
            all_in_front(rects@),
            list@.len() <= rects@.len(),
            forall|i: int| 0 <= i < list@.len() ==> #[trigger] list@[i] == finds(rects@, tier)[i],
            finds_in_front(list@),
        decreases rects.len() - list.len(),
    {
        let rect = rects[list.len()];
        assert(rects@[list@.len() as int].origin.x >= 0);
        list.push(Found { tier, focused: false, rect });
    }
    assert(list@ =~= finds(rects@, tier));
    list
}

/// The outlines of the picture that are as large as a window.
fn sized_outline_candidates(frame: &AnalysisFrame) -> (rects: Vec<Rect>)
    requires
        frame.wf(),
    ensures
        rects@ == sized_outlines(frame@),
        all_in_front(rects@),
{
    let all = outline_candidates(frame);
    let mut rects: Vec<Rect> = Vec::new();
    let mut i: usize = 0;
    while i < all.len()
        invariant
            frame.wf(),
            all_in_front(all@),
            i <= all@.len(),
            rects@ == sized(frame@, all@, i as int),
            all_in_front(rects@),
        decreases all.len() - i,
    {
        assert(all@[i as int].origin.x >= 0);
        if window_sized(all[i], frame) {
            rects.push(all[i]);
        }
        i = i + 1;
    }
    rects
}

/// The one output's candidates, as the rungs of a ladder: whatever the
/// strongest detector that found something yields.
pub fn output_candidates(analysis: &AnalysisFrame, cursor: Option<Point>) -> (found: Vec<Found>)
    requires
        analysis.wf(),
    ensures
        found@ == ladder(analysis@, cursor),
        finds_in_front(found@),
{
    let ghost picture = analysis@;
    let strokes = ring_candidates(analysis);
    let vivid = pick_rings(&strokes, true);
    if vivid.len() > 0 {
        return vivid;
    }
    let segments = segment_components(analysis);
    let mut regions = pick_rings(&strokes, false);
    let mut majors_found = as_finds(&segments.candidates, Tier::Segment);
    let ghost gray = regions@;
    let ghost large = majors_found@;
    regions.append(&mut majors_found);
    proof {
        assert(regions@ =~= gray + large);
        assert forall|i: int| 0 <= i < regions@.len() implies (
        #[trigger] regions@[i]).rect.origin.x >= 0 && regions@[i].rect.origin.y >= 0 by {
            if i < gray.len() {
                assert(regions@[i] == gray[i]);
            } else {
                assert(regions@[i] == large[i - gray.len()]);
            }
        }
    }
    if regions.len() > 0 {
        return regions;
    }
    let mut rest: Vec<Found> = Vec::new();
    match segments.lone_minor(cursor) {
        Some(rect) => {
            rest.push(Found { tier: Tier::Segment, focused: false, rect });
            assert(rest@ =~= optional_find(lone(minors(picture), cursor), Tier::Segment));
            return rest;
        },
        None => {},
    }
    let outlined = as_finds(&sized_outline_candidates(analysis), Tier::Outline);
    if outlined.len() > 0 {
        return outlined;
    }
    match segments.degraded_whole_output(analysis) {
        Some(rect) => {
            rest.push(Found { tier: Tier::WholeOutput, focused: false, rect });
        },
        None => {},
    }
    assert(rest@ =~= optional_find(whole_output(picture), Tier::WholeOutput));
    rest
}

/// Whether `a` is the better answer.
fn outranks(a: &Candidate, b: &Candidate) -> (first: bool)
    ensures
        first == better(*a, *b),
{
    if a.tier.rank() != b.tier.rank() {
        a.tier.rank() < b.tier.rank()
    } else if a.focused != b.focused {
        a.focused
    } else if a.on_cursor_output != b.on_cursor_output {
        a.on_cursor_output
    } else if a.under_cursor != b.under_cursor {
        a.under_cursor
    } else {
        area(a.geometry) > area(b.geometry)
    }
}

/// Adds the candidates of one output to the pool.
fn extend_pool(
    candidates: &mut Vec<Candidate>,
    output: &OutputSnapshot,
    cursor: Option<Point>,
    home: Option<u32>,
)
    ensures
        final(candidates)@ == old(candidates)@ + output_pool(output, cursor, home),
{
    let ghost before = candidates@;
    let bounds = output.geometry();
    let factor: u32 = analysis_factor(output.frame().size());
    let analysis = AnalysisFrame::sample(output.frame(), factor);
    let local = match cursor {
        Some(point) => to_local(&analysis, factor, output, point),
        None => None,
    };
    let found = output_candidates(&analysis, local);
    let mut i: usize = 0;
    assert(before + candidates_of(output, found@, cursor, home, 0) =~= before);
    while i < found.len()
        invariant
            factor == factor_of(output.shown().dim()),
            finds_in_front(found@),
            i <= found@.len(),
            candidates@ == before + candidates_of(output, found@, cursor, home, i as int),
        decreases found.len() - i,
    {
        assert(found@[i as int].rect.origin.x >= 0);
        match to_global(output, factor, found[i].rect) {
            Some(geometry) => {
                let under_cursor = match cursor {
                    Some(point) => geometry.contains(point),
                    None => false,
                };
                let on_cursor_output = match home {
                    Some(id) => id == output.global_id(),
                    None => false,
                };
                let candidate = Candidate {
                    tier: found[i].tier,
                    geometry,
                    under_cursor,
                    on_cursor_output,
                    focused: found[i].focused,
                };
                let ghost held = candidates_of(output, found@, cursor, home, i as int);
                candidates.push(candidate);
                assert((before + held).push(candidate) =~= before + held.push(candidate));
            },
            None => {},
        }
        i = i + 1;
    }
}

pub const NO_PIXEL_SIGNAL: &'static str =
    "pixel fallback found no accent outline and no separable window region (borderless windows with no gaps or shadows carry no pixel signal)";

/// Detects the active window from the captured scene, in global logical
/// geometry.  A scene with no window signal at all is an error.
pub fn detect_active_window(scene: &SceneSnapshot, cursor: Option<Point>) -> (window: Result<
    ActiveWindow,
>)
    ensures
        match window {
            Ok(window) => detected(scene@, cursor) == Some(window.geometry) && window.source
                == WindowSource::Pixel,
            Err(error) => detected(scene@, cursor) is None && error@
                == ErrorView::ActiveWindowUnavailable(NO_PIXEL_SIGNAL@),
        },
{
    let outputs = scene.outputs();
    let mut home: Option<u32> = None;
    if let Some(point) = cursor {
        let mut i: usize = 0;
        while i < outputs.len()
            invariant_except_break
                home is None,
                home_of(scene@, point, 0) == home_of(scene@, point, i as int),
            invariant
                outputs@ == scene@,
                i <= outputs@.len(),
            ensures
                home == home_of(scene@, point, 0),
            decreases outputs.len() - i,
        {
            if outputs[i].geometry().contains(point) {
                home = Some(outputs[i].global_id());
                break ;
            }
            i = i + 1;
        }
    }
    assert(home == self::home(scene@, cursor));
    let mut candidates: Vec<Candidate> = Vec::new();
    let mut i: usize = 0;
    while i < outputs.len()
        invariant
            outputs@ == scene@,
            i <= outputs@.len(),
            candidates@ == pool(scene@, cursor, home, i as int),
        decreases outputs.len() - i,
    {
        extend_pool(&mut candidates, &outputs[i], cursor, home);
        i = i + 1;
    }
    if candidates.len() == 0 {
        return Err(
            VshotError::ActiveWindowUnavailable(NO_PIXEL_SIGNAL.to_owned()),
        );
    }
    let mut first: usize = 0;
    let mut k: usize = 1;
    while k < candidates.len()
        invariant
            1 <= k <= candidates@.len(),
            first < k,
            first == best(candidates@, k as int),
        decreases candidates.len() - k,
    {
        if outranks(&candidates[k], &candidates[first]) {
            first = k;
        }
        k = k + 1;
    }
    Ok(ActiveWindow { geometry: candidates[first].geometry, source: WindowSource::Pixel })
}

/// Everything the detectors see on one output, in its picture.
fn picture_candidates(analysis: &AnalysisFrame) -> (rects: Vec<Rect>)
    requires
        analysis.wf(),
    ensures
        rects@ == picture_rects(analysis@),
        all_in_front(rects@),
{
    let ghost picture = analysis@;
    let strokes = ring_candidates(analysis);
    let mut rects: Vec<Rect> = Vec::new();
    while rects.len() < strokes.len()
        invariant
            forall|i: int| 0 <= i < strokes@.len() ==> sane_ring(#[trigger] strokes@[i]),
            rects@.len() <= strokes@.len(),
            forall|i: int|
                0 <= i < rects@.len() ==> #[trigger] rects@[i] == ring_rects(strokes@)[i],
            all_in_front(rects@),
        decreases strokes.len() - rects.len(),
    {
        assert(sane_ring(strokes@[rects@.len() as int]));
        rects.push(strokes[rects.len()].rect);
    }
    assert(rects@ =~= ring_rects(strokes@));
    let Segments { candidates, minor, background_percent, uniform } = segment_components(analysis);
    let mut large = candidates;
    let mut small = minor;
    let mut outlined = sized_outline_candidates(analysis);
    let ghost (a, b, c, d) = (rects@, large@, outlined@, small@);
    rects.append(&mut large);
    rects.append(&mut outlined);
    rects.append(&mut small);
    proof {
        assert(rects@ =~= a + b + c + d);
        assert forall|i: int| 0 <= i < rects@.len() implies (#[trigger] rects@[i]).origin.x >= 0
            && rects@[i].origin.y >= 0 by {
            if i < a.len() {
                assert(rects@[i] == a[i]);
            } else if i < a.len() + b.len() {
                assert(rects@[i] == b[i - a.len()]);
            } else if i < a.len() + b.len() + c.len() {
                assert(rects@[i] == c[i - a.len() - b.len()]);
            } else {
                assert(rects@[i] == d[i - a.len() - b.len() - c.len()]);
            }
        }
    }
    rects
}

/// Drops the repetitions of neighbours.
fn dedup(rects: &Vec<(u64, Rect)>) -> (kept: Vec<Rect>)
    ensures
        kept@ == without_repeats(without_keys(rects@)),
{
    let mut kept: Vec<Rect> = Vec::new();
    let ghost plain = without_keys(rects@);
    let mut i: usize = 0;
    assert(plain.take(0) =~= Seq::empty());
    while i < rects.len()
        invariant
            plain == without_keys(rects@),
            i <= rects@.len(),
            kept@ == without_repeats(plain.take(i as int)),
        decreases rects.len() - i,
    {
        let ghost more = plain.take(i + 1);
        assert(more.drop_last() =~= plain.take(i as int));
        if i == 0 {
            kept.push(rects[i].1);
            assert(kept@ =~= more);
        } else {
            assert(more.last() == plain[i as int] && more[more.len() - 2] == plain[i - 1]);
            if rects[i].1 != rects[i - 1].1 {
                kept.push(rects[i].1);
            }
        }
        i = i + 1;
    }
    assert(plain.take(i as int) =~= plain);
    kept
}

/// Every window candidate the detectors can see, on every output, in global
/// logical coordinates, largest first.
///
/// Interactive picking takes the last candidate under the pointer, so of two
/// overlapping regions the innermost wins.  An empty result means that the
/// outputs carry no window signal at all.
pub fn detect_window_candidates(scene: &SceneSnapshot) -> (candidates: Vec<Rect>)
    ensures
        candidates@ == all_candidates(scene@),
{
    let outputs = scene.outputs();
    let mut items: Vec<(u64, Rect)> = Vec::new();
    let mut i: usize = 0;
    assert(by_area(scene_rects(scene@, 0)) =~= Seq::empty());
    while i < outputs.len()
        invariant
            outputs@ == scene@,
            i <= outputs@.len(),
            items@ == by_area(scene_rects(scene@, i as int)),
        decreases outputs.len() - i,
    {
        let output = &outputs[i];
        let bounds = output.geometry();
        let factor: u32 = analysis_factor(output.frame().size());
        let analysis = AnalysisFrame::sample(output.frame(), factor);
        let rects = picture_candidates(&analysis);
        let ghost before = scene_rects(scene@, i as int);
        let mut j: usize = 0;
        assert(before + on_output(output, rects@, 0) =~= before);
        while j < rects.len()
            invariant
                factor == factor_of(output.shown().dim()),
                all_in_front(rects@),
                j <= rects@.len(),
                items@ == by_area(before + on_output(output, rects@, j as int)),
            decreases rects.len() - j,
        {
            assert(rects@[j as int].origin.x >= 0);
            if let Some(geometry) = to_global(output, factor, rects[j]) {
                let ghost held = before + on_output(output, rects@, j as int);
                items.push((area(geometry), geometry));
                assert(items@ =~= by_area(held.push(geometry)));
                assert(held.push(geometry) =~= before + on_output(output, rects@, j + 1));
            }
            j = j + 1;
        }
        i = i + 1;
    }
    let sorted = sort_descending(&items);
    dedup(&sorted)
}

// ---------------------------------------------------------------------------
// Laws
// ---------------------------------------------------------------------------
/// No candidate is a better answer than the one chosen, and none before it is
/// as good.
pub proof fn law_best_candidate_is_not_outranked(candidates: Seq<Candidate>, n: int, i: int)
    requires
        1 <= n <= candidates.len(),
        0 <= i < n,
    ensures
        0 <= best(candidates, n) < n,
        !better(candidates[i], candidates[best(candidates, n)]),
        i < best(candidates, n) ==> better(candidates[best(candidates, n)], candidates[i]),
    decreases n,
{
    if n > 1 {
        law_best_candidate_is_not_outranked(candidates, n - 1, if i < n - 1 {
            i
        } else {
            0
        });
    }
}

proof fn lemma_candidates_inside(
    output: &OutputSnapshot,
    found: Seq<Found>,
    cursor: Option<Point>,
    home: Option<u32>,
    n: int,
)
    requires
        0 <= n <= found.len(),
    ensures
        forall|i: int|
            #![trigger candidates_of(output, found, cursor, home, n)[i]]
            0 <= i < candidates_of(output, found, cursor, home, n).len() ==> candidates_of(
                output,
                found,
                cursor,
                home,
                n,
            )[i].geometry.within(output.area()),
    decreases n,
{
    if n > 0 {
        lemma_candidates_inside(output, found, cursor, home, n - 1);
    }
}

proof fn lemma_pool_inside(
    scene: Seq<OutputSnapshot>,
    cursor: Option<Point>,
    home: Option<u32>,
    n: int,
)
    requires
        0 <= n <= scene.len(),
    ensures
        forall|i: int|
            #![trigger pool(scene, cursor, home, n)[i]]
            0 <= i < pool(scene, cursor, home, n).len() ==> exists|k: int|
                0 <= k < n && pool(scene, cursor, home, n)[i].geometry.within(
                    (#[trigger] scene[k]).area(),
                ),
    decreases n,
{
    if n > 0 {
        lemma_pool_inside(scene, cursor, home, n - 1);
        let output = &scene[n - 1];
        let found = ladder(picture_of_output(output), local_cursor(output, cursor));
        lemma_candidates_inside(output, found, cursor, home, found.len() as int);
        let before = pool(scene, cursor, home, n - 1);
        let own = output_pool(output, cursor, home);
        let all = pool(scene, cursor, home, n);
        assert forall|i: int| 0 <= i < all.len() implies exists|k: int|
            0 <= k < n && (#[trigger] all[i]).geometry.within((#[trigger] scene[k]).area()) by {
            if i < before.len() {
                assert(all[i] == before[i]);
                let k = choose|k: int|
                    0 <= k < n - 1 && before[i].geometry.within((#[trigger] scene[k]).area());
                assert(all[i].geometry.within(scene[k].area()));
            } else {
                assert(all[i] == own[i - before.len()]);
                assert(own[i - before.len()].geometry.within(scene[n - 1].area()));
            }
        }
    }
}

/// A detected window never crosses a monitor seam: it lies inside one of the
/// outputs.
pub proof fn law_a_detected_window_lies_on_one_output(
    scene: Seq<OutputSnapshot>,
    cursor: Option<Point>,
)
    ensures
        detected(scene, cursor) matches Some(rect) ==> exists|k: int|
            0 <= k < scene.len() && rect.within((#[trigger] scene[k]).area()),
{
    let all = scene_pool(scene, cursor);
    lemma_pool_inside(scene, cursor, home(scene, cursor), scene.len() as int);
    if all.len() > 0 {
        law_best_candidate_is_not_outranked(all, all.len() as int, 0);
        let winner = all[best(all, all.len() as int)];
        let k = choose|k: int|
            0 <= k < scene.len() && winner.geometry.within((#[trigger] scene[k]).area());
        assert(winner.geometry.within(scene[k].area()));
    }
}

/// A rectangle with pixels that lies inside one of the first `n` outputs.
pub open spec fn on_one_output(scene: Seq<OutputSnapshot>, n: int, rect: Rect) -> bool {
    &&& rect.size.width > 0
    &&& rect.size.height > 0
    &&& exists|k: int| 0 <= k < n && rect.within((#[trigger] scene[k]).area())
}

proof fn lemma_scene_rects_inside(scene: Seq<OutputSnapshot>, n: int)
    requires
        0 <= n <= scene.len(),
    ensures
        forall|i: int|
            #![trigger scene_rects(scene, n)[i]]
            0 <= i < scene_rects(scene, n).len() ==> on_one_output(
                scene,
                n,
                scene_rects(scene, n)[i],
            ),
    decreases n,
{
    if n > 0 {
        lemma_scene_rects_inside(scene, n - 1);
        let rects = picture_rects(picture_of_output(&scene[n - 1]));
        lemma_output_rects_inside(&scene[n - 1], rects, rects.len() as int);
        let before = scene_rects(scene, n - 1);
        let own = on_output(&scene[n - 1], rects, rects.len() as int);
        let all = scene_rects(scene, n);
        assert forall|i: int| #![trigger all[i]] 0 <= i < all.len() implies on_one_output(
            scene,
            n,
            all[i],
        ) by {
            if i < before.len() {
                assert(all[i] == before[i]);
                let k = choose|k: int|
                    0 <= k < n - 1 && before[i].within((#[trigger] scene[k]).area());
                assert(all[i].within(scene[k].area()));
            } else {
                assert(all[i] == own[i - before.len()]);
                assert(all[i].within(scene[n - 1].area()));
            }
        }
    }
}

proof fn lemma_output_rects_inside(output: &OutputSnapshot, rects: Seq<Rect>, n: int)
    requires
        0 <= n <= rects.len(),
    ensures
        forall|i: int|
            #![trigger on_output(output, rects, n)[i]]
            0 <= i < on_output(output, rects, n).len() ==> {
                &&& on_output(output, rects, n)[i].within(output.area())
                &&& on_output(output, rects, n)[i].size.width > 0
                &&& on_output(output, rects, n)[i].size.height > 0
            },
    decreases n,
{
    if n > 0 {
        lemma_output_rects_inside(output, rects, n - 1);
        let before = on_output(output, rects, n - 1);
        let all = on_output(output, rects, n);
        assert forall|i: int| #![trigger all[i]] 0 <= i < all.len() implies {
            &&& all[i].within(output.area())
            &&& all[i].size.width > 0
            &&& all[i].size.height > 0
        } by {
            if i < before.len() {
                assert(all[i] == before[i]);
            } else {
                assert(global_rect(output, rects[n - 1]) == Some(all[i]));
            }
        }
    }
}

/// No candidate crosses a monitor seam: each has pixels and lies inside one of
/// the outputs.
pub proof fn law_every_candidate_lies_on_one_output(scene: Seq<OutputSnapshot>, i: int)
    requires
        0 <= i < all_candidates(scene).len(),
    ensures
        on_one_output(scene, scene.len() as int, all_candidates(scene)[i]),
{
    broadcast use vstd::seq_lib::group_to_multiset_ensures;

    let rects = scene_rects(scene, scene.len() as int);
    let items = by_area(rects);
    let sorted = descending(items);
    law_descending_sorts(items);
    let plain = without_keys(sorted);
    lemma_without_repeats_adds_nothing(plain);
    lemma_scene_rects_inside(scene, scene.len() as int);
    let found = all_candidates(scene)[i];
    assert(plain.contains(found));
    let j = choose|j: int| 0 <= j < plain.len() && plain[j] == found;
    assert(sorted.contains(sorted[j]));
    assert(items.to_multiset().count(sorted[j]) > 0);
    assert(items.contains(sorted[j]));
    let k = choose|k: int| 0 <= k < items.len() && items[k] == sorted[j];
    assert(rects[k] == found);
}

/// Candidates are offered the largest first.
pub proof fn law_candidates_come_largest_first(scene: Seq<OutputSnapshot>)
    ensures
        forall|i: int, j: int|
            0 <= i <= j < all_candidates(scene).len() ==> rect_area(all_candidates(scene)[i])
                >= rect_area(all_candidates(scene)[j]),
{
    let rects = scene_rects(scene, scene.len() as int);
    let items = by_area(rects);
    let sorted = descending(items);
    law_descending_sorts(items);
    let plain = without_keys(sorted);
    assert forall|i: int| 0 <= i < sorted.len() implies (#[trigger] sorted[i]).0 == rect_area(
        sorted[i].1,
    ) by {
        broadcast use vstd::seq_lib::group_to_multiset_ensures;

        assert(sorted.contains(sorted[i]));
        assert(items.to_multiset().count(sorted[i]) > 0);
        assert(items.contains(sorted[i]));
        let k = choose|k: int| 0 <= k < items.len() && items[k] == sorted[i];
        lemma_area_fits(rects[k]);
    }
    assert forall|i: int, j: int| 0 <= i <= j < plain.len() implies rect_area(plain[i])
        >= rect_area(plain[j]) by {
        assert(sorted[i].0 >= sorted[j].0);
    }
    lemma_without_repeats_keeps_order(plain);
}

proof fn lemma_area_fits(rect: Rect)
    ensures
        0 <= rect_area(rect) <= u64::MAX,
{
    let (w, h) = (rect.size.width, rect.size.height);
    assert(0 <= w * h <= u32::MAX * u32::MAX) by (nonlinear_arith)
        requires
            w <= u32::MAX,
            h <= u32::MAX,
    ;
}

proof fn lemma_without_repeats_adds_nothing(rects: Seq<Rect>)
    ensures
        forall|i: int|
            #![trigger without_repeats(rects)[i]]
            0 <= i < without_repeats(rects).len() ==> rects.contains(without_repeats(rects)[i]),
    decreases rects.len(),
{
    let kept = without_repeats(rects);
    if rects.len() > 1 {
        let shorter = rects.drop_last();
        lemma_without_repeats_adds_nothing(shorter);
        let before = without_repeats(shorter);
        assert forall|i: int| #![trigger kept[i]] 0 <= i < kept.len() implies rects.contains(
            kept[i],
        ) by {
            if i < before.len() {
                let k = choose|k: int| 0 <= k < shorter.len() && shorter[k] == before[i];
                assert(rects[k] == kept[i]);
            } else {
                assert(rects[rects.len() - 1] == kept[i]);
            }
        }
    }
}

proof fn lemma_without_repeats_keeps_order(rects: Seq<Rect>)
    requires
        forall|i: int, j: int|
            0 <= i <= j < rects.len() ==> rect_area(rects[i]) >= rect_area(rects[j]),
    ensures
        forall|i: int, j: int|
            0 <= i <= j < without_repeats(rects).len() ==> rect_area(without_repeats(rects)[i])
                >= rect_area(without_repeats(rects)[j]),
    decreases rects.len(),
{
    let kept = without_repeats(rects);
    if rects.len() > 1 {
        let shorter = rects.drop_last();
        lemma_without_repeats_keeps_order(shorter);
        lemma_without_repeats_adds_nothing(shorter);
        let before = without_repeats(shorter);
        assert forall|i: int, j: int| 0 <= i <= j < kept.len() implies rect_area(kept[i])
            >= rect_area(kept[j]) by {
            if j >= before.len() && i < before.len() {
                let k = choose|k: int| 0 <= k < shorter.len() && shorter[k] == before[i];
                assert(rect_area(rects[k]) >= rect_area(rects[rects.len() - 1]));
            }
        }
    }
}

} // verus!
