//! What the detectors' findings amount to, told without the searches and
//! counts that gather them.

use vstd::prelude::*;

use crate::capture::pixel_frame::{global_rect, picture_of_output, Picture};
use crate::capture::pixel_outline::outlines;
use crate::capture::pixel_rings::{rings, Ring};
use crate::capture::pixel_segments::{lone, majors, minors, whole_output};
use crate::capture::window_pixel::{
    all_candidates, best, better, by_area, candidates_of, detected, home, home_of, ladder,
    law_best_candidate_is_not_outranked, local_cursor, on_output, output_pool, picture_rects, pool,
    ring_finds, scene_pool, scene_rects, sized, without_keys, without_repeats, Candidate, Found,
    Tier,
};
use crate::geometry::{Point, Rect};
use crate::model::OutputSnapshot;
use crate::sorting::{descending, law_descending_sorts};

verus! {

// ---------------------------------------------------------------------------
// Between candidates
// ---------------------------------------------------------------------------
/// Any ring is a better answer than any region, a region than an outline, and
/// an outline than a whole output, wherever the pointer is and however large
/// they are.
pub proof fn law_the_detectors_are_ranked(a: Candidate, b: Candidate)
    ensures
        a.tier == Tier::Ring && b.tier != Tier::Ring ==> better(a, b) && !better(b, a),
        a.tier == Tier::Segment && (b.tier == Tier::Outline || b.tier == Tier::WholeOutput)
            ==> better(a, b) && !better(b, a),
        a.tier == Tier::Outline && b.tier == Tier::WholeOutput ==> better(a, b) && !better(b, a),
{
}

/// Of two findings of one detector the focused stroke is the better answer;
/// where that says nothing the one on the pointer's output, then the one under
/// the pointer, and then the one with more pixels.
pub proof fn law_equal_findings_are_ranked(a: Candidate, b: Candidate)
    requires
        a.tier == b.tier,
    ensures
        a.focused && !b.focused ==> better(a, b) && !better(b, a),
        a.focused == b.focused && a.on_cursor_output && !b.on_cursor_output ==> better(a, b)
            && !better(b, a),
        a.focused == b.focused && a.on_cursor_output == b.on_cursor_output && a.under_cursor
            && !b.under_cursor ==> better(a, b) && !better(b, a),
        a.focused == b.focused && a.on_cursor_output == b.on_cursor_output && a.under_cursor
            == b.under_cursor ==> (better(a, b) <==> a.geometry.size.width * a.geometry.size.height
            > b.geometry.size.width * b.geometry.size.height),
{
}

/// The pointer is on the first output that covers it, and on none where no
/// output does or nothing is known of it.
pub proof fn law_the_pointer_is_on_the_first_output_that_covers_it(
    scene: Seq<OutputSnapshot>,
    point: Point,
    at: int,
)
    ensures
        home(scene, None) is None,
        0 <= at < scene.len() && scene[at].area().covers(point.x as int, point.y as int) && (forall|
            j: int,
        |
            0 <= j < at ==> !(#[trigger] scene[j]).area().covers(point.x as int, point.y as int))
            ==> home(scene, Some(point)) == Some(scene[at].id()),
        (forall|j: int|
            0 <= j < scene.len() ==> !(#[trigger] scene[j]).area().covers(
                point.x as int,
                point.y as int,
            )) ==> home(scene, Some(point)) is None,
{
    if 0 <= at < scene.len() && scene[at].area().covers(point.x as int, point.y as int) && (forall|
        j: int,
    |
        0 <= j < at ==> !(#[trigger] scene[j]).area().covers(point.x as int, point.y as int)) {
        lemma_home_found(scene, point, 0, at);
    }
    if forall|j: int|
        0 <= j < scene.len() ==> !(#[trigger] scene[j]).area().covers(
            point.x as int,
            point.y as int,
        ) {
        lemma_home_missing(scene, point, 0);
    }
}

proof fn lemma_home_found(scene: Seq<OutputSnapshot>, point: Point, from: int, at: int)
    requires
        0 <= from <= at < scene.len(),
        scene[at].area().covers(point.x as int, point.y as int),
        forall|j: int|
            from <= j < at ==> !(#[trigger] scene[j]).area().covers(point.x as int, point.y as int),
    ensures
        home_of(scene, point, from) == Some(scene[at].id()),
    decreases at - from,
{
    if from < at {
        assert(!scene[from].area().covers(point.x as int, point.y as int));
        lemma_home_found(scene, point, from + 1, at);
    }
}

proof fn lemma_home_missing(scene: Seq<OutputSnapshot>, point: Point, from: int)
    requires
        0 <= from <= scene.len(),
        forall|j: int|
            from <= j < scene.len() ==> !(#[trigger] scene[j]).area().covers(
                point.x as int,
                point.y as int,
            ),
    ensures
        home_of(scene, point, from) is None,
    decreases scene.len() - from,
{
    if from < scene.len() {
        assert(!scene[from].area().covers(point.x as int, point.y as int));
        lemma_home_missing(scene, point, from + 1);
    }
}

/// A candidate says of a finding what is to be known of it: which detector
/// found it, where it lies, and how the pointer lies to it.
pub open spec fn says(
    candidate: Candidate,
    output: &OutputSnapshot,
    found: Found,
    cursor: Option<Point>,
    home: Option<u32>,
) -> bool {
    &&& global_rect(output, found.rect) == Some(candidate.geometry)
    &&& candidate.tier == found.tier
    &&& candidate.focused == found.focused
    &&& candidate.on_cursor_output <==> home == Some(output.id())
    &&& candidate.under_cursor <==> (cursor is Some && candidate.geometry.covers(
        cursor->Some_0.x as int,
        cursor->Some_0.y as int,
    ))
}

/// Every finding that lies on its output becomes a candidate, and every
/// candidate is one.
pub proof fn law_findings_become_candidates(
    output: &OutputSnapshot,
    found: Seq<Found>,
    cursor: Option<Point>,
    home: Option<u32>,
    n: int,
)
    requires
        0 <= n <= found.len(),
    ensures
        forall|i: int|
            0 <= i < n && global_rect(output, (#[trigger] found[i]).rect) is Some ==> exists|k: int|
                0 <= k < candidates_of(output, found, cursor, home, n).len() && says(
                    #[trigger] candidates_of(output, found, cursor, home, n)[k],
                    output,
                    found[i],
                    cursor,
                    home,
                ),
        forall|k: int|
            0 <= k < candidates_of(output, found, cursor, home, n).len() ==> exists|i: int|
                0 <= i < n && says(
                    #[trigger] candidates_of(output, found, cursor, home, n)[k],
                    output,
                    #[trigger] found[i],
                    cursor,
                    home,
                ),
    decreases n,
{
    if n > 0 {
        law_findings_become_candidates(output, found, cursor, home, n - 1);
        let before = candidates_of(output, found, cursor, home, n - 1);
        let all = candidates_of(output, found, cursor, home, n);
        if global_rect(output, found[n - 1].rect) is Some {
            assert(says(all[all.len() - 1], output, found[n - 1], cursor, home));
        }
        assert forall|i: int|
            0 <= i < n && global_rect(output, (#[trigger] found[i]).rect) is Some implies exists|
            k: int,
        | 0 <= k < all.len() && says(#[trigger] all[k], output, found[i], cursor, home) by {
            if i < n - 1 {
                let k = choose|k: int|
                    0 <= k < before.len() && says(
                        #[trigger] before[k],
                        output,
                        found[i],
                        cursor,
                        home,
                    );
                assert(all[k] == before[k]);
            }
        }
        assert forall|k: int| 0 <= k < all.len() implies exists|i: int|
            0 <= i < n && says(#[trigger] all[k], output, #[trigger] found[i], cursor, home) by {
            if k < before.len() {
                assert(all[k] == before[k]);
                let i = choose|i: int|
                    0 <= i < n - 1 && says(before[k], output, #[trigger] found[i], cursor, home);
                assert(says(all[k], output, found[i], cursor, home));
            } else {
                assert(says(all[k], output, found[n - 1], cursor, home));
            }
        }
    }
}

// ---------------------------------------------------------------------------
// On one output
// ---------------------------------------------------------------------------
/// The finding of a detector that is not a focused stroke.
pub open spec fn plain(tier: Tier, rect: Rect) -> Found {
    Found { tier, focused: false, rect }
}

proof fn lemma_ring_finds(found: Seq<Ring>, focused: bool, n: int)
    requires
        0 <= n <= found.len(),
    ensures
        forall|i: int|
            #![trigger found[i]]
            0 <= i < n && found[i].is_focused() == focused ==> ring_finds(
                found,
                focused,
                n,
            ).contains(
                (Found {
                    tier: if focused {
                        Tier::Ring
                    } else {
                        Tier::Segment
                    },
                    focused,
                    rect: found[i].rect,
                }),
            ),
        forall|f: Found| #[trigger]
            ring_finds(found, focused, n).contains(f) ==> f.focused == focused && (if focused {
                f.tier == Tier::Ring
            } else {
                f.tier == Tier::Segment
            }) && exists|i: int|
                0 <= i < n && (#[trigger] found[i]).rect == f.rect && found[i].is_focused()
                    == focused,
    decreases n,
{
    if n > 0 {
        lemma_ring_finds(found, focused, n - 1);
        let before = ring_finds(found, focused, n - 1);
        let all = ring_finds(found, focused, n);
        let tier = if focused {
            Tier::Ring
        } else {
            Tier::Segment
        };
        assert forall|i: int|
            #![trigger found[i]]
            0 <= i < n && found[i].is_focused() == focused implies all.contains(
            (Found { tier, focused, rect: found[i].rect }),
        ) by {
            let f = Found { tier, focused, rect: found[i].rect };
            if i < n - 1 {
                assert(before.contains(f));
                let k = choose|k: int| 0 <= k < before.len() && before[k] == f;
                assert(all[k] == f);
            } else {
                assert(all[all.len() - 1] == f);
            }
        }
        assert forall|f: Found| #[trigger] all.contains(f) implies f.focused == focused && (
        if focused {
            f.tier == Tier::Ring
        } else {
            f.tier == Tier::Segment
        }) && exists|i: int|
            0 <= i < n && (#[trigger] found[i]).rect == f.rect && found[i].is_focused()
                == focused by {
            let k = choose|k: int| 0 <= k < all.len() && all[k] == f;
            if k < before.len() {
                assert(before[k] == f);
                assert(before.contains(f));
            } else {
                assert(found[n - 1].rect == f.rect);
            }
        }
    }
}

proof fn lemma_sized(picture: Picture, rects: Seq<Rect>, n: int)
    requires
        0 <= n <= rects.len(),
    ensures
        forall|rect: Rect| #[trigger]
            sized(picture, rects, n).contains(rect) <==> rect.size.width * rect.size.height * 4
                >= picture.width * picture.height && exists|i: int|
                0 <= i < n && #[trigger] rects[i] == rect,
    decreases n,
{
    if n > 0 {
        lemma_sized(picture, rects, n - 1);
        let before = sized(picture, rects, n - 1);
        let all = sized(picture, rects, n);
        let last = rects[n - 1];
        assert forall|rect: Rect| #[trigger]
            all.contains(rect) <==> rect.size.width * rect.size.height * 4 >= picture.width
                * picture.height && exists|i: int| 0 <= i < n && #[trigger] rects[i] == rect by {
            if all.contains(rect) {
                let k = choose|k: int| 0 <= k < all.len() && all[k] == rect;
                if k < before.len() {
                    assert(before[k] == rect);
                    assert(before.contains(rect));
                } else {
                    assert(rects[n - 1] == rect);
                }
            }
            if rect.size.width * rect.size.height * 4 >= picture.width * picture.height && exists|
                i: int,
            | 0 <= i < n && #[trigger] rects[i] == rect {
                let i = choose|i: int| 0 <= i < n && #[trigger] rects[i] == rect;
                if i < n - 1 {
                    assert(before.contains(rect));
                    let k = choose|k: int| 0 <= k < before.len() && before[k] == rect;
                    assert(all[k] == rect);
                } else {
                    assert(all[all.len() - 1] == rect);
                }
            }
        }
    } else {
        assert forall|rect: Rect| !(#[trigger] sized(picture, rects, n).contains(rect)) by {}
    }
}

/// Where a ring of the picture is stroked vividly, the vivid rings are what is
/// found on an output: all of them, and nothing else.
pub proof fn law_vivid_rings_hide_everything_else(
    picture: Picture,
    cursor: Option<Point>,
    ring: int,
)
    requires
        0 <= ring < rings(picture).len(),
        rings(picture)[ring].saturation >= 48,
    ensures
        ladder(picture, cursor).contains(
            (Found { tier: Tier::Ring, focused: true, rect: rings(picture)[ring].rect }),
        ),
        forall|f: Found| #[trigger]
            ladder(picture, cursor).contains(f) ==> f.focused && f.tier == Tier::Ring && exists|
                i: int,
            |
                0 <= i < rings(picture).len() && (#[trigger] rings(picture)[i]).rect == f.rect
                    && rings(picture)[i].saturation >= 48,
{
    let all = rings(picture);
    lemma_ring_finds(all, true, all.len() as int);
    assert(all[ring].is_focused());
    let vivid = ring_finds(all, true, all.len() as int);
    assert(vivid.contains(
        (Found { tier: Tier::Ring, focused: true, rect: rings(picture)[ring].rect }),
    ));
    assert(vivid.len() > 0);
    assert(ladder(picture, cursor) == vivid);
}

/// No ring of the picture is stroked vividly.
pub open spec fn all_gray(picture: Picture) -> bool {
    forall|i: int| 0 <= i < rings(picture).len() ==> (#[trigger] rings(picture)[i]).saturation < 48
}

/// Without a vivid ring, the gray rings and the major regions are what is
/// found, all of them and nothing else, as far as there is one.
pub proof fn law_gray_rings_stand_among_the_regions(picture: Picture, cursor: Option<Point>)
    requires
        all_gray(picture),
        rings(picture).len() > 0 || majors(picture).len() > 0,
    ensures
        forall|i: int|
            0 <= i < rings(picture).len() ==> ladder(picture, cursor).contains(
                plain(Tier::Segment, (#[trigger] rings(picture)[i]).rect),
            ),
        forall|i: int|
            0 <= i < majors(picture).len() ==> ladder(picture, cursor).contains(
                plain(Tier::Segment, #[trigger] majors(picture)[i]),
            ),
        forall|f: Found| #[trigger]
            ladder(picture, cursor).contains(f) ==> f == plain(Tier::Segment, f.rect) && (exists|
                i: int,
            |
                0 <= i < rings(picture).len() && (#[trigger] rings(picture)[i]).rect == f.rect)
                || (f == plain(Tier::Segment, f.rect) && majors(picture).contains(f.rect)),
{
    let all = rings(picture);
    let n = all.len() as int;
    lemma_ring_finds(all, true, n);
    lemma_ring_finds(all, false, n);
    let vivid = ring_finds(all, true, n);
    let gray = ring_finds(all, false, n);
    assert(vivid.len() == 0) by {
        if vivid.len() > 0 {
            assert(vivid.contains(vivid[0]));
        }
    }
    let segments = crate::capture::window_pixel::finds(majors(picture), Tier::Segment);
    let regions = gray + segments;
    assert forall|i: int| 0 <= i < n implies regions.contains(
        plain(Tier::Segment, (#[trigger] all[i]).rect),
    ) by {
        let f = plain(Tier::Segment, all[i].rect);
        assert(!all[i].is_focused());
        assert(gray.contains(f));
        let k = choose|k: int| 0 <= k < gray.len() && gray[k] == f;
        assert(regions[k] == f);
    }
    assert forall|i: int| 0 <= i < majors(picture).len() implies regions.contains(
        plain(Tier::Segment, #[trigger] majors(picture)[i]),
    ) by {
        assert(regions[gray.len() + i] == plain(Tier::Segment, majors(picture)[i]));
    }
    assert(regions.len() > 0) by {
        if n > 0 {
            assert(regions.contains(plain(Tier::Segment, all[0].rect)));
        }
    }
    assert(ladder(picture, cursor) == regions);
    assert forall|f: Found| #[trigger] regions.contains(f) implies f == plain(Tier::Segment, f.rect)
        && (exists|i: int| 0 <= i < n && (#[trigger] all[i]).rect == f.rect) || (f == plain(
        Tier::Segment,
        f.rect,
    ) && majors(picture).contains(f.rect)) by {
        let k = choose|k: int| 0 <= k < regions.len() && regions[k] == f;
        if k < gray.len() {
            assert(gray[k] == f);
            assert(gray.contains(f));
        } else {
            assert(majors(picture)[k - gray.len()] == f.rect);
        }
    }
}

/// Without a ring and a major region, a minor one that can be told from the
/// others is what is found.
pub proof fn law_a_lone_small_region_comes_third(picture: Picture, cursor: Option<Point>)
    requires
        rings(picture).len() == 0,
        majors(picture).len() == 0,
        lone(minors(picture), cursor) is Some,
    ensures
        ladder(picture, cursor) == seq![
            plain(Tier::Segment, lone(minors(picture), cursor)->Some_0),
        ],
{
}

/// Without any region, the outlines that enclose at least a quarter of the
/// picture are what is found, all of them and nothing else; without one of
/// those, the whole output where it reads as one surface.
pub proof fn law_outlines_come_before_the_whole_output(picture: Picture, cursor: Option<Point>)
    requires
        rings(picture).len() == 0,
        majors(picture).len() == 0,
        lone(minors(picture), cursor) is None,
    ensures
        forall|i: int|
            #![trigger outlines(picture)[i]]
            0 <= i < outlines(picture).len() && outlines(picture)[i].size.width * outlines(
                picture,
            )[i].size.height * 4 >= picture.width * picture.height ==> ladder(
                picture,
                cursor,
            ).contains(plain(Tier::Outline, outlines(picture)[i])),
        forall|f: Found| #[trigger]
            ladder(picture, cursor).contains(f) ==> (f == plain(Tier::Outline, f.rect) && outlines(
                picture,
            ).contains(f.rect) && f.rect.size.width * f.rect.size.height * 4 >= picture.width
                * picture.height) || (f == plain(Tier::WholeOutput, f.rect) && whole_output(picture)
                == Some(f.rect)),
        (forall|i: int|
            #![trigger outlines(picture)[i]]
            0 <= i < outlines(picture).len() ==> outlines(picture)[i].size.width * outlines(
                picture,
            )[i].size.height * 4 < picture.width * picture.height) ==> ladder(picture, cursor)
            == match whole_output(picture) {
            Some(rect) => seq![plain(Tier::WholeOutput, rect)],
            None => Seq::empty(),
        },
{
    let all = outlines(picture);
    lemma_sized(picture, all, all.len() as int);
    let large = sized(picture, all, all.len() as int);
    let found = crate::capture::window_pixel::finds(large, Tier::Outline);
    assert forall|i: int|
        #![trigger all[i]]
        0 <= i < all.len() && all[i].size.width * all[i].size.height * 4 >= picture.width
            * picture.height implies ladder(picture, cursor).contains(
        plain(Tier::Outline, all[i]),
    ) by {
        assert(large.contains(all[i]));
        let k = choose|k: int| 0 <= k < large.len() && large[k] == all[i];
        assert(found[k] == plain(Tier::Outline, all[i]));
        assert(found.len() > 0);
        assert(ladder(picture, cursor) == found);
    }
    assert forall|f: Found| #[trigger] ladder(picture, cursor).contains(f) implies (f == plain(
        Tier::Outline,
        f.rect,
    ) && all.contains(f.rect) && f.rect.size.width * f.rect.size.height * 4 >= picture.width
        * picture.height) || (f == plain(Tier::WholeOutput, f.rect) && whole_output(picture)
        == Some(f.rect)) by {
        let k = choose|k: int|
            0 <= k < ladder(picture, cursor).len() && ladder(picture, cursor)[k] == f;
        if found.len() > 0 {
            assert(found[k] == f);
            assert(large[k] == f.rect);
            assert(large.contains(f.rect));
        }
    }
    if forall|i: int|
        #![trigger all[i]]
        0 <= i < all.len() ==> all[i].size.width * all[i].size.height * 4 < picture.width
            * picture.height {
        if large.len() > 0 {
            assert(large.contains(large[0]));
        }
    }
}

// ---------------------------------------------------------------------------
// On all outputs
// ---------------------------------------------------------------------------
proof fn lemma_pool_holds(
    scene: Seq<OutputSnapshot>,
    cursor: Option<Point>,
    home: Option<u32>,
    n: int,
)
    requires
        0 <= n <= scene.len(),
    ensures
        forall|c: Candidate| #[trigger]
            pool(scene, cursor, home, n).contains(c) <==> exists|k: int|
                0 <= k < n && output_pool(&#[trigger] scene[k], cursor, home).contains(c),
    decreases n,
{
    if n > 0 {
        lemma_pool_holds(scene, cursor, home, n - 1);
        let before = pool(scene, cursor, home, n - 1);
        let own = output_pool(&scene[n - 1], cursor, home);
        let all = pool(scene, cursor, home, n);
        assert forall|c: Candidate| #[trigger] all.contains(c) <==> exists|k: int|
            0 <= k < n && output_pool(&#[trigger] scene[k], cursor, home).contains(c) by {
            if all.contains(c) {
                let i = choose|i: int| 0 <= i < all.len() && all[i] == c;
                if i < before.len() {
                    assert(before[i] == c);
                    assert(before.contains(c));
                } else {
                    assert(own[i - before.len()] == c);
                    assert(output_pool(&scene[n - 1], cursor, home).contains(c));
                }
            }
            if exists|k: int|
                0 <= k < n && output_pool(&#[trigger] scene[k], cursor, home).contains(c) {
                let k = choose|k: int|
                    0 <= k < n && output_pool(&#[trigger] scene[k], cursor, home).contains(c);
                if k < n - 1 {
                    assert(before.contains(c));
                    let i = choose|i: int| 0 <= i < before.len() && before[i] == c;
                    assert(all[i] == c);
                } else {
                    let i = choose|i: int| 0 <= i < own.len() && own[i] == c;
                    assert(all[before.len() + i] == c);
                }
            }
        }
    } else {
        assert forall|c: Candidate| !(#[trigger] pool(scene, cursor, home, n).contains(c)) by {}
    }
}

/// What the detectors find on an output, seen from the pointer.
pub open spec fn found_on(output: &OutputSnapshot, cursor: Option<Point>) -> Seq<Found> {
    ladder(picture_of_output(output), local_cursor(output, cursor))
}

/// The window that is detected is what the detectors found on one of the
/// outputs, and nothing found on any output is a better answer.  Where
/// something is found on an output, a window is detected.
pub proof fn law_the_best_finding_is_the_window(
    scene: Seq<OutputSnapshot>,
    cursor: Option<Point>,
    k: int,
    i: int,
)
    requires
        0 <= k < scene.len(),
        0 <= i < found_on(&scene[k], cursor).len(),
        global_rect(&scene[k], found_on(&scene[k], cursor)[i].rect) is Some,
    ensures
        detected(scene, cursor) is Some,
        exists|winner: Candidate, rival: Candidate, output: int, at: int|
            {
                &&& 0 <= output < scene.len()
                &&& 0 <= at < found_on(&scene[output], cursor).len()
                &&& detected(scene, cursor) == Some(winner.geometry)
                &&& #[trigger] says(
                    winner,
                    &scene[output],
                    found_on(&scene[output], cursor)[at],
                    cursor,
                    home(scene, cursor),
                )
                &&& #[trigger] says(
                    rival,
                    &scene[k],
                    found_on(&scene[k], cursor)[i],
                    cursor,
                    home(scene, cursor),
                )
                &&& !better(rival, winner)
            },
{
    let home = home(scene, cursor);
    let all = scene_pool(scene, cursor);
    lemma_pool_holds(scene, cursor, home, scene.len() as int);
    let found = found_on(&scene[k], cursor);
    let own = output_pool(&scene[k], cursor, home);
    law_findings_become_candidates(&scene[k], found, cursor, home, found.len() as int);
    assert(global_rect(&scene[k], found[i].rect) is Some);
    let c = choose|c: int|
        0 <= c < own.len() && says(#[trigger] own[c], &scene[k], found[i], cursor, home);
    let rival = own[c];
    assert(own.contains(rival));
    assert(all.contains(rival));
    let r = choose|r: int| 0 <= r < all.len() && all[r] == rival;
    law_best_candidate_is_not_outranked(all, all.len() as int, r);
    let winner = all[best(all, all.len() as int)];
    assert(all.contains(winner));
    let output = choose|o: int|
        0 <= o < scene.len() && output_pool(&#[trigger] scene[o], cursor, home).contains(winner);
    let theirs = found_on(&scene[output], cursor);
    law_findings_become_candidates(&scene[output], theirs, cursor, home, theirs.len() as int);
    let w = choose|w: int|
        0 <= w < output_pool(&scene[output], cursor, home).len() && output_pool(
            &scene[output],
            cursor,
            home,
        )[w] == winner;
    let at = choose|at: int|
        0 <= at < theirs.len() && says(
            candidates_of(&scene[output], theirs, cursor, home, theirs.len() as int)[w],
            &scene[output],
            #[trigger] theirs[at],
            cursor,
            home,
        );
    assert(says(winner, &scene[output], theirs[at], cursor, home));
}

proof fn lemma_on_output(output: &OutputSnapshot, rects: Seq<Rect>, n: int)
    requires
        0 <= n <= rects.len(),
    ensures
        forall|rect: Rect| #[trigger]
            on_output(output, rects, n).contains(rect) <==> exists|i: int|
                0 <= i < n && global_rect(output, #[trigger] rects[i]) == Some(rect),
    decreases n,
{
    if n > 0 {
        lemma_on_output(output, rects, n - 1);
        let before = on_output(output, rects, n - 1);
        let all = on_output(output, rects, n);
        assert forall|rect: Rect| #[trigger] all.contains(rect) <==> exists|i: int|
            0 <= i < n && global_rect(output, #[trigger] rects[i]) == Some(rect) by {
            if all.contains(rect) {
                let k = choose|k: int| 0 <= k < all.len() && all[k] == rect;
                if k < before.len() {
                    assert(before[k] == rect);
                    assert(before.contains(rect));
                } else {
                    assert(global_rect(output, rects[n - 1]) == Some(rect));
                }
            }
            if exists|i: int| 0 <= i < n && global_rect(output, #[trigger] rects[i]) == Some(rect) {
                let i = choose|i: int|
                    0 <= i < n && global_rect(output, #[trigger] rects[i]) == Some(rect);
                if i < n - 1 {
                    assert(before.contains(rect));
                    let k = choose|k: int| 0 <= k < before.len() && before[k] == rect;
                    assert(all[k] == rect);
                } else {
                    assert(all[all.len() - 1] == rect);
                }
            }
        }
    } else {
        assert forall|rect: Rect| !(#[trigger] on_output(output, rects, n).contains(rect)) by {}
    }
}

/// One of the detectors sees the rectangle in the picture: as a ring, as a
/// major or minor region, or as an outline that encloses at least a quarter of
/// the picture.
pub open spec fn is_seen(picture: Picture, rect: Rect) -> bool {
    ||| exists|i: int| 0 <= i < rings(picture).len() && (#[trigger] rings(picture)[i]).rect == rect
    ||| majors(picture).contains(rect)
    ||| minors(picture).contains(rect)
    ||| outlines(picture).contains(rect) && rect.size.width * rect.size.height * 4 >= picture.width
        * picture.height
}

proof fn lemma_picture_rects(picture: Picture)
    ensures
        forall|rect: Rect| #[trigger]
            picture_rects(picture).contains(rect) <==> is_seen(picture, rect),
{
    let found = rings(picture);
    let ringed = crate::capture::window_pixel::ring_rects(found);
    let large = crate::capture::window_pixel::sized_outlines(picture);
    let (major, minor) = (majors(picture), minors(picture));
    let all = picture_rects(picture);
    lemma_sized(picture, outlines(picture), outlines(picture).len() as int);
    let (a, b, c) = (ringed.len(), ringed.len() + major.len(), ringed.len() + major.len() + large.len());
    assert forall|rect: Rect| #[trigger] all.contains(rect) <==> is_seen(picture, rect) by {
        if all.contains(rect) {
            let k = choose|k: int| 0 <= k < all.len() && all[k] == rect;
            if k < a {
                assert(found[k].rect == rect);
            } else if k < b {
                assert(major[k - a] == rect);
            } else if k < c {
                assert(large[k - b] == rect);
                assert(large.contains(rect));
            } else {
                assert(minor[k - c] == rect);
            }
        }
        if is_seen(picture, rect) {
            if exists|i: int| 0 <= i < found.len() && (#[trigger] found[i]).rect == rect {
                let i = choose|i: int| 0 <= i < found.len() && (#[trigger] found[i]).rect == rect;
                assert(all[i] == rect);
            } else if major.contains(rect) {
                let i = choose|i: int| 0 <= i < major.len() && major[i] == rect;
                assert(all[a + i] == rect);
            } else if minor.contains(rect) {
                let i = choose|i: int| 0 <= i < minor.len() && minor[i] == rect;
                assert(all[c + i] == rect);
            } else {
                let from = outlines(picture);
                let i = choose|i: int| 0 <= i < from.len() && from[i] == rect;
                assert(from[i] == rect);
                assert(large.contains(rect));
                let j = choose|j: int| 0 <= j < large.len() && large[j] == rect;
                assert(all[b + j] == rect);
            }
        }
    }
}

/// The rectangle is what one of the detectors sees on the output.
pub open spec fn is_seen_on(output: &OutputSnapshot, rect: Rect) -> bool {
    exists|local: Rect|
        #![trigger global_rect(output, local)]
        is_seen(picture_of_output(output), local) && global_rect(output, local) == Some(rect)
}

proof fn lemma_scene_rects(scene: Seq<OutputSnapshot>, n: int)
    requires
        0 <= n <= scene.len(),
    ensures
        forall|rect: Rect| #[trigger]
            scene_rects(scene, n).contains(rect) <==> exists|k: int|
                0 <= k < n && is_seen_on(&#[trigger] scene[k], rect),
    decreases n,
{
    if n > 0 {
        lemma_scene_rects(scene, n - 1);
        let before = scene_rects(scene, n - 1);
        let picture = picture_of_output(&scene[n - 1]);
        let rects = picture_rects(picture);
        let own = on_output(&scene[n - 1], rects, rects.len() as int);
        let all = scene_rects(scene, n);
        lemma_picture_rects(picture);
        lemma_on_output(&scene[n - 1], rects, rects.len() as int);
        assert forall|rect: Rect| #[trigger] all.contains(rect) <==> exists|k: int|
            0 <= k < n && is_seen_on(&#[trigger] scene[k], rect) by {
            if all.contains(rect) {
                let i = choose|i: int| 0 <= i < all.len() && all[i] == rect;
                if i < before.len() {
                    assert(before[i] == rect);
                    assert(before.contains(rect));
                } else {
                    assert(own[i - before.len()] == rect);
                    assert(own.contains(rect));
                    let j = choose|j: int|
                        0 <= j < rects.len() && global_rect(&scene[n - 1], #[trigger] rects[j])
                            == Some(rect);
                    assert(rects.contains(rects[j]));
                    assert(is_seen_on(&scene[n - 1], rect));
                }
            }
            if exists|k: int| 0 <= k < n && is_seen_on(&#[trigger] scene[k], rect) {
                let k = choose|k: int| 0 <= k < n && is_seen_on(&#[trigger] scene[k], rect);
                if k < n - 1 {
                    assert(before.contains(rect));
                    let i = choose|i: int| 0 <= i < before.len() && before[i] == rect;
                    assert(all[i] == rect);
                } else {
                    let local = choose|local: Rect|
                        #![trigger global_rect(&scene[n - 1], local)]
                        is_seen(picture, local) && global_rect(&scene[n - 1], local) == Some(rect);
                    assert(rects.contains(local));
                    let j = choose|j: int| 0 <= j < rects.len() && rects[j] == local;
                    assert(global_rect(&scene[n - 1], rects[j]) == Some(rect));
                    assert(own.contains(rect));
                    let i = choose|i: int| 0 <= i < own.len() && own[i] == rect;
                    assert(all[before.len() + i] == rect);
                }
            }
        }
    } else {
        assert forall|rect: Rect| !(#[trigger] scene_rects(scene, n).contains(rect)) by {}
    }
}

proof fn lemma_without_repeats(rects: Seq<Rect>)
    ensures
        forall|rect: Rect| #[trigger]
            without_repeats(rects).contains(rect) <==> rects.contains(rect),
        rects.len() > 0 ==> without_repeats(rects).len() > 0 && without_repeats(rects).last()
            == rects.last(),
        forall|i: int|
            0 < i < without_repeats(rects).len() ==> without_repeats(rects)[i - 1]
                != #[trigger] without_repeats(rects)[i],
    decreases rects.len(),
{
    if rects.len() > 1 {
        let shorter = rects.drop_last();
        lemma_without_repeats(shorter);
        let before = without_repeats(shorter);
        let kept = without_repeats(rects);
        let n = rects.len();
        assert(shorter.last() == rects[n - 2]);
        assert forall|rect: Rect| #[trigger] kept.contains(rect) <==> rects.contains(rect) by {
            if kept.contains(rect) {
                let k = choose|k: int| 0 <= k < kept.len() && kept[k] == rect;
                if k < before.len() {
                    assert(before[k] == rect);
                    assert(before.contains(rect));
                    let j = choose|j: int| 0 <= j < shorter.len() && shorter[j] == rect;
                    assert(rects[j] == rect);
                } else {
                    assert(rects[n - 1] == rect);
                }
            }
            if rects.contains(rect) {
                let j = choose|j: int| 0 <= j < rects.len() && rects[j] == rect;
                let held = if j < n - 1 {
                    j
                } else {
                    n - 2
                };
                if j < n - 1 || rects[n - 1] == rects[n - 2] {
                    assert(shorter[held] == rect);
                    assert(shorter.contains(rect));
                    assert(before.contains(rect));
                    let k = choose|k: int| 0 <= k < before.len() && before[k] == rect;
                    assert(kept[k] == rect);
                } else {
                    assert(kept[kept.len() - 1] == rect);
                }
            }
        }
        assert forall|i: int| 0 < i < kept.len() implies kept[i - 1] != #[trigger] kept[i] by {
            if i < before.len() {
                assert(before[i - 1] != before[i]);
            }
        }
    }
}

/// What is offered to be picked is what one of the detectors sees on one of
/// the outputs: all of it, and nothing else, and nothing twice in a row.
pub proof fn law_everything_seen_is_offered(scene: Seq<OutputSnapshot>)
    ensures
        forall|rect: Rect| #[trigger]
            all_candidates(scene).contains(rect) <==> exists|k: int|
                0 <= k < scene.len() && is_seen_on(&#[trigger] scene[k], rect),
        forall|i: int|
            0 < i < all_candidates(scene).len() ==> all_candidates(scene)[i - 1]
                != #[trigger] all_candidates(scene)[i],
{
    broadcast use vstd::seq_lib::group_to_multiset_ensures;

    let rects = scene_rects(scene, scene.len() as int);
    let items = by_area(rects);
    let sorted = descending(items);
    let sorted_rects = without_keys(sorted);
    law_descending_sorts(items);
    lemma_without_repeats(sorted_rects);
    lemma_scene_rects(scene, scene.len() as int);
    assert forall|rect: Rect| #[trigger] all_candidates(scene).contains(rect) <==> exists|k: int|
        0 <= k < scene.len() && is_seen_on(&#[trigger] scene[k], rect) by {
        if sorted_rects.contains(rect) {
            let j = choose|j: int| 0 <= j < sorted_rects.len() && sorted_rects[j] == rect;
            assert(sorted.contains(sorted[j]));
            assert(items.to_multiset().count(sorted[j]) > 0);
            assert(items.contains(sorted[j]));
            let k = choose|k: int| 0 <= k < items.len() && items[k] == sorted[j];
            assert(rects[k] == rect);
            assert(rects.contains(rect));
        }
        if rects.contains(rect) {
            let k = choose|k: int| 0 <= k < rects.len() && rects[k] == rect;
            assert(items.contains(items[k]));
            assert(sorted.to_multiset().count(items[k]) > 0);
            assert(sorted.contains(items[k]));
            let j = choose|j: int| 0 <= j < sorted.len() && sorted[j] == items[k];
            assert(sorted_rects[j] == rect);
            assert(sorted_rects.contains(rect));
        }
    }
}

} // verus!
