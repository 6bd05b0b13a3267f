//! What a region of a picture is: which pixels belong together, which of them
//! are background, and what the regions' boxes have to do with them.

use vstd::prelude::*;

use crate::capture::pixel_components::{
    bounds_component, component_box, component_boxes, connected, is_leader,
    law_component_box_bounds_its_component,
};
use crate::capture::pixel_flood::{
    adjacent, is_walk, lemma_reached_in_range, lemma_reaches_back, lemma_reaches_further,
    lemma_reaches_itself, reaches, steps, Terrain,
};
use crate::capture::pixel_frame::{Picture, MAX_ANALYSIS_PIXELS};
use crate::capture::pixel_segments::{
    background_count, background_share, first_covering, foreground, is_background, is_major,
    is_minor, lone, major_regions, majors, minor_regions, minors, on_edge, regions, whole_output,
};
use crate::geometry::{Point, Rect};

verus! {

// ---------------------------------------------------------------------------
// Neighbours
// ---------------------------------------------------------------------------
/// Two pixels are neighbours exactly if they lie beside each other in one row
/// or in one column; the end of a row is no neighbour of the next row's
/// beginning.
pub proof fn law_neighbours_share_a_side(width: int, ax: int, ay: int, cx: int, cy: int)
    requires
        0 <= ax < width,
        0 <= cx < width,
    ensures
        adjacent(width, ay * width + ax, cy * width + cx) <==> {
            ||| ay == cy && (ax == cx + 1 || cx == ax + 1)
            ||| ax == cx && (ay == cy + 1 || cy == ay + 1)
        },
{
    vstd::arithmetic::div_mod::lemma_fundamental_div_mod_converse(ay * width + ax, width, ay, ax);
    let d = cy - ay;
    assert(cy * width + cx - (ay * width + ax) == d * width + (cx - ax)) by (nonlinear_arith)
        requires
            d == cy - ay,
    ;
    if d == 0 {
        assert(d * width == 0);
    } else if d == 1 {
        assert(d * width == width) by (nonlinear_arith)
            requires
                d == 1,
        ;
    } else if d == -1 {
        assert(d * width == -width) by (nonlinear_arith)
            requires
                d == -1,
        ;
    } else if d >= 2 {
        assert(d * width >= 2 * width) by (nonlinear_arith)
            requires
                d >= 2,
                width > 0,
        ;
    } else {
        assert(d * width <= -2 * width) by (nonlinear_arith)
            requires
                d <= -2,
                width > 0,
        ;
    }
}

/// A flood crosses a mask between marked pixels, and a picture between pixels
/// of which no channel differs by more than ten, or of which one is see-through.
pub proof fn law_what_a_flood_crosses(terrain: Terrain, a: int, b: int)
    ensures
        terrain matches Terrain::Mask(mask) ==> (terrain.joins(a, b) <==> mask[a] && mask[b]),
        terrain matches Terrain::Smooth(pixels) ==> (terrain.joins(a, b) <==> {
            ||| pixels[a].a == 0
            ||| pixels[b].a == 0
            ||| -10 <= pixels[a].r - pixels[b].r <= 10 && -10 <= pixels[a].g - pixels[b].g <= 10
                && -10 <= pixels[a].b - pixels[b].b <= 10
        }),
        terrain.joins(a, b) == terrain.joins(b, a),
{
}

proof fn lemma_reaches_on(terrain: Terrain, width: int, a: int, walk: Seq<int>, n: int)
    requires
        is_walk(terrain, width, walk),
        reaches(terrain, width, a, walk[0]),
        0 <= n < walk.len(),
    ensures
        reaches(terrain, width, a, walk[n]),
    decreases n,
{
    if n > 0 {
        lemma_reaches_on(terrain, width, a, walk, n - 1);
        assert(steps(terrain, width, walk[n - 1], walk[n]));
        lemma_reaches_further(terrain, width, a, walk[n - 1], walk[n]);
    }
}

/// Belonging together is one relation on all pixels: each belongs to itself,
/// in either direction, and what belongs to the same pixel belongs together.
pub proof fn law_pixels_that_belong_together(
    terrain: Terrain,
    width: int,
    a: int,
    b: int,
    c: int,
)
    requires
        width >= 1,
    ensures
        reaches(terrain, width, a, a),
        reaches(terrain, width, a, b) ==> reaches(terrain, width, b, a),
        reaches(terrain, width, a, b) && reaches(terrain, width, b, c) ==> reaches(
            terrain,
            width,
            a,
            c,
        ),
        reaches(terrain, width, a, b) && steps(terrain, width, b, c) ==> reaches(
            terrain,
            width,
            a,
            c,
        ),
{
    lemma_reaches_itself(terrain, width, a);
    if reaches(terrain, width, a, b) {
        lemma_reaches_back(terrain, width, a, b);
        if steps(terrain, width, b, c) {
            lemma_reaches_further(terrain, width, a, b, c);
        }
        if reaches(terrain, width, b, c) {
            let walk = choose|walk: Seq<int>|
                #![trigger is_walk(terrain, width, walk)]
                is_walk(terrain, width, walk) && walk[0] == b && walk.last() == c;
            lemma_reaches_on(terrain, width, a, walk, walk.len() - 1);
        }
    }
}

// ---------------------------------------------------------------------------
// Components
// ---------------------------------------------------------------------------
/// The pixels at which the components of a mask begin, row by row: one for
/// each of them.
pub open spec fn are_beginnings(mask: Seq<bool>, width: int, starts: Seq<int>) -> bool {
    &&& forall|i: int, j: int| 0 <= i < j < starts.len() ==> starts[i] < starts[j]
    &&& forall|i: int| 0 <= i < starts.len() ==> 0 <= #[trigger] starts[i] < mask.len()
        && mask[starts[i]]
    &&& forall|i: int, j: int|
        0 <= i < starts.len() && #[trigger] connected(mask, width, starts[i], j) && 0 <= j < mask.len()
            ==> starts[i] <= j
    &&& forall|j: int|
        0 <= j < mask.len() && #[trigger] mask[j] ==> exists|i: int|
            0 <= i < starts.len() && connected(mask, width, #[trigger] starts[i], j)
}

proof fn lemma_leaders(mask: Seq<bool>, width: int, n: int) -> (starts: Seq<int>)
    requires
        0 <= n <= mask.len(),
    ensures
        starts.len() == component_boxes(mask, width, n).len(),
        forall|i: int|
            0 <= i < starts.len() ==> {
                &&& 0 <= #[trigger] starts[i] < n
                &&& is_leader(mask, width, starts[i])
                &&& component_boxes(mask, width, n)[i] == component_box(mask, width, starts[i])
            },
        forall|i: int, j: int| 0 <= i < j < starts.len() ==> starts[i] < starts[j],
        forall|k: int|
            0 <= k < n && #[trigger] is_leader(mask, width, k) ==> exists|i: int|
                0 <= i < starts.len() && #[trigger] starts[i] == k,
    decreases n,
{
    if n <= 0 {
        Seq::empty()
    } else {
        let before = lemma_leaders(mask, width, n - 1);
        if is_leader(mask, width, n - 1) {
            let starts = before.push(n - 1);
            assert forall|k: int| 0 <= k < n && #[trigger] is_leader(mask, width, k) implies exists|
                i: int,
            | 0 <= i < starts.len() && #[trigger] starts[i] == k by {
                if k < n - 1 {
                    let i = choose|i: int| 0 <= i < before.len() && #[trigger] before[i] == k;
                    assert(starts[i] == k);
                } else {
                    assert(starts[before.len() as int] == k);
                }
            }
            starts
        } else {
            before
        }
    }
}

proof fn lemma_leader_of(mask: Seq<bool>, width: int, j: int, from: int) -> (leader: int)
    requires
        width >= 1,
        0 <= j < mask.len(),
        0 <= from < mask.len(),
        mask[from],
        connected(mask, width, from, j),
    ensures
        0 <= leader <= from,
        is_leader(mask, width, leader),
        connected(mask, width, leader, j),
    decreases from,
{
    if is_leader(mask, width, from) {
        from
    } else {
        let k = choose|k: int|
            0 <= k < from && mask[k] && #[trigger] connected(mask, width, k, from);
        law_pixels_that_belong_together(Terrain::Mask(mask), width, k, from, j);
        lemma_leader_of(mask, width, j, k)
    }
}

/// A mask has one box for each of its components, in the order in which they
/// begin; each box holds its component and is touched by it on every side.  So
/// every marked pixel lies in a box.
pub proof fn law_one_box_for_each_component(mask: Seq<bool>, width: int, height: int)
    requires
        1 <= width,
        1 <= height,
        mask.len() == width * height,
        width * height <= MAX_ANALYSIS_PIXELS,
    ensures
        exists|starts: Seq<int>|
            {
                &&& #[trigger] are_beginnings(mask, width, starts)
                &&& starts.len() == component_boxes(mask, width, mask.len() as int).len()
                &&& forall|i: int|
                    0 <= i < starts.len() ==> bounds_component(
                        mask,
                        width,
                        #[trigger] starts[i],
                        component_boxes(mask, width, mask.len() as int)[i],
                    )
            },
        forall|j: int|
            0 <= j < mask.len() && #[trigger] mask[j] ==> exists|i: int|
                0 <= i < component_boxes(mask, width, mask.len() as int).len()
                    && #[trigger] component_boxes(mask, width, mask.len() as int)[i].covers(
                    j % width,
                    j / width,
                ),
{
    let n = mask.len() as int;
    let boxes = component_boxes(mask, width, n);
    let starts = lemma_beginnings(mask, width);
    assert forall|i: int| 0 <= i < starts.len() implies bounds_component(
        mask,
        width,
        #[trigger] starts[i],
        boxes[i],
    ) by {
        law_component_box_bounds_its_component(mask, width, height, starts[i]);
    }
    assert forall|j: int| 0 <= j < n && #[trigger] mask[j] implies exists|i: int|
        0 <= i < boxes.len() && #[trigger] boxes[i].covers(j % width, j / width) by {
        let i = choose|i: int|
            0 <= i < starts.len() && connected(mask, width, #[trigger] starts[i], j);
        lemma_box_covers(mask, width, starts[i], boxes[i], j);
    }
}

proof fn lemma_box_covers(mask: Seq<bool>, width: int, start: int, rect: Rect, j: int)
    requires
        bounds_component(mask, width, start, rect),
        connected(mask, width, start, j),
    ensures
        rect.covers(j % width, j / width),
{
}

proof fn lemma_beginnings(mask: Seq<bool>, width: int) -> (starts: Seq<int>)
    requires
        1 <= width,
    ensures
        are_beginnings(mask, width, starts),
        starts.len() == component_boxes(mask, width, mask.len() as int).len(),
        forall|i: int|
            0 <= i < starts.len() ==> component_boxes(mask, width, mask.len() as int)[i]
                == component_box(mask, width, #[trigger] starts[i]),
{
    let n = mask.len() as int;
    let terrain = Terrain::Mask(mask);
    let starts = lemma_leaders(mask, width, n);
    assert forall|i: int, j: int|
        0 <= i < starts.len() && #[trigger] connected(mask, width, starts[i], j) && 0 <= j
            < n implies starts[i] <= j by {
        lemma_leader_is_first(mask, width, starts[i], j);
    }
    assert forall|j: int| 0 <= j < n && #[trigger] mask[j] implies exists|i: int|
        0 <= i < starts.len() && connected(mask, width, #[trigger] starts[i], j) by {
        lemma_reaches_itself(terrain, width, j);
        let leader = lemma_leader_of(mask, width, j, j);
        let i = choose|i: int| 0 <= i < starts.len() && #[trigger] starts[i] == leader;
        assert(connected(mask, width, starts[i], j));
    }
    starts
}

proof fn lemma_leader_is_first(mask: Seq<bool>, width: int, leader: int, j: int)
    requires
        1 <= width,
        0 <= leader < mask.len(),
        is_leader(mask, width, leader),
        0 <= j < mask.len(),
        connected(mask, width, leader, j),
    ensures
        leader <= j,
{
    if j < leader {
        lemma_reaches_back(Terrain::Mask(mask), width, leader, j);
        lemma_reached_in_range(Terrain::Mask(mask), width, leader, j);
        assert(connected(mask, width, j, leader));
    }
}

// ---------------------------------------------------------------------------
// Background
// ---------------------------------------------------------------------------
/// The background begins at the edges of the picture and spreads to every
/// neighbour it can cross to; what it does not reach is the foreground.
pub proof fn law_the_background_spreads_from_the_edges(picture: Picture, a: int, b: int)
    requires
        0 <= a < picture.pixels.len(),
    ensures
        on_edge(picture, a) ==> is_background(picture, a),
        is_background(picture, a) && steps(
            Terrain::Smooth(picture.pixels),
            picture.width,
            a,
            b,
        ) ==> is_background(picture, b),
        foreground(picture)[a] <==> !is_background(picture, a),
{
    let terrain = Terrain::Smooth(picture.pixels);
    lemma_reaches_itself(terrain, picture.width, a);
    if is_background(picture, a) && steps(terrain, picture.width, a, b) {
        let edge = choose|edge: int|
            #![trigger reaches(terrain, picture.width, edge, a)]
            0 <= edge < picture.pixels.len() && on_edge(picture, edge) && reaches(
                terrain,
                picture.width,
                edge,
                a,
            );
        lemma_reaches_further(terrain, picture.width, edge, a, b);
    }
}

/// The edges of the picture are its first and last column and its first and
/// last row.
pub proof fn law_the_edges_of_a_picture(picture: Picture, x: int, y: int)
    requires
        0 <= x < picture.width,
        0 <= y < picture.height,
    ensures
        on_edge(picture, y * picture.width + x) <==> x == 0 || y == 0 || x + 1 == picture.width || y
            + 1 == picture.height,
{
    vstd::arithmetic::div_mod::lemma_fundamental_div_mod_converse(
        y * picture.width + x,
        picture.width,
        y,
        x,
    );
}

/// The pixels of a picture, up to a number of them, that are background.
pub open spec fn background_pixels(picture: Picture, n: int) -> Set<int> {
    vstd::set_lib::set_int_range(0, n).filter(|i: int| is_background(picture, i))
}

proof fn lemma_background_count(picture: Picture, n: int)
    requires
        0 <= n,
    ensures
        background_pixels(picture, n).finite(),
        background_count(picture, n) == background_pixels(picture, n).len(),
        background_pixels(picture, n).len() <= n,
    decreases n,
{
    vstd::set_lib::lemma_int_range(0, n);
    let now = background_pixels(picture, n);
    if n > 0 {
        lemma_background_count(picture, n - 1);
        let before = background_pixels(picture, n - 1);
        if is_background(picture, n - 1) {
            assert(now =~= before.insert(n - 1));
        } else {
            assert(now =~= before);
        }
    } else {
        assert(now =~= Set::empty());
    }
}

/// The share of the background is that of its pixels among all, in whole
/// percent and rounded down.
pub proof fn law_the_share_of_the_background(picture: Picture)
    requires
        picture.pixels.len() > 0,
    ensures
        background_share(picture) * picture.pixels.len() <= 100 * background_pixels(
            picture,
            picture.pixels.len() as int,
        ).len() < (background_share(picture) + 1) * picture.pixels.len(),
        0 <= background_share(picture) <= 100,
{
    let n = picture.pixels.len() as int;
    lemma_background_count(picture, n);
    let count = background_count(picture, n);
    let share = background_share(picture);
    vstd::arithmetic::div_mod::lemma_fundamental_div_mod(count * 100, n);
    assert(share * n <= 100 * count < (share + 1) * n) by (nonlinear_arith)
        requires
            n > 0,
            count * 100 == n * share + (count * 100) % n,
            0 <= (count * 100) % n < n,
    ;
    assert(0 <= share <= 100) by (nonlinear_arith)
        requires
            share * n <= 100 * count < (share + 1) * n,
            0 <= count <= n,
            n > 0,
    ;
}

/// A picture stands for one window as a whole where less than half of it is
/// background, or more than 97 percent is and hardly anything contrasts.  Such
/// an answer covers every pixel of the picture and nothing else.
pub proof fn law_a_picture_of_one_surface(picture: Picture)
    requires
        1 <= picture.width <= i32::MAX,
        1 <= picture.height <= i32::MAX,
    ensures
        background_share(picture) < 50 ==> whole_output(picture) is Some,
        50 <= background_share(picture) <= 97 ==> whole_output(picture) is None,
        background_share(picture) > 97 ==> (whole_output(picture) is Some
            <==> crate::capture::pixel_segments::is_uniform(picture)),
        whole_output(picture) matches Some(rect) ==> forall|x: int, y: int| #[trigger]
            rect.covers(x, y) <==> 0 <= x < picture.width && 0 <= y < picture.height,
{
}

// ---------------------------------------------------------------------------
// Regions
// ---------------------------------------------------------------------------
/// A region is a window where it is a fifth as wide and as high as the picture
/// and covers a twenty-fifth of it; it is a small one where it is a twelfth as
/// wide and as high and covers a two-hundredth of it.  Each of these is met from
/// the whole number below it on.
pub proof fn law_how_large_a_region_is(picture: Picture, rect: Rect)
    requires
        picture.width >= 1,
        picture.height >= 1,
    ensures
        is_major(picture, rect) <==> {
            &&& 5 * (rect.size.width + 1) > picture.width
            &&& 5 * (rect.size.height + 1) > picture.height
            &&& 25 * (rect.size.width * rect.size.height + 1) > picture.width * picture.height
        },
        is_minor(picture, rect) <==> {
            &&& !is_major(picture, rect)
            &&& 12 * (rect.size.width + 1) > picture.width
            &&& 12 * (rect.size.height + 1) > picture.height
            &&& 200 * (rect.size.width * rect.size.height + 1) > picture.width * picture.height
        },
{
    let all = picture.width * picture.height;
    assert(all * 4 / 100 == all / 25);
    assert(picture.width * 20 / 100 == picture.width / 5);
    assert(picture.height * 20 / 100 == picture.height / 5);
}

proof fn lemma_majors(picture: Picture, from: Seq<Rect>, n: int)
    requires
        0 <= n <= from.len(),
    ensures
        major_regions(picture, from, n) == from.take(n).filter(|r: Rect| is_major(picture, r)),
    decreases n,
{
    reveal(Seq::filter);
    if n > 0 {
        lemma_majors(picture, from, n - 1);
        assert(from.take(n).drop_last() =~= from.take(n - 1));
        assert(from.take(n).last() == from[n - 1]);
    }
}

proof fn lemma_minors(picture: Picture, from: Seq<Rect>, n: int)
    requires
        0 <= n <= from.len(),
    ensures
        minor_regions(picture, from, n) == from.take(n).filter(|r: Rect| is_minor(picture, r)),
    decreases n,
{
    reveal(Seq::filter);
    if n > 0 {
        lemma_minors(picture, from, n - 1);
        assert(from.take(n).drop_last() =~= from.take(n - 1));
        assert(from.take(n).last() == from[n - 1]);
    }
}

/// The regions of a picture are the boxes of its foreground; the major and the
/// minor ones are those that are large enough, in the order of the regions, and
/// no region is both.
pub proof fn law_the_regions_of_a_picture(picture: Picture)
    ensures
        regions(picture) == component_boxes(
            Seq::new(picture.pixels.len(), |j: int| !is_background(picture, j)),
            picture.width,
            picture.pixels.len() as int,
        ),
        majors(picture) == regions(picture).filter(|r: Rect| is_major(picture, r)),
        minors(picture) == regions(picture).filter(|r: Rect| is_minor(picture, r)),
        forall|r: Rect| !(#[trigger] is_major(picture, r) && is_minor(picture, r)),
{
    let all = regions(picture);
    lemma_majors(picture, all, all.len() as int);
    lemma_minors(picture, all, all.len() as int);
    assert(all.take(all.len() as int) =~= all);
    assert(foreground(picture) =~= Seq::new(
        picture.pixels.len(),
        |j: int| !is_background(picture, j),
    ));
}

proof fn lemma_first_covering(rects: Seq<Rect>, point: Point, from: int, at: int)
    requires
        0 <= from <= at <= rects.len(),
        at < rects.len() ==> rects[at].covers(point.x as int, point.y as int),
        forall|j: int|
            from <= j < at ==> !(#[trigger] rects[j]).covers(point.x as int, point.y as int),
    ensures
        at < rects.len() ==> first_covering(rects, point, from) == Some(rects[at]),
        at == rects.len() ==> first_covering(rects, point, from) is None,
    decreases at - from,
{
    if from < at {
        assert(!rects[from].covers(point.x as int, point.y as int));
        lemma_first_covering(rects, point, from + 1, at);
    }
}

/// Of the small regions the only one answers; of several the first one under
/// the pointer, and none where the pointer is over none of them or not known.
pub proof fn law_the_small_region_that_answers(minor: Seq<Rect>, point: Point, at: int)
    requires
        0 <= at <= minor.len(),
        at < minor.len() ==> minor[at].covers(point.x as int, point.y as int),
        forall|j: int|
            0 <= j < at ==> !(#[trigger] minor[j]).covers(point.x as int, point.y as int),
    ensures
        minor.len() == 0 ==> lone(minor, Some(point)) is None && lone(minor, None) is None,
        minor.len() == 1 ==> lone(minor, Some(point)) == Some(minor[0]) && lone(minor, None)
            == Some(minor[0]),
        minor.len() > 1 ==> lone(minor, None) is None,
        minor.len() > 1 && at < minor.len() ==> lone(minor, Some(point)) == Some(minor[at]),
        minor.len() > 1 && at == minor.len() ==> lone(minor, Some(point)) is None,
{
    lemma_first_covering(minor, point, 0, at);
}

} // verus!
