//! The connected components of a mask, as bounding boxes.

use vstd::prelude::*;

use crate::geometry::Rect;

use super::pixel_flood::{
    closed_under_steps, flood, lemma_closed_holds_what_is_reached, lemma_reached_in_range,
    lemma_reaches_back, lemma_reaches_itself, reaches, steps, Ground, Terrain,
};
use super::pixel_frame::MAX_ANALYSIS_PIXELS;

verus! {

/// The pixels `a` and `b` of the mask belong to one 4-connected component.
pub open spec fn connected(mask: Seq<bool>, width: int, a: int, b: int) -> bool {
    reaches(Terrain::Mask(mask), width, a, b)
}

/// The rectangle holds the whole component of `start` and is touched by it on
/// every side.
pub open spec fn bounds_component(mask: Seq<bool>, width: int, start: int, rect: Rect) -> bool {
    &&& forall|j: int|
        #[trigger] connected(mask, width, start, j) ==> rect.covers(j % width, j / width)
    &&& exists|j: int|
        #[trigger] connected(mask, width, start, j) && j % width == rect.origin.x
    &&& exists|j: int|
        #[trigger] connected(mask, width, start, j) && j % width == rect.right_edge() - 1
    &&& exists|j: int|
        #[trigger] connected(mask, width, start, j) && j / width == rect.origin.y
    &&& exists|j: int|
        #[trigger] connected(mask, width, start, j) && j / width == rect.bottom_edge() - 1
}

/// The bounding box of the component of `start`.
pub open spec fn component_box(mask: Seq<bool>, width: int, start: int) -> Rect {
    choose|rect: Rect| bounds_component(mask, width, start, rect)
}

/// The pixel is the first one, row by row, of its component.
pub open spec fn is_leader(mask: Seq<bool>, width: int, at: int) -> bool {
    &&& mask[at]
    &&& forall|k: int| 0 <= k < at && mask[k] ==> !#[trigger] connected(mask, width, k, at)
}

/// The bounding boxes of the components that begin in the first `n` pixels, in
/// the order in which they begin.
pub open spec fn component_boxes(mask: Seq<bool>, width: int, n: int) -> Seq<Rect>
    decreases n,
{
    if n <= 0 {
        Seq::empty()
    } else if is_leader(mask, width, n - 1) {
        component_boxes(mask, width, n - 1).push(component_box(mask, width, n - 1))
    } else {
        component_boxes(mask, width, n - 1)
    }
}

/// The rectangle lies inside a picture of this size and covers something.
pub open spec fn inside_picture(rect: Rect, width: int, height: int) -> bool {
    &&& 0 <= rect.origin.x
    &&& 0 <= rect.origin.y
    &&& rect.size.width > 0
    &&& rect.size.height > 0
    &&& rect.right_edge() <= width
    &&& rect.bottom_edge() <= height
}

proof fn lemma_component_box_unique(mask: Seq<bool>, width: int, start: int, rect: Rect)
    requires
        bounds_component(mask, width, start, rect),
    ensures
        component_box(mask, width, start) == rect,
{
    let chosen = component_box(mask, width, start);
    assert(bounds_component(mask, width, start, chosen));
    let (a, b) = (rect, chosen);
    let l = choose|j: int| #[trigger] connected(mask, width, start, j) && j % width == a.origin.x;
    let r = choose|j: int|
        #[trigger] connected(mask, width, start, j) && j % width == a.right_edge() - 1;
    let t = choose|j: int| #[trigger] connected(mask, width, start, j) && j / width == a.origin.y;
    let d = choose|j: int|
        #[trigger] connected(mask, width, start, j) && j / width == a.bottom_edge() - 1;
    assert(b.covers(l % width, l / width) && b.covers(r % width, r / width));
    assert(b.covers(t % width, t / width) && b.covers(d % width, d / width));
    let l2 = choose|j: int| #[trigger] connected(mask, width, start, j) && j % width == b.origin.x;
    let r2 = choose|j: int|
        #[trigger] connected(mask, width, start, j) && j % width == b.right_edge() - 1;
    let t2 = choose|j: int| #[trigger] connected(mask, width, start, j) && j / width == b.origin.y;
    let d2 = choose|j: int|
        #[trigger] connected(mask, width, start, j) && j / width == b.bottom_edge() - 1;
    assert(a.covers(l2 % width, l2 / width) && a.covers(r2 % width, r2 / width));
    assert(a.covers(t2 % width, t2 / width) && a.covers(d2 % width, d2 / width));
    assert(a.origin == b.origin);
    assert(a.size == b.size);
}

/// A pixel number is split into a column and a row of the picture.
proof fn lemma_column_row(i: int, width: int, height: int)
    requires
        width >= 1,
        height >= 1,
        0 <= i < width * height,
    ensures
        0 <= i % width < width,
        0 <= i / width < height,
{
    vstd::arithmetic::div_mod::lemma_fundamental_div_mod(i, width);
    let (q, r) = (i / width, i % width);
    assert(0 <= q < height) by (nonlinear_arith)
        requires
            width * q + r == i,
            0 <= r < width,
            0 <= i < width * height,
    ;
}

/// The bounding box of the component containing `start`; marks its pixels in
/// `seen`.
fn component_bbox(
    mask: &Vec<bool>,
    width: usize,
    height: usize,
    seen: &mut Vec<bool>,
    start: usize,
) -> (rect: Rect)
    requires
        1 <= width,
        1 <= height,
        mask@.len() == width * height,
        width * height <= MAX_ANALYSIS_PIXELS,
        old(seen)@.len() == mask@.len(),
        start < mask@.len(),
        mask@[start as int],
        !old(seen)@[start as int],
        closed_under_steps(Terrain::Mask(mask@), width as int, old(seen)@),
    ensures
        rect == component_box(mask@, width as int, start as int),
        inside_picture(rect, width as int, height as int),
        final(seen)@.len() == mask@.len(),
        closed_under_steps(Terrain::Mask(mask@), width as int, final(seen)@),
        forall|j: int|
            0 <= j < mask@.len() ==> (#[trigger] final(seen)@[j] <==> old(seen)@[j] || connected(
                mask@,
                width as int,
                start as int,
                j,
            )),
{
    let ghost before = seen@;
    let ghost w = width as int;
    let ghost h = height as int;
    let ghost terrain = Terrain::Mask(mask@);
    let ground = Ground::Mask(mask);
    seen.set(start, true);
    let mut starts: Vec<usize> = Vec::new();
    starts.push(start);
    proof {
        assert(mask@.len() % (width as nat) == 0) by {
            vstd::arithmetic::div_mod::lemma_mod_multiples_basic(h, w);
            assert(h * w == w * h) by (nonlinear_arith);
        }
        assert(starts@[0] == start);
        assert forall|a: int, b: int|
            #![trigger steps(terrain, w, a, b)]
            steps(terrain, w, a, b) && seen@[a] && !starts@.contains(a as usize) implies seen@[b] by {
            if a == start {
                assert(starts@[0] == a as usize);
            } else {
                assert(before[a]);
            }
        }
    }
    let ghost marked = seen@;
    let order = flood(&ground, width, seen, starts);
    proof {
        assert(order@.contains(starts@[0]));
        assert forall|j: int| 0 <= j < mask@.len() implies (#[trigger] seen@[j] <==> before[j]
            || connected(mask@, w, start as int, j)) by {
            if connected(mask@, w, start as int, j) {
                assert(marked[start as int]);
                assert(seen@[start as int]);
                lemma_closed_holds_what_is_reached(terrain, w, seen@, start as int, j);
            }
            if seen@[j] && !before[j] {
                if j == start {
                    lemma_reaches_itself(terrain, w, j);
                } else {
                    assert(!marked[j]);
                    assert(order@.contains(j as usize));
                    let i = choose|i: int| 0 <= i < order@.len() && order@[i] == j as usize;
                    assert(order@[i] == j as usize);
                }
            }
        }
        assert forall|i: int| 0 <= i < order@.len() implies connected(
            mask@,
            w,
            start as int,
            #[trigger] order@[i] as int,
        ) by {
            let k = choose|k: int|
                0 <= k < starts@.len() && reaches(
                    terrain,
                    w,
                    #[trigger] starts@[k] as int,
                    order@[i] as int,
                );
            assert(starts@[k] == start);
        }
        lemma_column_row(start as int, w, h);
        assert(connected(mask@, w, start as int, start as int)) by {
            lemma_reaches_itself(terrain, w, start as int);
        }
        assert(w <= w * h && h <= w * h) by (nonlinear_arith)
            requires
                w >= 1,
                h >= 1,
        ;
    }
    let mut min_x: usize = start % width;
    let mut max_x: usize = start % width;
    let mut min_y: usize = start / width;
    let mut max_y: usize = start / width;
    let ghost mut at_left: int = start as int;
    let ghost mut at_right: int = start as int;
    let ghost mut at_top: int = start as int;
    let ghost mut at_bottom: int = start as int;
    let mut i: usize = 0;
    while i < order.len()
        invariant
            w == width,
            h == height,
            1 <= w,
            1 <= h,
            mask@.len() == w * h,
            i <= order@.len(),
            forall|j: int|
                0 <= j < order@.len() ==> #[trigger] order@[j] < mask@.len() && connected(
                    mask@,
                    w,
                    start as int,
                    order@[j] as int,
                ),
            min_x <= start as int % w <= max_x < w,
            min_y <= start as int / w <= max_y < h,
            connected(mask@, w, start as int, at_left) && at_left % w == min_x,
            connected(mask@, w, start as int, at_right) && at_right % w == max_x,
            connected(mask@, w, start as int, at_top) && at_top / w == min_y,
            connected(mask@, w, start as int, at_bottom) && at_bottom / w == max_y,
            forall|j: int|
                0 <= j < i ==> min_x <= (#[trigger] order@[j]) as int % w <= max_x && min_y
                    <= order@[j] as int / w <= max_y,
        decreases order.len() - i,
    {
        let index: usize = order[i];
        assert(connected(mask@, w, start as int, order@[i as int] as int));
        proof {
            lemma_column_row(index as int, w, h);
        }
        let x: usize = index % width;
        let y: usize = index / width;
        if x < min_x {
            min_x = x;
            proof {
                at_left = index as int;
            }
        }
        if x > max_x {
            max_x = x;
            proof {
                at_right = index as int;
            }
        }
        if y < min_y {
            min_y = y;
            proof {
                at_top = index as int;
            }
        }
        if y > max_y {
            max_y = y;
            proof {
                at_bottom = index as int;
            }
        }
        i = i + 1;
    }
    let rect = Rect::new(
        min_x as i32,
        min_y as i32,
        (max_x - min_x + 1) as u32,
        (max_y - min_y + 1) as u32,
    );
    proof {
        assert forall|j: int| #[trigger] connected(
            mask@,
            w,
            start as int,
            j,
        ) implies rect.covers(j % w, j / w) by {
            lemma_reached_in_range(terrain, w, start as int, j);
            assert(seen@[j]);
            if j != start {
                if before[j] {
                    lemma_reaches_back(terrain, w, start as int, j);
                    lemma_closed_holds_what_is_reached(terrain, w, before, j, start as int);
                }
                assert(!marked[j]);
                assert(order@.contains(j as usize));
                let i = choose|i: int| 0 <= i < order@.len() && order@[i] == j as usize;
                assert(order@[i] as int == j);
            }
        }
        assert(bounds_component(mask@, w, start as int, rect));
        lemma_component_box_unique(mask@, w, start as int, rect);
    }
    rect
}

/// The bounding boxes of the components of the mask, in the order in which the
/// components begin.
pub fn find_component_boxes(mask: &Vec<bool>, width: usize, height: usize) -> (boxes: Vec<Rect>)
    requires
        1 <= width,
        1 <= height,
        mask@.len() == width * height,
        width * height <= MAX_ANALYSIS_PIXELS,
    ensures
        boxes@ == component_boxes(mask@, width as int, mask@.len() as int),
        forall|i: int|
            0 <= i < boxes@.len() ==> inside_picture(
                #[trigger] boxes@[i],
                width as int,
                height as int,
            ),
{
    let ghost w = width as int;
    let ghost terrain = Terrain::Mask(mask@);
    let total: usize = mask.len();
    let mut seen: Vec<bool> = Vec::new();
    while seen.len() < total
        invariant
            seen.len() <= total,
            forall|j: int| 0 <= j < seen@.len() ==> !#[trigger] seen@[j],
        decreases total - seen.len(),
    {
        seen.push(false);
    }
    let mut boxes: Vec<Rect> = Vec::new();
    let mut at: usize = 0;
    while at < total
        invariant
            w == width,
            1 <= width,
            1 <= height,
            terrain == Terrain::Mask(mask@),
            total == mask@.len(),
            mask@.len() == width * height,
            width * height <= MAX_ANALYSIS_PIXELS,
            at <= total,
            seen@.len() == mask@.len(),
            closed_under_steps(terrain, w, seen@),
            forall|j: int|
                0 <= j < mask@.len() ==> (#[trigger] seen@[j] <==> exists|k: int|
                    0 <= k < at && mask@[k] && #[trigger] connected(mask@, w, k, j)),
            boxes@ == component_boxes(mask@, w, at as int),
            forall|i: int|
                0 <= i < boxes@.len() ==> inside_picture(#[trigger] boxes@[i], w, height as int),
        decreases total - at,
    {
        let ghost before = seen@;
        let ghost held = boxes@;
        if mask[at] && !seen[at] {
            assert(is_leader(mask@, w, at as int));
            let rect = component_bbox(mask, width, height, &mut seen, at);
            boxes.push(rect);
            proof {
                assert forall|j: int| 0 <= j < mask@.len() implies (#[trigger] seen@[j]
                    <==> exists|k: int|
                    0 <= k < at + 1 && mask@[k] && #[trigger] connected(mask@, w, k, j)) by {
                    if before[j] {
                        let k = choose|k: int|
                            0 <= k < at && mask@[k] && #[trigger] connected(mask@, w, k, j);
                        assert(connected(mask@, w, k, j));
                    }
                }
            }
        } else {
            proof {
                if mask@[at as int] {
                    let k = choose|k: int|
                        0 <= k < at && mask@[k] && #[trigger] connected(mask@, w, k, at as int);
                    assert(connected(mask@, w, k, at as int));
                }
                assert(!is_leader(mask@, w, at as int));
                assert forall|j: int| 0 <= j < mask@.len() implies (#[trigger] seen@[j]
                    <==> exists|k: int|
                    0 <= k < at + 1 && mask@[k] && #[trigger] connected(mask@, w, k, j)) by {
                    if before[j] {
                        let k = choose|k: int|
                            0 <= k < at && mask@[k] && #[trigger] connected(mask@, w, k, j);
                        assert(connected(mask@, w, k, j));
                    } else if mask@[at as int] && connected(mask@, w, at as int, j) {
                        lemma_closed_holds_what_is_reached(terrain, w, seen@, at as int, j);
                    }
                }
            }
        }
        at = at + 1;
    }
    boxes
}

/// The bounding box of a component really bounds it, and lies inside the
/// picture.
pub proof fn law_component_box_bounds_its_component(
    mask: Seq<bool>,
    width: int,
    height: int,
    start: int,
)
    requires
        1 <= width,
        1 <= height,
        mask.len() == width * height,
        width * height <= MAX_ANALYSIS_PIXELS,
        0 <= start < mask.len(),
    ensures
        bounds_component(mask, width, start, component_box(mask, width, start)),
        inside_picture(component_box(mask, width, start), width, height),
{
    let terrain = Terrain::Mask(mask);
    lemma_reaches_itself(terrain, width, start);
    assert(connected(mask, width, start, start));
    lemma_column_row(start, width, height);
    assert(width <= width * height && height <= width * height) by (nonlinear_arith)
        requires
            width >= 1,
            height >= 1,
    ;
    assert forall|j: int| #[trigger] connected(mask, width, start, j) implies 0 <= j % width
        < width && 0 <= j / width < height by {
        lemma_reached_in_range(terrain, width, start, j);
        lemma_column_row(j, width, height);
    }
    let left_of = |j: int| j % width;
    let right_of = |j: int| width - 1 - j % width;
    let top_of = |j: int| j / width;
    let bottom_of = |j: int| height - 1 - j / width;
    let (left, left_at) = lemma_extreme(mask, width, start, start, left_of);
    let (right, right_at) = lemma_extreme(mask, width, start, start, right_of);
    let (top, top_at) = lemma_extreme(mask, width, start, start, top_of);
    let (bottom, bottom_at) = lemma_extreme(mask, width, start, start, bottom_of);
    let (r, b) = (width - 1 - right, height - 1 - bottom);
    assert(left <= left_of(start) && right <= right_of(start));
    assert(top <= top_of(start) && bottom <= bottom_of(start));
    assert(0 <= left <= r < width && 0 <= top <= b < height);
    let rect = Rect {
        origin: crate::geometry::Point { x: left as i32, y: top as i32 },
        size: crate::geometry::Size { width: (r - left + 1) as u32, height: (b - top + 1) as u32 },
    };
    assert(rect.right_edge() == r + 1 && rect.bottom_edge() == b + 1);
    assert forall|j: int| #[trigger] connected(mask, width, start, j) implies rect.covers(
        j % width,
        j / width,
    ) by {
        assert(left <= left_of(j) && right <= right_of(j));
        assert(top <= top_of(j) && bottom <= bottom_of(j));
    }
    assert(connected(mask, width, start, left_at) && left_at % width == rect.origin.x);
    assert(connected(mask, width, start, right_at) && right_at % width == rect.right_edge() - 1);
    assert(connected(mask, width, start, top_at) && top_at / width == rect.origin.y);
    assert(connected(mask, width, start, bottom_at) && bottom_at / width == rect.bottom_edge() - 1);
    assert(bounds_component(mask, width, start, rect));
    lemma_component_box_unique(mask, width, start, rect);
}

/// Some pixel of a component has the least measure.
proof fn lemma_extreme(
    mask: Seq<bool>,
    width: int,
    start: int,
    from: int,
    measure: spec_fn(int) -> int,
) -> (least: (int, int))
    requires
        connected(mask, width, start, from),
        forall|j: int| #[trigger] connected(mask, width, start, j) ==> 0 <= measure(j),
    ensures
        connected(mask, width, start, least.1),
        measure(least.1) == least.0,
        forall|j: int|
            #[trigger] connected(mask, width, start, j) ==> least.0 <= measure(j),
    decreases measure(from),
{
    if forall|j: int| #[trigger] connected(mask, width, start, j) ==> measure(from) <= measure(j) {
        (measure(from), from)
    } else {
        let better = choose|j: int|
            #[trigger] connected(mask, width, start, j) && measure(j) < measure(from);
        lemma_extreme(mask, width, start, better, measure)
    }
}

} // verus!
