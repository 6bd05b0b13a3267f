//! What a border ring is: how a band is delimited, which runs of bands are
//! edges, and how four edges close on each other.

use vstd::prelude::*;

use crate::capture::outline_laws::how_many;
use crate::capture::pixel_frame::{delta, vividness, Picture, Rgba};
use crate::capture::pixel_rings::{
    band_closes, band_mark, closing_thickness, dominant, facing, jump, keyed, lemma_closing_bounds,
    lemma_run_end, light_across, light_down, light_of_edges, light_of_sides, lines_along,
    lines_from, marks_along, may_close, mean, nearest_side, picture_mark, ring_between, ring_light,
    ring_side, rings, rings_from, rows, run_end, shortest_side, stroke_step, thickness_at,
    thickness_count, weakest, with_ring, Line, Ring,
};
use crate::capture::window_blend::ticks;
use crate::sorting::{descending, law_equal_keys_keep_their_order};

verus! {

// ---------------------------------------------------------------------------
// Bands
// ---------------------------------------------------------------------------
/// A band of `t` pixels begins at `start`: the line changes sharply, by 20 or
/// more, before it and behind it, and four times no change inside it, nor any
/// distance from its first pixel, exceeds either of the two.
pub open spec fn is_band(line: Seq<Rgba>, start: int, t: int) -> bool {
    let before = delta(line[start - 1], line[start]);
    let behind = delta(line[start + t - 1], line[start + t]);
    &&& 1 <= t <= 8
    &&& start + t < line.len()
    &&& before >= 20
    &&& behind >= 20
    &&& forall|i: int|
        start <= i < start + t ==> 4 * delta(#[trigger] line[i], line[start]) <= before && 4
            * delta(line[i], line[start]) <= behind
    &&& forall|i: int|
        start <= i < start + t - 1 ==> 4 * delta(#[trigger] line[i], line[i + 1]) <= before && 4
            * delta(line[i], line[i + 1]) <= behind
}

proof fn lemma_closes(line: Seq<Rgba>, start: int, t: int)
    requires
        1 <= t <= 8,
        jump(line, start - 1) >= 20,
    ensures
        band_closes(line, start, t) <==> is_band(line, start, t),
{
    let before = jump(line, start - 1);
    let behind = jump(line, start + t - 1);
    if band_closes(line, start, t) {
        assert forall|i: int| start <= i < start + t implies 4 * delta(
            #[trigger] line[i],
            line[start],
        ) <= before && 4 * delta(line[i], line[start]) <= behind by {}
        assert forall|i: int| start <= i < start + t - 1 implies 4 * delta(
            #[trigger] line[i],
            line[i + 1],
        ) <= before && 4 * delta(line[i], line[i + 1]) <= behind by {}
    }
    if is_band(line, start, t) {
        let limit = crate::capture::pixel_rings::band_limit(before, behind);
        assert forall|i: int| start <= i < start + t implies delta(#[trigger] line[i], line[start])
            <= limit by {}
        assert forall|i: int| start <= i < start + t - 1 implies delta(
            #[trigger] line[i],
            line[i + 1],
        ) <= limit by {}
    }
}

proof fn lemma_closing(line: Seq<Rgba>, start: int, t: int)
    requires
        1 <= t <= 9,
        jump(line, start - 1) >= 20,
    ensures
        closing_thickness(line, start, t) > 0 ==> t <= closing_thickness(line, start, t)
            && is_band(line, start, closing_thickness(line, start, t)),
        forall|s: int| #[trigger]
            is_band(line, start, s) && t <= s ==> 0 < closing_thickness(line, start, t) <= s,
    decreases 9 - t,
{
    if t <= 8 {
        lemma_closes(line, start, t);
        lemma_closing(line, start, t + 1);
    }
}

/// Where a band begins its thickness is the least at which it does; nowhere
/// else has a thickness.
pub proof fn law_how_thick_a_band_is(line: Seq<Rgba>, start: int)
    ensures
        thickness_at(line, start) >= 0,
        thickness_at(line, start) > 0 ==> is_band(line, start, thickness_at(line, start)),
        forall|t: int| #[trigger]
            is_band(line, start, t) ==> 0 < thickness_at(line, start) <= t,
{
    lemma_closing_bounds(line, start, 1);
    if jump(line, start - 1) >= 20 {
        lemma_closing(line, start, 1);
    }
}

proof fn lemma_marks(line: Seq<Rgba>, start: int, at: int)
    ensures
        band_mark(line, start, at) >= 0,
        at < start ==> band_mark(line, start, at) == 0,
        band_mark(line, start, at) > 0 ==> band_mark(line, start, at) == thickness_at(line, at),
        forall|k: int|
            at < k < at + band_mark(line, start, at) ==> #[trigger] band_mark(line, start, k) == 0,
        start <= at < line.len() - 1 && thickness_at(line, at) > 0 ==> band_mark(line, start, at)
            > 0 || exists|k: int|
            start <= k < at && at < k + #[trigger] band_mark(line, start, k),
    decreases line.len() - start,
{
    if start + 1 < line.len() {
        let thickness = thickness_at(line, start);
        lemma_closing_bounds(line, start, 1);
        if thickness <= 0 {
            lemma_marks(line, start + 1, at);
            assert forall|k: int| at < k < at + band_mark(line, start, at) implies #[trigger] band_mark(
                line,
                start,
                k,
            ) == 0 by {
                assert(band_mark(line, start + 1, k) == 0);
            }
            if start <= at < line.len() - 1 && thickness_at(line, at) > 0 && band_mark(
                line,
                start,
                at,
            ) <= 0 {
                let k = choose|k: int|
                    start + 1 <= k < at && at < k + #[trigger] band_mark(line, start + 1, k);
                assert(at < k + band_mark(line, start, k));
            }
        } else {
            let next = start + thickness;
            lemma_marks(line, next, at);
            assert forall|k: int| at < k < at + band_mark(line, start, at) implies #[trigger] band_mark(
                line,
                start,
                k,
            ) == 0 by {
                lemma_marks(line, next, k);
                if at == start {
                    assert(band_mark(line, next, k) == 0);
                } else {
                    assert(band_mark(line, next, at) == band_mark(line, start, at));
                    assert(band_mark(line, next, k) == 0);
                }
            }
            if start <= at < line.len() - 1 && thickness_at(line, at) > 0 && band_mark(
                line,
                start,
                at,
            ) <= 0 {
                if at < next {
                    assert(band_mark(line, start, start) == thickness);
                    assert(at < start + band_mark(line, start, start));
                } else {
                    let k = choose|k: int|
                        next <= k < at && at < k + #[trigger] band_mark(line, next, k);
                    assert(at < k + band_mark(line, start, k));
                }
            }
        }
    }
}

/// A line is marked where a band begins, with the band's thickness; inside a
/// marked band nothing is marked, and every band that is not marked begins
/// inside one that is.
pub proof fn law_bands_follow_each_other(line: Seq<Rgba>, at: int)
    ensures
        band_mark(line, 1, at) > 0 ==> 1 <= at && is_band(line, at, band_mark(line, 1, at)),
        forall|k: int|
            at < k < at + band_mark(line, 1, at) ==> #[trigger] band_mark(line, 1, k) == 0,
        1 <= at && (exists|t: int| is_band(line, at, t)) ==> band_mark(line, 1, at) > 0 || exists|
            k: int,
        |
            1 <= k < at && at < k + #[trigger] band_mark(line, 1, k),
{
    lemma_marks(line, 1, at);
    law_how_thick_a_band_is(line, at);
    if exists|t: int| is_band(line, at, t) {
        let t = choose|t: int| is_band(line, at, t);
        assert(is_band(line, at, t));
    }
}

/// A mark of the picture stands at the first pixel of a band: seen down a
/// column for a horizontal edge, along a row for a vertical one.
pub proof fn law_a_mark_begins_a_band_of_the_picture(picture: Picture, x: int, y: int)
    requires
        picture.has(x, y),
    ensures
        ({
            let t = picture_mark(picture, true, x, y);
            t > 0 ==> 1 <= y && y + t < picture.height && delta(
                picture.at(x, y - 1),
                picture.at(x, y),
            ) >= 20 && delta(picture.at(x, y + t - 1), picture.at(x, y + t)) >= 20
        }),
        ({
            let t = picture_mark(picture, false, x, y);
            t > 0 ==> 1 <= x && x + t < picture.width && delta(
                picture.at(x - 1, y),
                picture.at(x, y),
            ) >= 20 && delta(picture.at(x + t - 1, y), picture.at(x + t, y)) >= 20
        }),
{
    law_bands_follow_each_other(crate::capture::pixel_rings::column(picture, x), y);
    law_bands_follow_each_other(crate::capture::pixel_rings::row(picture, y), x);
}

// ---------------------------------------------------------------------------
// Edges
// ---------------------------------------------------------------------------
/// The marks from `from` up to `end` are a whole run: all of them are set, and
/// none that follows or precedes is.
pub open spec fn is_run(marks: Seq<int>, from: int, end: int) -> bool {
    &&& 0 <= from < end <= marks.len()
    &&& forall|i: int| from <= i < end ==> #[trigger] marks[i] > 0
    &&& from == 0 || marks[from - 1] <= 0
    &&& end == marks.len() || marks[end] <= 0
}

/// An edge stands for a whole run of marks that is at least 12 percent as long
/// as the picture; it is as thick as most of the marks are.
pub open spec fn stands_for(line: Line, marks: Seq<int>, at: int) -> bool {
    &&& is_run(marks, line.from as int, line.to + 1)
    &&& 100 * (line.to + 1 - line.from) > 12 * marks.len()
    &&& line.at == at
    &&& line.thickness == dominant(marks, line.from as int, line.to + 1, 8)
}

proof fn lemma_run(marks: Seq<int>, from: int, along: int)
    requires
        0 <= from <= along <= marks.len(),
        forall|i: int| from <= i < along ==> #[trigger] marks[i] > 0,
    ensures
        along <= run_end(marks, along) <= marks.len(),
        forall|i: int| from <= i < run_end(marks, along) ==> #[trigger] marks[i] > 0,
        run_end(marks, along) == marks.len() || marks[run_end(marks, along)] <= 0,
    decreases marks.len() - along,
{
    if along < marks.len() && marks[along] > 0 {
        lemma_run(marks, from, along + 1);
    }
}

proof fn lemma_dominant(marks: Seq<int>, from: int, to: int, limit: int)
    requires
        1 <= limit,
    ensures
        1 <= dominant(marks, from, to, limit) <= limit,
        forall|t: int|
            1 <= t <= limit ==> #[trigger] thickness_count(marks, from, to, t) <= thickness_count(
                marks,
                from,
                to,
                dominant(marks, from, to, limit),
            ),
        forall|t: int|
            dominant(marks, from, to, limit) < t <= limit ==> #[trigger] thickness_count(
                marks,
                from,
                to,
                t,
            ) < thickness_count(marks, from, to, dominant(marks, from, to, limit)),
    decreases limit,
{
    if limit > 1 {
        lemma_dominant(marks, from, to, limit - 1);
    }
}

proof fn lemma_thickness_count(marks: Seq<int>, from: int, to: int, t: int)
    requires
        0 <= from <= to,
    ensures
        thickness_count(marks, from, to, t) == how_many(to, |i: int| from <= i && marks[i] == t),
    decreases to - from,
{
    let p = |i: int| from <= i && marks[i] == t;
    vstd::set_lib::lemma_int_range(0, to);
    let now = vstd::set_lib::set_int_range(0, to).filter(p);
    if from < to {
        lemma_thickness_count(marks, from, to - 1, t);
        vstd::set_lib::lemma_int_range(0, to - 1);
        let before = vstd::set_lib::set_int_range(0, to - 1).filter(p);
        if p(to - 1) {
            assert(now =~= before.insert(to - 1));
        } else {
            assert(now =~= before);
        }
    } else {
        assert(now =~= Set::<int>::empty());
    }
}

/// The thickness of an edge is the one that most of its marks have; of equally
/// frequent ones the thickest.
pub proof fn law_an_edge_is_as_thick_as_most_of_it(
    marks: Seq<int>,
    from: int,
    to: int,
    thickness: int,
)
    requires
        0 <= from <= to,
        1 <= thickness <= 8,
    ensures
        1 <= dominant(marks, from, to, 8) <= 8,
        ({
            let own = dominant(marks, from, to, 8);
            let often = how_many(to, |i: int| from <= i && marks[i] == own);
            let other = how_many(to, |i: int| from <= i && marks[i] == thickness);
            other < often || other == often && thickness <= own
        }),
{
    let own = dominant(marks, from, to, 8);
    lemma_dominant(marks, from, to, 8);
    lemma_thickness_count(marks, from, to, own);
    lemma_thickness_count(marks, from, to, thickness);
    assert(thickness_count(marks, from, to, thickness) <= thickness_count(marks, from, to, own));
}

proof fn lemma_lines_along(marks: Seq<int>, at: int, along: int)
    requires
        0 <= along <= marks.len() <= u32::MAX,
        0 <= at <= u32::MAX,
        along == 0 || along == marks.len() || marks[along - 1] <= 0 || marks[along] <= 0,
    ensures
        forall|i: int|
            0 <= i < lines_along(marks, at, along).len() ==> stands_for(
                #[trigger] lines_along(marks, at, along)[i],
                marks,
                at,
            ) && along <= lines_along(marks, at, along)[i].from,
        forall|from: int, end: int| #[trigger]
            is_run(marks, from, end) && along <= from && 100 * (end - from) > 12 * marks.len()
                ==> exists|i: int|
                0 <= i < lines_along(marks, at, along).len() && (#[trigger] lines_along(
                    marks,
                    at,
                    along,
                )[i]).from == from && lines_along(marks, at, along)[i].to + 1 == end,
    decreases marks.len() - along,
{
    let all = lines_along(marks, at, along);
    if along < marks.len() {
        if marks[along] <= 0 {
            lemma_lines_along(marks, at, along + 1);
            let rest = lines_along(marks, at, along + 1);
            assert(all == rest);
            assert forall|i: int| 0 <= i < all.len() implies stands_for(
                #[trigger] all[i],
                marks,
                at,
            ) && along <= all[i].from by {
                assert(stands_for(rest[i], marks, at));
            }
        } else {
            let stop = run_end(marks, along);
            lemma_run(marks, along, along);
            lemma_run_end(marks, along);
            lemma_lines_along(marks, at, stop);
            let rest = lines_along(marks, at, stop);
            let min = crate::capture::pixel_rings::min_run(marks);
            assert(is_run(marks, along, stop));
            lemma_dominant(marks, along, stop, 8);
            assert(stop - 1 - along >= min <==> 100 * (stop - along) > 12 * marks.len());
            assert forall|i: int| 0 <= i < all.len() implies stands_for(
                #[trigger] all[i],
                marks,
                at,
            ) && along <= all[i].from by {
                if stop - 1 - along >= min {
                    if i > 0 {
                        assert(all[i] == rest[i - 1]);
                    }
                } else {
                    assert(all[i] == rest[i]);
                }
            }
            assert forall|from: int, end: int| #[trigger]
                is_run(marks, from, end) && along <= from && 100 * (end - from) > 12
                    * marks.len() implies exists|i: int|
                0 <= i < all.len() && (#[trigger] all[i]).from == from && all[i].to + 1 == end by {
                if from < stop {
                    assert(from == along) by {
                        if from > along {
                            assert(marks[from - 1] > 0);
                        }
                    }
                    assert(end == stop) by {
                        if end < stop {
                            assert(marks[end] > 0);
                        }
                        if end > stop {
                            assert(marks[stop] > 0);
                        }
                    }
                    assert(all[0].from == from && all[0].to + 1 == end);
                } else {
                    let i = choose|i: int|
                        0 <= i < rest.len() && (#[trigger] rest[i]).from == from && rest[i].to + 1
                            == end;
                    if stop - 1 - along >= min {
                        assert(all[i + 1] == rest[i]);
                    } else {
                        assert(all[i] == rest[i]);
                    }
                }
            }
        }
    }
}

/// The edges on a row or column are its whole runs of marks that are long
/// enough: every one of them, and nothing else.
pub proof fn law_edges_are_long_runs(marks: Seq<int>, at: int)
    requires
        marks.len() <= u32::MAX,
        0 <= at <= u32::MAX,
    ensures
        forall|i: int|
            0 <= i < lines_along(marks, at, 0).len() ==> stands_for(
                #[trigger] lines_along(marks, at, 0)[i],
                marks,
                at,
            ),
        forall|from: int, end: int| #[trigger]
            is_run(marks, from, end) && 100 * (end - from) > 12 * marks.len() ==> exists|i: int|
                0 <= i < lines_along(marks, at, 0).len() && (#[trigger] lines_along(
                    marks,
                    at,
                    0,
                )[i]).from == from && lines_along(marks, at, 0)[i].to + 1 == end,
{
    lemma_lines_along(marks, at, 0);
}

/// Every row and every column of the picture is searched for edges.
pub proof fn law_every_row_is_searched(picture: Picture, horizontal: bool, at: int)
    requires
        0 <= at,
    ensures
        forall|line: Line| #[trigger]
            lines_from(picture, horizontal, at).contains(line) <==> exists|k: int|
                at <= k < rows(picture, horizontal) && lines_along(
                    #[trigger] marks_along(picture, horizontal, k),
                    k,
                    0,
                ).contains(line),
        rows(picture, true) == picture.height,
        rows(picture, false) == picture.width,
    decreases rows(picture, horizontal) - at,
{
    let all = lines_from(picture, horizontal, at);
    if at < rows(picture, horizontal) {
        law_every_row_is_searched(picture, horizontal, at + 1);
        let own = lines_along(marks_along(picture, horizontal, at), at, 0);
        let rest = lines_from(picture, horizontal, at + 1);
        assert forall|line: Line| #[trigger] all.contains(line) <==> exists|k: int|
            at <= k < rows(picture, horizontal) && lines_along(
                #[trigger] marks_along(picture, horizontal, k),
                k,
                0,
            ).contains(line) by {
            if all.contains(line) {
                let i = choose|i: int| 0 <= i < all.len() && all[i] == line;
                if i < own.len() {
                    assert(own[i] == line);
                    assert(lines_along(marks_along(picture, horizontal, at), at, 0).contains(line));
                } else {
                    assert(rest[i - own.len()] == line);
                    assert(rest.contains(line));
                }
            }
            if exists|k: int|
                at <= k < rows(picture, horizontal) && lines_along(
                    #[trigger] marks_along(picture, horizontal, k),
                    k,
                    0,
                ).contains(line) {
                let k = choose|k: int|
                    at <= k < rows(picture, horizontal) && lines_along(
                        #[trigger] marks_along(picture, horizontal, k),
                        k,
                        0,
                    ).contains(line);
                if k == at {
                    let i = choose|i: int| 0 <= i < own.len() && own[i] == line;
                    assert(all[i] == line);
                } else {
                    assert(rest.contains(line));
                    let i = choose|i: int| 0 <= i < rest.len() && rest[i] == line;
                    assert(all[own.len() + i] == line);
                }
            }
        }
    } else {
        assert forall|line: Line| !(#[trigger] all.contains(line)) by {}
    }
}

// ---------------------------------------------------------------------------
// Four edges
// ---------------------------------------------------------------------------
/// Two edges face each other where what they share is at least 60 percent as
/// long as the shorter one; which of them is the upper one says nothing.
pub proof fn law_edges_face_each_other(a: Line, b: Line, from: int, to: int)
    requires
        from == if a.from >= b.from {
            a.from
        } else {
            b.from
        },
        to == if a.to <= b.to {
            a.to
        } else {
            b.to
        },
    ensures
        facing(a, b) == facing(b, a),
        facing(a, b) <==> from < to && (5 * (to - from) >= 3 * (a.to - a.from) || 5 * (to - from)
            >= 3 * (b.to - b.from)),
{
}

/// The side that is taken may close the ring, no other that may is nearer, and
/// none before it is as near; without one that may there is none.
pub proof fn law_the_nearest_side_closes(
    verticals: Seq<Line>,
    n: int,
    x: int,
    from: int,
    to: int,
    min_span: int,
    tolerance: int,
)
    requires
        0 <= n <= verticals.len(),
    ensures
        nearest_side(verticals, n, x, from, to, min_span, tolerance) is None <==> forall|i: int|
            0 <= i < n ==> !may_close(#[trigger] verticals[i], x, from, to, min_span, tolerance),
        nearest_side(verticals, n, x, from, to, min_span, tolerance) matches Some(side) ==> exists|
            k: int,
        |
            {
                &&& 0 <= k < n
                &&& #[trigger] verticals[k] == side
                &&& may_close(side, x, from, to, min_span, tolerance)
                &&& forall|i: int|
                    0 <= i < n && may_close(
                        #[trigger] verticals[i],
                        x,
                        from,
                        to,
                        min_span,
                        tolerance,
                    ) ==> away(side, x) <= away(verticals[i], x) && (i < k ==> away(side, x)
                        < away(verticals[i], x))
            },
    decreases n,
{
    if n > 0 {
        law_the_nearest_side_closes(verticals, n - 1, x, from, to, min_span, tolerance);
        let before = nearest_side(verticals, n - 1, x, from, to, min_span, tolerance);
        let own = verticals[n - 1];
        if may_close(own, x, from, to, min_span, tolerance) {
            match before {
                Some(found) => {
                    let k = choose|k: int|
                        {
                            &&& 0 <= k < n - 1
                            &&& #[trigger] verticals[k] == found
                            &&& may_close(found, x, from, to, min_span, tolerance)
                            &&& forall|i: int|
                                0 <= i < n - 1 && may_close(
                                    #[trigger] verticals[i],
                                    x,
                                    from,
                                    to,
                                    min_span,
                                    tolerance,
                                ) ==> away(found, x) <= away(verticals[i], x) && (i < k ==> away(
                                    found,
                                    x,
                                ) < away(verticals[i], x))
                        };
                    if away(own, x) < away(found, x) {
                        assert(verticals[n - 1] == own);
                    } else {
                        assert(verticals[k] == found);
                    }
                },
                None => {
                    assert(verticals[n - 1] == own);
                },
            }
        } else if before is Some {
            let found = before->Some_0;
            let k = choose|k: int|
                {
                    &&& 0 <= k < n - 1
                    &&& #[trigger] verticals[k] == found
                    &&& may_close(found, x, from, to, min_span, tolerance)
                    &&& forall|i: int|
                        0 <= i < n - 1 && may_close(
                            #[trigger] verticals[i],
                            x,
                            from,
                            to,
                            min_span,
                            tolerance,
                        ) ==> away(found, x) <= away(verticals[i], x) && (i < k ==> away(found, x)
                            < away(verticals[i], x))
                };
            assert(verticals[k] == found);
        }
    }
}

/// How far a side lies from a column.
pub open spec fn away(line: Line, x: int) -> int {
    if line.at >= x {
        line.at - x
    } else {
        x - line.at
    }
}

/// A side may close a ring between two rows where it is long enough, reaches
/// into the rows between them, and is near enough to the edge's end.
pub proof fn law_which_sides_may_close(
    line: Line,
    x: int,
    from: int,
    to: int,
    min_span: int,
    tolerance: int,
)
    requires
        from <= to,
        line.from <= line.to,
    ensures
        may_close(line, x, from, to, min_span, tolerance) <==> {
            &&& line.to - line.from >= min_span
            &&& exists|y: int| #![trigger between(y, from, to)]
                between(y, from, to) && line.from <= y <= line.to
            &&& x - tolerance <= line.at <= x + tolerance
        },
{
    let y = if line.from >= from {
        line.from as int
    } else {
        from
    };
    assert(between(y, from, to) || line.from > to);
}

/// The row lies between the two others.
pub open spec fn between(y: int, from: int, to: int) -> bool {
    from <= y <= to
}

/// A side closes a ring near a column where it is at least 60 percent as long
/// as the ring is high, and no more than an eighth of that, or ten pixels, away
/// from the column.
pub proof fn law_the_sides_of_a_ring(
    picture: Picture,
    verticals: Seq<Line>,
    top: Line,
    bottom: Line,
    x: int,
)
    requires
        top.at <= bottom.at,
    ensures
        ring_side(picture, verticals, top, bottom, x) matches Some(side) ==> {
            let height = bottom.at - top.at;
            &&& verticals.contains(side)
            &&& 100 * (side.to - side.from + 1) > 60 * height
            &&& side.to - side.from >= shortest_side(picture)
            &&& side.from <= bottom.at && side.to >= top.at
            &&& away(side, x) <= 10 || 8 * away(side, x) <= height
        },
{
    let height = bottom.at - top.at;
    law_the_nearest_side_closes(
        verticals,
        verticals.len() as int,
        x,
        top.at as int,
        bottom.at as int,
        crate::geometry::max_int(shortest_side(picture), height * 60 / 100),
        crate::geometry::max_int(height / 8, 10),
    );
}

/// A ring between two edges has a side at each end of both of them, on the same
/// columns; all four strokes are equally thick, and its rectangle reaches from
/// the outer edge of one stroke to that of the opposite one.  Its sides are
/// more than 12 percent of the shorter side of the picture apart.
pub proof fn law_a_ring_is_closed_by_four_strokes(
    picture: Picture,
    verticals: Seq<Line>,
    top: Line,
    bottom: Line,
)
    requires
        picture.width <= i32::MAX,
        picture.height <= i32::MAX,
        forall|i: int|
            0 <= i < verticals.len() ==> (#[trigger] verticals[i]).at + verticals[i].thickness
                <= picture.width,
        bottom.at + bottom.thickness <= picture.height,
    ensures
        ring_between(picture, verticals, top, bottom) matches Some(ring) ==> {
            let left = ring_side(picture, verticals, top, bottom, top.from as int);
            let right = ring_side(picture, verticals, top, bottom, top.to as int);
            let low_left = ring_side(picture, verticals, top, bottom, bottom.from as int);
            let low_right = ring_side(picture, verticals, top, bottom, bottom.to as int);
            &&& facing(top, bottom)
            &&& left is Some && right is Some && low_left is Some && low_right is Some
            &&& left->Some_0.at == low_left->Some_0.at
            &&& right->Some_0.at == low_right->Some_0.at
            &&& top.thickness == bottom.thickness
            &&& left->Some_0.thickness == top.thickness
            &&& right->Some_0.thickness == top.thickness
            &&& ring.rect.origin.x == left->Some_0.at
            &&& ring.rect.origin.y == top.at
            &&& ring.rect.right_edge() == right->Some_0.at + top.thickness
            &&& ring.rect.bottom_edge() == bottom.at + top.thickness
            &&& bottom.at - top.at > shortest_side(picture)
            &&& right->Some_0.at - left->Some_0.at > shortest_side(picture) + top.thickness
            &&& 100 * (shortest_side(picture) + 1) > 12 * picture.width || 100 * (shortest_side(
                picture,
            ) + 1) > 12 * picture.height
        },
{
    if ring_between(picture, verticals, top, bottom) is Some {
        law_the_sides_of_a_ring(picture, verticals, top, bottom, top.from as int);
        law_the_sides_of_a_ring(picture, verticals, top, bottom, top.to as int);
        let right = ring_side(picture, verticals, top, bottom, top.to as int)->Some_0;
        let left = ring_side(picture, verticals, top, bottom, top.from as int)->Some_0;
        let i = choose|i: int| 0 <= i < verticals.len() && verticals[i] == right;
        assert(verticals[i].at + verticals[i].thickness <= picture.width);
        let j = choose|j: int| 0 <= j < verticals.len() && verticals[j] == left;
        assert(verticals[j].at + verticals[j].thickness <= picture.width);
    }
}

/// Where four such strokes are there, they form a ring.
pub proof fn law_four_strokes_form_a_ring(
    picture: Picture,
    verticals: Seq<Line>,
    top: Line,
    bottom: Line,
    left: Line,
    right: Line,
)
    requires
        bottom.at > top.at + shortest_side(picture),
        facing(top, bottom),
        ring_side(picture, verticals, top, bottom, top.from as int) == Some(left),
        ring_side(picture, verticals, top, bottom, top.to as int) == Some(right),
        ring_side(picture, verticals, top, bottom, bottom.from as int) == Some(left),
        ring_side(picture, verticals, top, bottom, bottom.to as int) == Some(right),
        right.at > left.at + left.thickness + shortest_side(picture),
        top.thickness == bottom.thickness == left.thickness == right.thickness,
    ensures
        ring_between(picture, verticals, top, bottom) is Some,
{
}

// ---------------------------------------------------------------------------
// How vivid a ring is
// ---------------------------------------------------------------------------
/// The pixel lies on one of the four strokes.
pub open spec fn on_strokes(
    left: Line,
    top: Line,
    right: Line,
    bottom: Line,
    x: int,
    y: int,
) -> bool {
    ||| left.at <= x < right.at && top.at <= y < top.at + top.thickness
    ||| left.at <= x < right.at && bottom.at <= y < bottom.at + bottom.thickness
    ||| top.at <= y < bottom.at && left.at <= x < left.at + left.thickness
    ||| top.at <= y < bottom.at && right.at <= x < right.at + right.thickness
}

proof fn lemma_even_down(picture: Picture, x: int, y: int, n: int, v: int)
    requires
        forall|i: int|
            y <= i < y + n && picture.has(x, i) ==> vividness(#[trigger] picture.at(x, i)) == v,
    ensures
        light_down(picture, x, y, n).sum == v * light_down(picture, x, y, n).count,
        light_down(picture, x, y, n).count >= 0,
        n > 0 && picture.has(x, y) ==> light_down(picture, x, y, n).count > 0,
    decreases n,
{
    if n > 0 {
        lemma_even_down(picture, x, y, n - 1, v);
        let k = light_down(picture, x, y, n - 1).count;
        assert(v * (k + 1) == v * k + v) by (nonlinear_arith);
        if picture.has(x, y + n - 1) {
            assert(vividness(picture.at(x, y + n - 1)) == v);
        }
    }
}

proof fn lemma_even_across(picture: Picture, x: int, y: int, n: int, v: int)
    requires
        forall|i: int|
            x <= i < x + n && picture.has(i, y) ==> vividness(#[trigger] picture.at(i, y)) == v,
    ensures
        light_across(picture, x, y, n).sum == v * light_across(picture, x, y, n).count,
        light_across(picture, x, y, n).count >= 0,
    decreases n,
{
    if n > 0 {
        lemma_even_across(picture, x, y, n - 1, v);
        let k = light_across(picture, x, y, n - 1).count;
        assert(v * (k + 1) == v * k + v) by (nonlinear_arith);
        if picture.has(x + n - 1, y) {
            assert(vividness(picture.at(x + n - 1, y)) == v);
        }
    }
}

/// All pixels of the strokes are equally vivid.
pub open spec fn evenly_vivid(
    picture: Picture,
    left: Line,
    top: Line,
    right: Line,
    bottom: Line,
    v: int,
) -> bool {
    forall|x: int, y: int|
        on_strokes(left, top, right, bottom, x, y) && picture.has(x, y) ==> vividness(
            #[trigger] picture.at(x, y),
        ) == v
}

proof fn lemma_tick_inside(length: int, step: int, k: int)
    requires
        1 <= step,
        0 <= k < ticks(length, step),
    ensures
        0 <= k * step < length,
{
    vstd::arithmetic::div_mod::lemma_fundamental_div_mod(length - 1, step);
    let q = (length - 1) / step;
    assert(0 <= k * step <= length - 1) by (nonlinear_arith)
        requires
            0 <= k <= q,
            1 <= step,
            length - 1 == step * q + (length - 1) % step,
            0 <= (length - 1) % step,
    ;
}

proof fn lemma_even_edges(
    picture: Picture,
    left: Line,
    top: Line,
    right: Line,
    bottom: Line,
    step: int,
    n: int,
    v: int,
)
    requires
        evenly_vivid(picture, left, top, right, bottom, v),
        1 <= step,
        0 <= n <= ticks(right.at - left.at, step),
    ensures
        ({
            let light = light_of_edges(picture, left.at as int, step, top, bottom, n);
            &&& light.sum == v * light.count
            &&& light.count >= 0
            &&& n > 0 && top.thickness > 0 && picture.has(left.at as int, top.at as int)
                ==> light.count > 0
        }),
    decreases n,
{
    if n > 0 {
        lemma_even_edges(picture, left, top, right, bottom, step, n - 1, v);
        lemma_tick_inside(right.at - left.at, step, n - 1);
        let x = left.at + (n - 1) * step;
        assert forall|i: int| top.at <= i < top.at + top.thickness && picture.has(x, i) implies vividness(
            #[trigger] picture.at(x, i),
        ) == v by {
            assert(on_strokes(left, top, right, bottom, x, i));
        }
        assert forall|i: int|
            bottom.at <= i < bottom.at + bottom.thickness && picture.has(x, i) implies vividness(
            #[trigger] picture.at(x, i),
        ) == v by {
            assert(on_strokes(left, top, right, bottom, x, i));
        }
        lemma_even_down(picture, x, top.at as int, top.thickness as int, v);
        lemma_even_down(picture, x, bottom.at as int, bottom.thickness as int, v);
        let a = light_of_edges(picture, left.at as int, step, top, bottom, n - 1).count;
        let b = light_down(picture, x, top.at as int, top.thickness as int).count;
        let c = light_down(picture, x, bottom.at as int, bottom.thickness as int).count;
        assert(v * (a + b + c) == v * a + v * b + v * c) by (nonlinear_arith);
        if n == 1 {
            assert((n - 1) * step == 0) by (nonlinear_arith)
                requires
                    n == 1,
            ;
        }
    }
}

proof fn lemma_even_sides(
    picture: Picture,
    left: Line,
    top: Line,
    right: Line,
    bottom: Line,
    step: int,
    n: int,
    v: int,
)
    requires
        evenly_vivid(picture, left, top, right, bottom, v),
        1 <= step,
        0 <= n <= ticks(bottom.at - top.at, step),
    ensures
        ({
            let light = light_of_sides(picture, top.at as int, step, left, right, n);
            light.sum == v * light.count && light.count >= 0
        }),
    decreases n,
{
    if n > 0 {
        lemma_even_sides(picture, left, top, right, bottom, step, n - 1, v);
        lemma_tick_inside(bottom.at - top.at, step, n - 1);
        let y = top.at + (n - 1) * step;
        assert forall|i: int|
            left.at <= i < left.at + left.thickness && picture.has(i, y) implies vividness(
            #[trigger] picture.at(i, y),
        ) == v by {
            assert(on_strokes(left, top, right, bottom, i, y));
        }
        assert forall|i: int|
            right.at <= i < right.at + right.thickness && picture.has(i, y) implies vividness(
            #[trigger] picture.at(i, y),
        ) == v by {
            assert(on_strokes(left, top, right, bottom, i, y));
        }
        lemma_even_across(picture, left.at as int, y, left.thickness as int, v);
        lemma_even_across(picture, right.at as int, y, right.thickness as int, v);
        let a = light_of_sides(picture, top.at as int, step, left, right, n - 1).count;
        let b = light_across(picture, left.at as int, y, left.thickness as int).count;
        let c = light_across(picture, right.at as int, y, right.thickness as int).count;
        assert(v * (a + b + c) == v * a + v * b + v * c) by (nonlinear_arith);
    }
}

/// A ring is judged by the pixels of its strokes and by no others: where all of
/// those are equally vivid, so is the ring, whatever stands beside them.
pub proof fn law_a_ring_is_as_vivid_as_its_strokes(
    picture: Picture,
    left: Line,
    top: Line,
    right: Line,
    bottom: Line,
    v: int,
)
    requires
        left.at < right.at,
        top.at <= bottom.at,
        top.thickness > 0,
        picture.has(left.at as int, top.at as int),
        evenly_vivid(picture, left, top, right, bottom, v),
    ensures
        mean(ring_light(picture, left, top, right, bottom)) == v,
{
    let (across, down) = (right.at - left.at, bottom.at - top.at);
    let (a, d) = (stroke_step(across), stroke_step(down));
    let columns = ticks(across, a);
    vstd::arithmetic::div_mod::lemma_div_pos_is_pos(across - 1, a);
    if down > 0 {
        vstd::arithmetic::div_mod::lemma_div_pos_is_pos(down - 1, d);
    }
    lemma_even_edges(picture, left, top, right, bottom, a, columns, v);
    lemma_even_sides(picture, left, top, right, bottom, d, ticks(down, d), v);
    let one = light_of_edges(picture, left.at as int, a, top, bottom, columns);
    let two = light_of_sides(picture, top.at as int, d, left, right, ticks(down, d));
    let count = one.count + two.count;
    assert(v * (one.count + two.count) == v * one.count + v * two.count) by (nonlinear_arith);
    assert(v * count == count * v) by (nonlinear_arith);
    vstd::arithmetic::div_mod::lemma_div_multiples_vanish(v, count);
}

// ---------------------------------------------------------------------------
// The rings of a picture
// ---------------------------------------------------------------------------
proof fn lemma_weakest_of(held: Seq<Ring>, n: int)
    requires
        1 <= n <= held.len(),
    ensures
        0 <= weakest(held, n) < n,
        forall|i: int|
            0 <= i < n ==> held[weakest(held, n)].saturation <= (#[trigger] held[i]).saturation,
    decreases n,
{
    if n > 1 {
        lemma_weakest_of(held, n - 1);
    }
}

/// A ring that is found is held, unless one with its rectangle is, or 32 are
/// held that are all at least as vivid.  Another gives way to it only where 32
/// are held, and then one than which none is less vivid.
pub proof fn law_the_most_vivid_rings_are_held(held: Seq<Ring>, ring: Ring)
    requires
        held.len() <= 32,
    ensures
        with_ring(held, None) == held,
        held.len() <= with_ring(held, Some(ring)).len() <= 32,
        ({
            ||| with_ring(held, Some(ring)).contains(ring)
            ||| with_ring(held, Some(ring)) == held && exists|i: int|
                0 <= i < held.len() && (#[trigger] held[i]).rect == ring.rect
            ||| with_ring(held, Some(ring)) == held && held.len() == 32 && forall|i: int|
                0 <= i < held.len() ==> (#[trigger] held[i]).saturation >= ring.saturation
        }),
        forall|i: int|
            0 <= i < held.len() && !with_ring(held, Some(ring)).contains(#[trigger] held[i])
                ==> held.len() == 32 && held[i].saturation < ring.saturation && forall|j: int|
                0 <= j < held.len() ==> held[i].saturation <= (#[trigger] held[j]).saturation,
{
    let all = with_ring(held, Some(ring));
    if held.len() > 0 {
        lemma_weakest_of(held, held.len() as int);
    }
    let w = weakest(held, held.len() as int);
    let known = exists|i: int| 0 <= i < held.len() && (#[trigger] held[i]).rect == ring.rect;
    if !known {
        if held.len() < 32 {
            assert(all[held.len() as int] == ring);
        } else if held[w].saturation < ring.saturation {
            assert(all[w] == ring);
        }
    }
    assert forall|i: int| 0 <= i < held.len() && !all.contains(
        #[trigger] held[i],
    ) implies held.len() == 32 && held[i].saturation < ring.saturation && forall|j: int|
        0 <= j < held.len() ==> held[i].saturation <= (#[trigger] held[j]).saturation by {
        if i != w || known || held.len() < 32 || held[w].saturation >= ring.saturation {
            assert(all[i] == held[i]);
        }
    }
}

/// Two edges form the ring with two of the sides.
pub open spec fn forms(
    picture: Picture,
    horizontals: Seq<Line>,
    verticals: Seq<Line>,
    ring: Ring,
) -> bool {
    exists|a: int, b: int|
        0 <= a < b < horizontals.len() && #[trigger] ring_between(
            picture,
            verticals,
            horizontals[a],
            horizontals[b],
        ) == Some(ring)
}

proof fn lemma_rings_from(
    picture: Picture,
    horizontals: Seq<Line>,
    verticals: Seq<Line>,
    held: Seq<Ring>,
    i: int,
    j: int,
)
    requires
        0 <= i < j,
        held.len() <= 32,
        forall|k: int|
            0 <= k < held.len() ==> forms(picture, horizontals, verticals, #[trigger] held[k]),
    ensures
        ({
            let all = rings_from(picture, horizontals, verticals, held, i, j);
            &&& held.len() <= all.len() <= 32
            &&& forall|k: int|
                0 <= k < all.len() ==> forms(picture, horizontals, verticals, #[trigger] all[k])
            &&& all.len() < 32 ==> forall|k: int|
                0 <= k < held.len() ==> all.contains(#[trigger] held[k])
            &&& all.len() < 32 ==> forall|a: int, b: int|
                (i < a < b < horizontals.len() || a == i && j <= b < horizontals.len()) && (
                #[trigger] ring_between(picture, verticals, horizontals[a], horizontals[b])) is Some
                    ==> exists|k: int|
                    0 <= k < all.len() && (#[trigger] all[k]).rect == ring_between(
                        picture,
                        verticals,
                        horizontals[a],
                        horizontals[b],
                    )->Some_0.rect
        }),
    decreases horizontals.len() - i, horizontals.len() - j,
{
    let all = rings_from(picture, horizontals, verticals, held, i, j);
    if i < horizontals.len() {
        if j >= horizontals.len() {
            lemma_rings_from(picture, horizontals, verticals, held, i + 1, i + 2);
        } else {
            let found = ring_between(picture, verticals, horizontals[i], horizontals[j]);
            let next = with_ring(held, found);
            if found is Some {
                law_the_most_vivid_rings_are_held(held, found->Some_0);
            }
            if held.len() > 0 {
                lemma_weakest_of(held, held.len() as int);
            }
            assert forall|k: int| 0 <= k < next.len() implies forms(
                picture,
                horizontals,
                verticals,
                #[trigger] next[k],
            ) by {
                if found is Some && next[k] == found->Some_0 {
                } else {
                    assert(next[k] == held[k]);
                }
            }
            lemma_rings_from(picture, horizontals, verticals, next, i, j + 1);
            if all.len() < 32 {
                assert forall|k: int| 0 <= k < held.len() implies all.contains(
                    #[trigger] held[k],
                ) by {
                    assert(next.contains(held[k]));
                    let m = choose|m: int| 0 <= m < next.len() && next[m] == held[k];
                    assert(all.contains(next[m]));
                }
                assert forall|a: int, b: int|
                    (i < a < b < horizontals.len() || a == i && j <= b < horizontals.len()) && (
                    #[trigger] ring_between(
                        picture,
                        verticals,
                        horizontals[a],
                        horizontals[b],
                    )) is Some implies exists|k: int|
                    0 <= k < all.len() && (#[trigger] all[k]).rect == ring_between(
                        picture,
                        verticals,
                        horizontals[a],
                        horizontals[b],
                    )->Some_0.rect by {
                    if a == i && b == j {
                        let ring = found->Some_0;
                        let m = if next.contains(ring) {
                            choose|m: int| 0 <= m < next.len() && next[m] == ring
                        } else {
                            choose|m: int|
                                0 <= m < held.len() && (#[trigger] held[m]).rect == ring.rect
                        };
                        assert(next[m].rect == ring.rect);
                        assert(all.contains(next[m]));
                        let k = choose|k: int| 0 <= k < all.len() && all[k] == next[m];
                        assert(all[k].rect == ring.rect);
                    }
                }
            }
        }
    }
}

/// Every ring of a picture is formed by two of its horizontal edges and two of
/// its vertical ones; as long as there are fewer than 32, every rectangle that
/// two edges form is one.
pub proof fn law_every_ring_is_formed_by_edges(picture: Picture)
    ensures
        forall|k: int|
            0 <= k < rings(picture).len() ==> forms(
                picture,
                lines_from(picture, true, 0),
                lines_from(picture, false, 0),
                #[trigger] rings(picture)[k],
            ),
        rings(picture).len() < 32 ==> forall|ring: Ring| #[trigger]
            forms(picture, lines_from(picture, true, 0), lines_from(picture, false, 0), ring)
                ==> exists|k: int|
                0 <= k < rings(picture).len() && (#[trigger] rings(picture)[k]).rect == ring.rect,
{
    let (h, v) = (lines_from(picture, true, 0), lines_from(picture, false, 0));
    let found = rings_from(picture, h, v, Seq::empty(), 0, 1);
    lemma_rings_from(picture, h, v, Seq::empty(), 0, 1);
    let items = keyed(found);
    let sorted = descending(items);
    let from = law_equal_keys_keep_their_order(items);
    let all = rings(picture);
    assert forall|k: int| 0 <= k < all.len() implies forms(picture, h, v, #[trigger] all[k]) by {
        assert(sorted[k] == items[from[k]]);
        assert(all[k] == found[from[k]]);
    }
    if all.len() < 32 {
        assert forall|ring: Ring| #[trigger] forms(picture, h, v, ring) implies exists|k: int|
            0 <= k < all.len() && (#[trigger] all[k]).rect == ring.rect by {
            let (a, b) = choose|a: int, b: int|
                0 <= a < b < h.len() && #[trigger] ring_between(picture, v, h[a], h[b]) == Some(
                    ring,
                );
            assert(ring_between(picture, v, h[a], h[b]) is Some);
            let m = choose|m: int|
                0 <= m < found.len() && (#[trigger] found[m]).rect == ring.rect;
            assert(from.contains(m));
            let k = choose|k: int| 0 <= k < from.len() && from[k] == m;
            assert(sorted[k] == items[from[k]]);
            assert(all[k].rect == ring.rect);
        }
    }
}

} // verus!
