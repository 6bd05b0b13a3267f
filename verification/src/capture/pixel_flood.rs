//! Flood filling a picture, and what it means for one pixel to reach another.

use vstd::prelude::*;

use super::pixel_frame::{channel_delta, delta, Rgba};

verus! {

/// Neighbour channel delta a locally smooth background flood may cross.
pub const SEG_JOIN_DIFF: i32 = 10;

/// What a flood may cross: a picture wherever it is locally smooth, or the set
/// pixels of a mask.
pub enum Terrain {
    Smooth(Seq<Rgba>),
    Mask(Seq<bool>),
}

impl Terrain {
    pub open spec fn len(self) -> nat {
        match self {
            Terrain::Smooth(pixels) => pixels.len(),
            Terrain::Mask(mask) => mask.len(),
        }
    }

    /// A flood may cross between the two neighbours.
    pub open spec fn joins(self, a: int, b: int) -> bool {
        match self {
            Terrain::Smooth(pixels) => pixels[a].a == 0 || pixels[b].a == 0 || delta(
                pixels[a],
                pixels[b],
            ) <= SEG_JOIN_DIFF,
            Terrain::Mask(mask) => mask[a] && mask[b],
        }
    }
}

/// `b` is the pixel left of, right of, above or below `a`, in rows of `width`.
pub open spec fn adjacent(width: int, a: int, b: int) -> bool {
    ||| b == a - 1 && a % width > 0
    ||| b == a + 1 && a % width + 1 < width
    ||| b == a - width
    ||| b == a + width
}

/// A flood gets from `a` to `b` in one step.
pub open spec fn steps(terrain: Terrain, width: int, a: int, b: int) -> bool {
    &&& 0 <= a < terrain.len()
    &&& 0 <= b < terrain.len()
    &&& adjacent(width, a, b)
    &&& terrain.joins(a, b)
}

/// A walk from its first to its last pixel.
pub open spec fn is_walk(terrain: Terrain, width: int, walk: Seq<int>) -> bool {
    &&& walk.len() > 0
    &&& forall|i: int|
        0 < i < walk.len() ==> steps(terrain, width, walk[i - 1], #[trigger] walk[i])
}

/// A flood that starts at `a` reaches `b`.
pub open spec fn reaches(terrain: Terrain, width: int, a: int, b: int) -> bool {
    exists|walk: Seq<int>|
        #![trigger is_walk(terrain, width, walk)]
        is_walk(terrain, width, walk) && walk[0] == a && walk.last() == b
}

/// A set of pixels that no step leaves.
pub open spec fn closed_under_steps(terrain: Terrain, width: int, seen: Seq<bool>) -> bool {
    forall|a: int, b: int|
        #![trigger steps(terrain, width, a, b)]
        steps(terrain, width, a, b) && seen[a] ==> seen[b]
}

pub proof fn lemma_reaches_itself(terrain: Terrain, width: int, a: int)
    ensures
        reaches(terrain, width, a, a),
{
    let walk = seq![a];
    assert(is_walk(terrain, width, walk) && walk[0] == a && walk.last() == a);
}

pub proof fn lemma_reaches_further(terrain: Terrain, width: int, a: int, b: int, c: int)
    requires
        reaches(terrain, width, a, b),
        steps(terrain, width, b, c),
    ensures
        reaches(terrain, width, a, c),
{
    let walk = choose|walk: Seq<int>|
        #![trigger is_walk(terrain, width, walk)]
        is_walk(terrain, width, walk) && walk[0] == a && walk.last() == b;
    let longer = walk.push(c);
    assert forall|i: int| 0 < i < longer.len() implies steps(
        terrain,
        width,
        longer[i - 1],
        #[trigger] longer[i],
    ) by {
        if i < walk.len() {
            assert(longer[i] == walk[i]);
        }
    }
    assert(is_walk(terrain, width, longer) && longer[0] == a && longer.last() == c);
}

/// A set that no step leaves holds all that its members reach.
pub proof fn lemma_closed_holds_what_is_reached(
    terrain: Terrain,
    width: int,
    seen: Seq<bool>,
    a: int,
    b: int,
)
    requires
        closed_under_steps(terrain, width, seen),
        seen[a],
        reaches(terrain, width, a, b),
    ensures
        seen[b],
{
    let walk = choose|walk: Seq<int>|
        #![trigger is_walk(terrain, width, walk)]
        is_walk(terrain, width, walk) && walk[0] == a && walk.last() == b;
    lemma_closed_holds_walk(terrain, width, seen, walk, walk.len() - 1);
}

proof fn lemma_closed_holds_walk(
    terrain: Terrain,
    width: int,
    seen: Seq<bool>,
    walk: Seq<int>,
    i: int,
)
    requires
        closed_under_steps(terrain, width, seen),
        is_walk(terrain, width, walk),
        seen[walk[0]],
        0 <= i < walk.len(),
    ensures
        seen[walk[i]],
    decreases i,
{
    if i > 0 {
        lemma_closed_holds_walk(terrain, width, seen, walk, i - 1);
        assert(steps(terrain, width, walk[i - 1], walk[i]));
    }
}

/// What a pixel reaches is a pixel of the terrain.
pub proof fn lemma_reached_in_range(terrain: Terrain, width: int, a: int, b: int)
    requires
        0 <= a < terrain.len(),
        reaches(terrain, width, a, b),
    ensures
        0 <= b < terrain.len(),
        terrain matches Terrain::Mask(mask) ==> (mask[a] ==> mask[b]),
{
    let walk = choose|walk: Seq<int>|
        #![trigger is_walk(terrain, width, walk)]
        is_walk(terrain, width, walk) && walk[0] == a && walk.last() == b;
    if walk.len() > 1 {
        assert(steps(terrain, width, walk[walk.len() - 2], walk[walk.len() - 1]));
    }
}

proof fn lemma_neighbour_column(a: int, width: int)
    requires
        width > 0,
    ensures
        a % width > 0 ==> (a - 1) % width == a % width - 1,
        a % width + 1 < width ==> (a + 1) % width == a % width + 1,
{
    vstd::arithmetic::div_mod::lemma_fundamental_div_mod(a, width);
    let q = a / width;
    assert(width * q == q * width) by (nonlinear_arith);
    if a % width > 0 {
        vstd::arithmetic::div_mod::lemma_fundamental_div_mod_converse(
            a - 1,
            width,
            q,
            a % width - 1,
        );
    }
    if a % width + 1 < width {
        vstd::arithmetic::div_mod::lemma_fundamental_div_mod_converse(
            a + 1,
            width,
            q,
            a % width + 1,
        );
    }
}

/// A step can be taken back.
pub proof fn lemma_steps_back(terrain: Terrain, width: int, a: int, b: int)
    requires
        width > 0,
        steps(terrain, width, a, b),
    ensures
        steps(terrain, width, b, a),
{
    lemma_neighbour_column(a, width);
}

/// What a pixel reaches, reaches it.
pub proof fn lemma_reaches_back(terrain: Terrain, width: int, a: int, b: int)
    requires
        width > 0,
        reaches(terrain, width, a, b),
    ensures
        reaches(terrain, width, b, a),
{
    let walk = choose|walk: Seq<int>|
        #![trigger is_walk(terrain, width, walk)]
        is_walk(terrain, width, walk) && walk[0] == a && walk.last() == b;
    let n = walk.len() as int;
    let back = Seq::new(walk.len(), |i: int| walk[n - 1 - i]);
    assert forall|i: int| 0 < i < back.len() implies steps(
        terrain,
        width,
        back[i - 1],
        #[trigger] back[i],
    ) by {
        assert(steps(terrain, width, walk[n - 1 - i], walk[n - i]));
        lemma_steps_back(terrain, width, walk[n - 1 - i], walk[n - i]);
    }
    assert(is_walk(terrain, width, back) && back[0] == b && back.last() == a);
}

/// The executable form of a [`Terrain`].
pub enum Ground<'a> {
    Smooth(&'a Vec<Rgba>),
    Mask(&'a Vec<bool>),
}

impl<'a> Ground<'a> {
    pub open spec fn view(&self) -> Terrain {
        match self {
            Ground::Smooth(pixels) => Terrain::Smooth(pixels@),
            Ground::Mask(mask) => Terrain::Mask(mask@),
        }
    }

    fn joins(&self, a: usize, b: usize) -> (joined: bool)
        requires
            a < self@.len(),
            b < self@.len(),
        ensures
            joined == self@.joins(a as int, b as int),
    {
        match self {
            Ground::Smooth(pixels) => {
                let (p, q) = (pixels[a], pixels[b]);
                p.a == 0 || q.a == 0 || channel_delta(p, q) <= SEG_JOIN_DIFF
            },
            Ground::Mask(mask) => mask[a] && mask[b],
        }
    }
}

/// The pixels still to be looked at: those of `order` from `head` on are
/// waiting, and every other seen pixel has all it steps to seen.
#[verifier::opaque]
spec fn frontier(
    terrain: Terrain,
    width: int,
    seen: Seq<bool>,
    order: Seq<usize>,
    head: int,
) -> bool {
    forall|a: int, b: int|
        #![trigger steps(terrain, width, a, b)]
        steps(terrain, width, a, b) && seen[a] && !waiting(order, head, a) ==> seen[b]
}

spec fn waiting(order: Seq<usize>, head: int, a: int) -> bool {
    exists|i: int| head <= i < order.len() && #[trigger] order[i] == a
}

/// Distinct numbers below a bound are no more than the bound.
proof fn lemma_distinct_below(order: Seq<usize>, bound: int)
    requires
        order.no_duplicates(),
        forall|i: int| 0 <= i < order.len() ==> #[trigger] order[i] < bound,
        bound >= 0,
    ensures
        order.len() <= bound,
{
    order.unique_seq_to_set();
    let numbers = order.to_set();
    let range = Set::new(|n: usize| n < bound);
    lemma_range(bound);
    assert(numbers.subset_of(range)) by {
        assert forall|n: usize| numbers.contains(n) implies range.contains(n) by {
            let i = choose|i: int| 0 <= i < order.len() && order[i] == n;
        }
    }
    vstd::set_lib::lemma_len_subset(numbers, range);
}

proof fn lemma_range(bound: int)
    requires
        bound >= 0,
    ensures
        Set::new(|n: usize| n < bound).finite(),
        Set::new(|n: usize| n < bound).len() <= bound,
    decreases bound,
{
    let range = Set::new(|n: usize| n < bound);
    if bound == 0 {
        assert(range =~= Set::empty());
    } else {
        lemma_range(bound - 1);
        let below = Set::new(|n: usize| n < bound - 1);
        if bound - 1 <= usize::MAX {
            assert(range =~= below.insert((bound - 1) as usize));
        } else {
            assert(range =~= below);
        }
    }
}

/// A flood went on: nothing seen is forgotten, and what is newly seen has been
/// queued.
spec fn grew(
    seen: Seq<bool>,
    order: Seq<usize>,
    later_seen: Seq<bool>,
    later_order: Seq<usize>,
) -> bool {
    &&& seen.len() == later_seen.len()
    &&& order.len() <= later_order.len()
    &&& forall|i: int| 0 <= i < order.len() ==> #[trigger] later_order[i] == order[i]
    &&& forall|j: int| 0 <= j < seen.len() && seen[j] ==> #[trigger] later_seen[j]
    &&& forall|j: int|
        0 <= j < seen.len() && #[trigger] later_seen[j] && !seen[j] ==> waiting(
            later_order,
            order.len() as int,
            j,
        )
}

proof fn lemma_grew_on(
    seen0: Seq<bool>,
    order0: Seq<usize>,
    seen1: Seq<bool>,
    order1: Seq<usize>,
    seen2: Seq<bool>,
    order2: Seq<usize>,
)
    requires
        grew(seen0, order0, seen1, order1),
        grew(seen1, order1, seen2, order2),
    ensures
        grew(seen0, order0, seen2, order2),
{
    assert forall|i: int| 0 <= i < order0.len() implies #[trigger] order2[i] == order0[i] by {
        assert(order1[i] == order0[i]);
    }
    assert forall|j: int| 0 <= j < seen0.len() && seen0[j] implies #[trigger] seen2[j] by {
        assert(seen1[j]);
    }
    assert forall|j: int| 0 <= j < seen0.len() && #[trigger] seen2[j] && !seen0[j] implies waiting(
        order2,
        order0.len() as int,
        j,
    ) by {
        if seen1[j] {
            let i = choose|i: int| order0.len() <= i < order1.len() && #[trigger] order1[i] == j;
            assert(order2[i] == j);
        } else {
            let i = choose|i: int| order1.len() <= i < order2.len() && #[trigger] order2[i] == j;
            assert(order2[i] == j);
        }
    }
}

/// Marks `next` when the flood gets there from `from` and it was not seen
/// before.
fn visit(
    ground: &Ground,
    Ghost(width): Ghost<int>,
    Ghost(starts): Ghost<Seq<usize>>,
    Ghost(before): Ghost<Seq<bool>>,
    seen: &mut Vec<bool>,
    order: &mut Vec<usize>,
    head: usize,
    next: usize,
)
    requires
        head < old(order)@.len(),
        next < ground@.len(),
        adjacent(width, old(order)@[head as int] as int, next as int),
        flooding(ground@, width, starts, before, old(seen)@, old(order)@),
    ensures
        flooding(ground@, width, starts, before, final(seen)@, final(order)@),
        grew(old(seen)@, old(order)@, final(seen)@, final(order)@),
        steps(ground@, width, old(order)@[head as int] as int, next as int) ==> final(seen)@[next as int],
{
    reveal(flooding);
    let from: usize = order[head];
    if !seen[next] && ground.joins(from, next) {
        let ghost old_seen = seen@;
        let ghost old_order = order@;
        seen.set(next, true);
        order.push(next);
        proof {
            assert(steps(ground@, width, from as int, next as int));
            let k = choose|k: int|
                0 <= k < starts.len() && reaches(
                    ground@,
                    width,
                    #[trigger] starts[k] as int,
                    old_order[head as int] as int,
                );
            lemma_reaches_further(ground@, width, starts[k] as int, from as int, next as int);
            assert forall|i: int| 0 <= i < order@.len() implies {
                &&& #[trigger] order@[i] < ground@.len()
                &&& seen@[order@[i] as int]
                &&& exists|k: int|
                    0 <= k < starts.len() && reaches(
                        ground@,
                        width,
                        #[trigger] starts[k] as int,
                        order@[i] as int,
                    )
            } by {
                if i < old_order.len() {
                    assert(order@[i] == old_order[i]);
                }
            }
            assert forall|j: int| 0 <= j < seen@.len() && #[trigger] seen@[j] implies before[j]
                || waiting(order@, 0, j) by {
                if j == next {
                    assert(order@[old_order.len() as int] == next);
                } else if !before[j] {
                    assert(old_seen[j]);
                    let i = choose|i: int| 0 <= i < old_order.len() && #[trigger] old_order[i] == j;
                    assert(order@[i] == j);
                }
            }
            assert(order@.take(starts.len() as int) =~= starts) by {
                assert(order@.take(starts.len() as int) =~= old_order.take(starts.len() as int));
            }
            assert(order@[old_order.len() as int] == next);
            assert(order@.no_duplicates()) by {
                assert forall|i: int| 0 <= i < old_order.len() implies old_order[i] != next by {
                    assert(old_seen[old_order[i] as int]);
                }
            }
            assert forall|i: int| starts.len() <= i < order@.len() implies !before[
            #[trigger] order@[i] as int] by {
                if i < old_order.len() {
                    assert(order@[i] == old_order[i]);
                } else if before[next as int] {
                    assert(old_seen[next as int]);
                }
            }
        }
    }
}

/// The state of a flood: what is seen was seen before or has been queued, and
/// what has been queued is reached from a start.
#[verifier::opaque]
spec fn flooding(
    terrain: Terrain,
    width: int,
    starts: Seq<usize>,
    before: Seq<bool>,
    seen: Seq<bool>,
    order: Seq<usize>,
) -> bool {
    &&& seen.len() == terrain.len()
    &&& before.len() == terrain.len()
    &&& order.no_duplicates()
    &&& order.len() >= starts.len()
    &&& order.take(starts.len() as int) == starts
    &&& forall|i: int|
        0 <= i < order.len() ==> {
            &&& #[trigger] order[i] < terrain.len()
            &&& seen[order[i] as int]
            &&& exists|k: int|
                0 <= k < starts.len() && reaches(
                    terrain,
                    width,
                    #[trigger] starts[k] as int,
                    order[i] as int,
                )
        }
    &&& forall|i: int|
        starts.len() <= i < order.len() ==> !before[#[trigger] order[i] as int]
    &&& forall|j: int| 0 <= j < seen.len() && before[j] ==> #[trigger] seen[j]
    &&& forall|j: int|
        0 <= j < seen.len() && #[trigger] seen[j] ==> before[j] || waiting(order, 0, j)
}

proof fn lemma_flooding_bounds(
    terrain: Terrain,
    width: int,
    starts: Seq<usize>,
    before: Seq<bool>,
    seen: Seq<bool>,
    order: Seq<usize>,
)
    requires
        flooding(terrain, width, starts, before, seen, order),
    ensures
        seen.len() == terrain.len(),
        order.no_duplicates(),
        forall|i: int| 0 <= i < order.len() ==> #[trigger] order[i] < terrain.len(),
{
    reveal(flooding);
}

/// Visits the four neighbours of the pixel at the head of the queue.
fn expand(
    ground: &Ground,
    width: usize,
    Ghost(starts): Ghost<Seq<usize>>,
    Ghost(before): Ghost<Seq<bool>>,
    seen: &mut Vec<bool>,
    order: &mut Vec<usize>,
    head: usize,
)
    requires
        width > 0,
        ground@.len() % (width as nat) == 0,
        head < old(order)@.len(),
        flooding(ground@, width as int, starts, before, old(seen)@, old(order)@),
    ensures
        flooding(ground@, width as int, starts, before, final(seen)@, final(order)@),
        grew(old(seen)@, old(order)@, final(seen)@, final(order)@),
        forall|b: int|
            #[trigger] steps(ground@, width as int, old(order)@[head as int] as int, b) ==> final(seen)@[b],
{
    let ghost w = width as int;
    proof {
        lemma_flooding_bounds(ground@, w, starts, before, seen@, order@);
    }
    let total: usize = seen.len();
    let from: usize = order[head];
    let ghost (seen0, order0) = (seen@, order@);
    let x: usize = from % width;
    if x > 0 {
        proof {
            if from == 0 {
                vstd::arithmetic::div_mod::lemma_small_mod(0, width as nat);
            }
        }
        visit(ground, Ghost(w), Ghost(starts), Ghost(before), seen, order, head, from - 1);
    }
    let ghost (seen1, order1) = (seen@, order@);
    assert(order1[head as int] == order0[head as int]);
    if x + 1 < width {
        proof {
            lemma_right_in_range(from as int, w, total as int);
        }
        visit(ground, Ghost(w), Ghost(starts), Ghost(before), seen, order, head, from + 1);
    }
    let ghost (seen2, order2) = (seen@, order@);
    assert(order2[head as int] == order1[head as int]);
    if from >= width {
        visit(ground, Ghost(w), Ghost(starts), Ghost(before), seen, order, head, from - width);
    }
    let ghost (seen3, order3) = (seen@, order@);
    assert(order3[head as int] == order2[head as int]);
    if total - from > width {
        visit(ground, Ghost(w), Ghost(starts), Ghost(before), seen, order, head, from + width);
    }
    proof {
        lemma_grew_on(seen0, order0, seen1, order1, seen2, order2);
        lemma_grew_on(seen0, order0, seen2, order2, seen3, order3);
        lemma_grew_on(seen0, order0, seen3, order3, seen@, order@);
        lemma_grew_on(seen1, order1, seen2, order2, seen3, order3);
        lemma_grew_on(seen1, order1, seen3, order3, seen@, order@);
        lemma_grew_on(seen2, order2, seen3, order3, seen@, order@);
        assert forall|b: int| #[trigger] steps(ground@, w, from as int, b) implies seen@[b] by {
            if b == from - 1 && x > 0 {
                assert(seen1[b]);
            } else if b == from + 1 && x + 1 < width {
                assert(seen2[b]);
            } else if b == from - width {
                assert(seen3[b]);
            }
        }
    }
}

/// A flood may begin anywhere that leaves nothing behind it open.
proof fn lemma_flood_begins(terrain: Terrain, w: int, first: Seq<usize>, seen: Seq<bool>)
    requires
        seen.len() == terrain.len(),
        seen.len() <= usize::MAX,
        first.no_duplicates(),
        forall|i: int|
            0 <= i < first.len() ==> #[trigger] first[i] < terrain.len() && seen[first[i] as int],
        forall|a: int, b: int|
            #![trigger steps(terrain, w, a, b)]
            steps(terrain, w, a, b) && seen[a] && !first.contains(a as usize) ==> seen[b],
    ensures
        flooding(terrain, w, first, seen, seen, first),
        frontier(terrain, w, seen, first, 0),
{
    reveal(flooding);
    reveal(frontier);
    assert(first.take(first.len() as int) =~= first);
    assert forall|i: int| 0 <= i < first.len() implies exists|k: int|
        0 <= k < first.len() && reaches(
            terrain,
            w,
            #[trigger] first[k] as int,
            #[trigger] first[i] as int,
        ) by {
        lemma_reaches_itself(terrain, w, first[i] as int);
    }
    assert forall|a: int, b: int|
        #![trigger steps(terrain, w, a, b)]
        steps(terrain, w, a, b) && seen[a] && !waiting(first, 0, a) implies seen[b] by {
        if first.contains(a as usize) {
            let i = choose|i: int| 0 <= i < first.len() && first[i] == a as usize;
            assert(first[i] == a);
        }
    }
}

/// With nothing waiting any more, the flood is complete.
proof fn lemma_flood_ends(
    terrain: Terrain,
    w: int,
    first: Seq<usize>,
    before: Seq<bool>,
    seen: Seq<bool>,
    order: Seq<usize>,
    head: int,
)
    requires
        flooding(terrain, w, first, before, seen, order),
        frontier(terrain, w, seen, order, head),
        head >= order.len(),
    ensures
        seen.len() == terrain.len(),
        closed_under_steps(terrain, w, seen),
        forall|j: int| 0 <= j < seen.len() && before[j] ==> #[trigger] seen[j],
        forall|j: int|
            0 <= j < seen.len() && #[trigger] seen[j] && !before[j] ==> order.contains(j as usize),
        forall|i: int|
            0 <= i < order.len() ==> {
                &&& #[trigger] order[i] < terrain.len()
                &&& seen[order[i] as int]
                &&& exists|k: int|
                    0 <= k < first.len() && reaches(
                        terrain,
                        w,
                        #[trigger] first[k] as int,
                        order[i] as int,
                    )
            },
        forall|k: int| 0 <= k < first.len() ==> order.contains(#[trigger] first[k]),
{
    reveal(flooding);
    reveal(frontier);
    assert forall|j: int| 0 <= j < seen.len() && #[trigger] seen[j] && !before[j] implies order.contains(
    j as usize) by {
        let i = choose|i: int| 0 <= i < order.len() && #[trigger] order[i] == j;
    }
    assert forall|k: int| 0 <= k < first.len() implies order.contains(#[trigger] first[k]) by {
        assert(order.take(first.len() as int)[k] == first[k]);
        assert(order[k] == first[k]);
    }
    assert forall|a: int, b: int|
        #![trigger steps(terrain, w, a, b)]
        steps(terrain, w, a, b) && seen[a] implies seen[b] by {
        assert(!waiting(order, head, a));
    }
}

/// Floods from the pixels in `starts`, which are marked in `seen` already.
/// Returns them and every pixel that the flood newly marked, in the order it
/// came to them.
pub fn flood(ground: &Ground, width: usize, seen: &mut Vec<bool>, starts: Vec<usize>) -> (order:
    Vec<usize>)
    requires
        width > 0,
        old(seen)@.len() == ground@.len(),
        ground@.len() % (width as nat) == 0,
        starts@.no_duplicates(),
        forall|i: int|
            0 <= i < starts@.len() ==> #[trigger] starts@[i] < ground@.len() && old(seen)@[starts@[i] as int],
        forall|a: int, b: int|
            #![trigger steps(ground@, width as int, a, b)]
            steps(ground@, width as int, a, b) && old(seen)@[a] && !starts@.contains(a as usize)
                ==> old(seen)@[b],
    ensures
        final(seen)@.len() == old(seen)@.len(),
        closed_under_steps(ground@, width as int, final(seen)@),
        forall|j: int|
            0 <= j < final(seen)@.len() && old(seen)@[j] ==> #[trigger] final(seen)@[j],
        forall|j: int|
            0 <= j < final(seen)@.len() && #[trigger] final(seen)@[j] && !old(seen)@[j]
                ==> order@.contains(j as usize),
        forall|i: int|
            0 <= i < order@.len() ==> {
                &&& #[trigger] order@[i] < ground@.len()
                &&& final(seen)@[order@[i] as int]
                &&& exists|k: int|
                    0 <= k < starts@.len() && reaches(
                        ground@,
                        width as int,
                        #[trigger] starts@[k] as int,
                        order@[i] as int,
                    )
            },
        forall|k: int|
            0 <= k < starts@.len() ==> order@.contains(#[trigger] starts@[k]),
{
    let ghost before = seen@;
    let ghost terrain = ground@;
    let ghost w = width as int;
    let total: usize = seen.len();
    let ghost first = starts@;
    let mut order: Vec<usize> = starts;
    let mut head: usize = 0;
    proof {
        lemma_flood_begins(terrain, w, first, before);
    }
    while head < order.len()
        invariant
            terrain == ground@,
            w == width,
            width > 0,
            total == terrain.len(),
            terrain.len() % (width as nat) == 0,
            head <= order@.len(),
            flooding(terrain, w, first, before, seen@, order@),
            frontier(terrain, w, seen@, order@, head as int),
        decreases total - head,
    {
        proof {
            lemma_flooding_bounds(terrain, w, first, before, seen@, order@);
            lemma_distinct_below(order@, total as int);
        }
        let ghost seen0 = seen@;
        let ghost order0 = order@;
        expand(ground, width, Ghost(first), Ghost(before), seen, &mut order, head);
        proof {
            lemma_frontier_moves(terrain, w, seen0, order0, seen@, order@, head as int);
        }
        head = head + 1;
    }
    proof {
        lemma_flood_ends(terrain, w, first, before, seen@, order@, head as int);
    }
    order
}

/// Once the head's neighbours are seen, the head is done with.
proof fn lemma_frontier_moves(
    terrain: Terrain,
    width: int,
    seen: Seq<bool>,
    order: Seq<usize>,
    later_seen: Seq<bool>,
    later_order: Seq<usize>,
    head: int,
)
    requires
        seen.len() == terrain.len(),
        0 <= head < order.len(),
        order.no_duplicates(),
        frontier(terrain, width, seen, order, head),
        grew(seen, order, later_seen, later_order),
        forall|b: int| #[trigger] steps(terrain, width, order[head] as int, b) ==> later_seen[b],
    ensures
        frontier(terrain, width, later_seen, later_order, head + 1),
{
    reveal(frontier);
    assert forall|a: int, b: int|
        #![trigger steps(terrain, width, a, b)]
        steps(terrain, width, a, b) && later_seen[a] && !waiting(
            later_order,
            head + 1,
            a,
        ) implies later_seen[b] by {
        if a != order[head] {
            if !seen[a] {
                let i = choose|i: int|
                    order.len() <= i < later_order.len() && #[trigger] later_order[i] == a;
                assert(later_order[i] == a);
            } else if waiting(order, head, a) {
                let i = choose|i: int| head <= i < order.len() && #[trigger] order[i] == a;
                assert(later_order[i] == a);
            } else {
                assert(seen[b]);
            }
        }
    }
}

/// The right neighbour of a pixel that does not end its row is a pixel.
proof fn lemma_right_in_range(a: int, width: int, total: int)
    requires
        0 <= a < total,
        width > 0,
        total % width == 0,
        a % width + 1 < width,
    ensures
        a + 1 < total,
{
    if a + 1 == total {
        vstd::arithmetic::div_mod::lemma_fundamental_div_mod(a, width);
        assert(width * (a / width) == (a / width) * width) by (nonlinear_arith);
        vstd::arithmetic::div_mod::lemma_fundamental_div_mod_converse(
            a + 1,
            width,
            a / width,
            a % width + 1,
        );
    }
}

} // verus!
