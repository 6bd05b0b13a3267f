//! What an outline of one accent colour is, told without the counting that
//! finds it.

use vstd::prelude::*;

use crate::binary64::{law_a_quotient_is_rounded_to_its_nearest, nearest_even};
use crate::capture::pixel_components::component_boxes;
use crate::capture::pixel_frame::{vividness, Picture, Rgba};
use crate::capture::pixel_outline::{
    accent_colors, all_edge_colors, believable, best_band, bucket, bucket_average, bucket_count,
    bucket_sum, channel_of, color_mask, depth, edge_colors, edge_pair, inset, large_enough,
    outline_score, outlined, outlined_regions, outlines, outlines_in_color, outlines_in_colors,
    pair_colors, scored_buckets, share, significant, tally, whole_tally, Tally,
};
use crate::capture::pixel_segments::is_uniform;
use crate::geometry::Rect;
use crate::sorting::{descending, is_stable_order, law_equal_keys_keep_their_order};

verus! {

/// How many of the numbers below `n` have a property.
pub open spec fn how_many(n: int, property: spec_fn(int) -> bool) -> nat {
    vstd::set_lib::set_int_range(0, n).filter(property).len()
}

proof fn lemma_one_more(n: int, property: spec_fn(int) -> bool)
    requires
        0 < n,
    ensures
        how_many(n, property) == how_many(n - 1, property) + if property(n - 1) {
            1nat
        } else {
            0nat
        },
{
    vstd::set_lib::lemma_int_range(0, n);
    vstd::set_lib::lemma_int_range(0, n - 1);
    let now = vstd::set_lib::set_int_range(0, n).filter(property);
    let before = vstd::set_lib::set_int_range(0, n - 1).filter(property);
    if property(n - 1) {
        assert(now =~= before.insert(n - 1));
    } else {
        assert(now =~= before);
    }
}

proof fn lemma_none_yet(property: spec_fn(int) -> bool)
    ensures
        how_many(0, property) == 0,
{
    assert(vstd::set_lib::set_int_range(0, 0).filter(property) =~= Set::<int>::empty());
}

// ---------------------------------------------------------------------------
// Contrasting pixels
// ---------------------------------------------------------------------------
/// Two pixels that can be seen differ on some channel by at least 24.
pub open spec fn contrast(a: Rgba, b: Rgba) -> bool {
    &&& a.a != 0
    &&& b.a != 0
    &&& ({
        ||| a.r - b.r >= 24
        ||| b.r - a.r >= 24
        ||| a.g - b.g >= 24
        ||| b.g - a.g >= 24
        ||| a.b - b.b >= 24
        ||| b.b - a.b >= 24
    })
}

/// The pixel contrasts with the one on its right.
pub open spec fn contrasts_right(picture: Picture, i: int) -> bool {
    let (x, y) = (i % picture.width, i / picture.width);
    picture.has(x + 1, y) && contrast(picture.at(x, y), picture.at(x + 1, y))
}

/// The pixel contrasts with the one below it.
pub open spec fn contrasts_below(picture: Picture, i: int) -> bool {
    let (x, y) = (i % picture.width, i / picture.width);
    picture.has(x, y + 1) && contrast(picture.at(x, y), picture.at(x, y + 1))
}

/// Two colours are recorded for every contrasting pair of neighbours: of each
/// pixel with the one on its right, and of each with the one below it.
pub proof fn law_every_contrasting_pair_is_recorded(picture: Picture, n: int)
    requires
        0 <= n,
    ensures
        edge_colors(picture, n).len() == 2 * (how_many(n, |i: int| contrasts_right(picture, i))
            + how_many(n, |i: int| contrasts_below(picture, i))),
        forall|i: int|
            0 <= i < n && #[trigger] contrasts_right(picture, i) ==> {
                let (x, y) = (i % picture.width, i / picture.width);
                &&& edge_colors(picture, n).contains(picture.at(x, y))
                &&& edge_colors(picture, n).contains(picture.at(x + 1, y))
            },
        forall|i: int|
            0 <= i < n && #[trigger] contrasts_below(picture, i) ==> {
                let (x, y) = (i % picture.width, i / picture.width);
                &&& edge_colors(picture, n).contains(picture.at(x, y))
                &&& edge_colors(picture, n).contains(picture.at(x, y + 1))
            },
    decreases n,
{
    let right = |i: int| contrasts_right(picture, i);
    let below = |i: int| contrasts_below(picture, i);
    if n > 0 {
        law_every_contrasting_pair_is_recorded(picture, n - 1);
        lemma_one_more(n, right);
        lemma_one_more(n, below);
        let (x, y) = ((n - 1) % picture.width, (n - 1) / picture.width);
        let before = edge_colors(picture, n - 1);
        let one = pair_colors(picture, x, y, x + 1, y);
        let two = pair_colors(picture, x, y, x, y + 1);
        let all = edge_colors(picture, n);
        assert(all == before + one + two);
        assert(edge_pair(picture, x, y, x + 1, y) <==> right(n - 1));
        assert(edge_pair(picture, x, y, x, y + 1) <==> below(n - 1));
        assert forall|c: Rgba| before.contains(c) || one.contains(c) || two.contains(
            c,
        ) implies #[trigger] all.contains(c) by {
            if before.contains(c) {
                let k = choose|k: int| 0 <= k < before.len() && before[k] == c;
                assert(all[k] == c);
            } else if one.contains(c) {
                let k = choose|k: int| 0 <= k < one.len() && one[k] == c;
                assert(all[before.len() + k] == c);
            } else {
                let k = choose|k: int| 0 <= k < two.len() && two[k] == c;
                assert(all[before.len() + one.len() + k] == c);
            }
        }
        if right(n - 1) {
            assert(one[0] == picture.at(x, y) && one[1] == picture.at(x + 1, y));
            assert(all.contains(one[0]) && all.contains(one[1]));
        }
        if below(n - 1) {
            assert(two[0] == picture.at(x, y) && two[1] == picture.at(x, y + 1));
            assert(all.contains(two[0]) && all.contains(two[1]));
        }
        assert forall|i: int| 0 <= i < n && #[trigger] contrasts_right(picture, i) implies ({
            let (x, y) = (i % picture.width, i / picture.width);
            &&& all.contains(picture.at(x, y))
            &&& all.contains(picture.at(x + 1, y))
        }) by {
            let (p, q) = (
                picture.at(i % picture.width, i / picture.width),
                picture.at(i % picture.width + 1, i / picture.width),
            );
            if i < n - 1 {
                assert(before.contains(p) && before.contains(q));
            } else {
                assert(right(n - 1));
            }
            assert(all.contains(p) && all.contains(q));
        }
        assert forall|i: int| 0 <= i < n && #[trigger] contrasts_below(picture, i) implies ({
            let (x, y) = (i % picture.width, i / picture.width);
            &&& all.contains(picture.at(x, y))
            &&& all.contains(picture.at(x, y + 1))
        }) by {
            let (p, q) = (
                picture.at(i % picture.width, i / picture.width),
                picture.at(i % picture.width, i / picture.width + 1),
            );
            if i < n - 1 {
                assert(before.contains(p) && before.contains(q));
            } else {
                assert(below(n - 1));
            }
            assert(all.contains(p) && all.contains(q));
        }
    } else {
        lemma_none_yet(right);
        lemma_none_yet(below);
    }
}

/// A picture has hardly any edges where fewer than one pair in a thousand
/// pixels contrasts.
pub proof fn law_a_uniform_picture_hardly_contrasts(picture: Picture)
    requires
        0 <= picture.width,
        0 <= picture.height,
    ensures
        is_uniform(picture) <==> 1000 * (how_many(
            picture.width * picture.height,
            |i: int| contrasts_right(picture, i),
        ) + how_many(picture.width * picture.height, |i: int| contrasts_below(picture, i)))
            < picture.width * picture.height,
{
    assert(0 <= picture.width * picture.height) by (nonlinear_arith)
        requires
            0 <= picture.width,
            0 <= picture.height,
    ;
    law_every_contrasting_pair_is_recorded(picture, picture.width * picture.height);
}

// ---------------------------------------------------------------------------
// Accent colours
// ---------------------------------------------------------------------------
/// Colours fall into one bucket exactly if no channel tells them apart by its
/// upper four bits.
pub proof fn law_a_bucket_holds_similar_colours(a: Rgba, b: Rgba)
    ensures
        0 <= bucket(a) < 4096,
        bucket(a) == bucket(b) <==> a.r / 16 == b.r / 16 && a.g / 16 == b.g / 16 && a.b / 16
            == b.b / 16,
{
}

proof fn lemma_bucket_count(colors: Seq<Rgba>, b: int)
    ensures
        bucket_count(colors, b) == how_many(
            colors.len() as int,
            |i: int| bucket(colors[i]) == b,
        ),
    decreases colors.len(),
{
    let held = |i: int| bucket(colors[i]) == b;
    if colors.len() == 0 {
        lemma_none_yet(held);
    } else {
        let shorter = colors.drop_last();
        lemma_bucket_count(shorter, b);
        lemma_one_more(colors.len() as int, held);
        let before = |i: int| bucket(shorter[i]) == b;
        let range = vstd::set_lib::set_int_range(0, shorter.len() as int);
        assert(range.filter(held) =~= range.filter(before));
    }
}

proof fn lemma_bucket_sum(colors: Seq<Rgba>, b: int, c: int)
    requires
        0 <= c < 3,
        0 <= b < 4096,
    ensures
        ({
            let low = if c == 0 {
                b / 256
            } else if c == 1 {
                b / 16 % 16
            } else {
                b % 16
            };
            bucket_count(colors, b) * (16 * low) <= bucket_sum(colors, b, c) <= bucket_count(
                colors,
                b,
            ) * (16 * low + 15)
        }),
    decreases colors.len(),
{
    if colors.len() > 0 {
        lemma_bucket_sum(colors.drop_last(), b, c);
        let color = colors.last();
        let low = if c == 0 {
            b / 256
        } else if c == 1 {
            b / 16 % 16
        } else {
            b % 16
        };
        let k = bucket_count(colors.drop_last(), b);
        assert((k + 1) * (16 * low) == k * (16 * low) + 16 * low) by (nonlinear_arith);
        assert((k + 1) * (16 * low + 15) == k * (16 * low + 15) + 16 * low + 15) by (nonlinear_arith);
        if bucket(color) == b {
            assert(16 * low <= channel_of(color, c) <= 16 * low + 15);
        }
    }
}

/// A bucket counts the colours that fall into it, and its mean colour is one of
/// the colours that fall into it: no channel leaves the bucket.
pub proof fn law_the_mean_of_a_bucket_lies_in_it(colors: Seq<Rgba>, b: int)
    requires
        0 <= b < 4096,
    ensures
        bucket_count(colors, b) == how_many(colors.len() as int, |i: int| bucket(colors[i]) == b),
        bucket_count(colors, b) > 0 ==> bucket(bucket_average(colors, b)) == b,
        bucket_average(colors, b).a == 255,
{
    lemma_bucket_count(colors, b);
    let count = bucket_count(colors, b);
    if count > 0 {
        lemma_bucket_sum(colors, b, 0);
        lemma_bucket_sum(colors, b, 1);
        lemma_bucket_sum(colors, b, 2);
        lemma_mean_between(bucket_sum(colors, b, 0), count, 16 * (b / 256));
        lemma_mean_between(bucket_sum(colors, b, 1), count, 16 * (b / 16 % 16));
        lemma_mean_between(bucket_sum(colors, b, 2), count, 16 * (b % 16));
        let mean = bucket_average(colors, b);
        assert(mean.r as int / 16 == b / 256);
        assert(mean.g as int / 16 == b / 16 % 16);
        assert(mean.b as int / 16 == b % 16);
    }
}

proof fn lemma_mean_between(sum: int, count: int, low: int)
    requires
        count > 0,
        count * low <= sum <= count * (low + 15),
    ensures
        low <= sum / count <= low + 15,
{
    vstd::arithmetic::div_mod::lemma_fundamental_div_mod(sum, count);
    let q = sum / count;
    assert(low <= q <= low + 15) by (nonlinear_arith)
        requires
            count > 0,
            sum == count * q + sum % count,
            0 <= sum % count < count,
            count * low <= sum <= count * (low + 15),
    ;
}

/// What a bucket is ranked by: how many colours it holds, the more the more
/// vivid their mean is.
pub open spec fn merit(colors: Seq<Rgba>, b: int) -> int {
    how_many(colors.len() as int, |i: int| bucket(colors[i]) == b) * (24 + vividness(
        bucket_average(colors, b),
    ))
}

/// The order in which buckets are tried: the better first, of equals the lower
/// number, and none that is empty.
pub open spec fn is_ranking(colors: Seq<Rgba>, order: Seq<int>) -> bool {
    &&& forall|i: int| 0 <= i < order.len() ==> 0 <= #[trigger] order[i] < 4096 && bucket_count(
        colors,
        order[i],
    ) > 0
    &&& forall|i: int, j: int|
        0 <= i < j < order.len() ==> merit(colors, order[i]) > merit(colors, order[j]) || merit(
            colors,
            order[i],
        ) == merit(colors, order[j]) && order[i] < order[j]
    &&& forall|b: int|
        0 <= b < 4096 && bucket_count(colors, b) > 0 ==> #[trigger] order.contains(b)
}

proof fn lemma_scored(colors: Seq<Rgba>, n: int)
    requires
        0 <= n <= 4096,
        colors.len() <= 0xffff_ffff,
    ensures
        forall|i: int|
            0 <= i < scored_buckets(colors, n).len() ==> {
                let item = #[trigger] scored_buckets(colors, n)[i];
                &&& item.1 < n
                &&& bucket_count(colors, item.1 as int) > 0
                &&& item.0 == merit(colors, item.1 as int)
            },
        forall|i: int, j: int|
            0 <= i < j < scored_buckets(colors, n).len() ==> scored_buckets(colors, n)[i].1
                < scored_buckets(colors, n)[j].1,
        forall|b: int|
            0 <= b < n && #[trigger] bucket_count(colors, b) > 0 ==> exists|i: int|
                0 <= i < scored_buckets(colors, n).len() && (#[trigger] scored_buckets(
                    colors,
                    n,
                )[i]).1 == b,
    decreases n,
{
    if n > 0 {
        lemma_scored(colors, n - 1);
        lemma_bucket_count(colors, n - 1);
        let before = scored_buckets(colors, n - 1);
        let all = scored_buckets(colors, n);
        if bucket_count(colors, n - 1) > 0 {
            let count = bucket_count(colors, n - 1);
            let mean = bucket_average(colors, n - 1);
            lemma_count_bound(colors, n - 1);
            assert(0 <= count * (24 + vividness(mean)) <= 0xffff_ffff * 279) by (nonlinear_arith)
                requires
                    0 <= count <= 0xffff_ffff,
                    0 <= vividness(mean) <= 255,
            ;
            assert(all[all.len() - 1].1 == n - 1);
        }
        assert forall|b: int| 0 <= b < n && #[trigger] bucket_count(colors, b) > 0 implies exists|
            i: int,
        | 0 <= i < all.len() && (#[trigger] all[i]).1 == b by {
            if b < n - 1 {
                let i = choose|i: int| 0 <= i < before.len() && (#[trigger] before[i]).1 == b;
                assert(all[i] == before[i]);
            } else {
                assert(all[all.len() - 1].1 == b);
            }
        }
    }
}

proof fn lemma_count_bound(colors: Seq<Rgba>, b: int)
    ensures
        0 <= bucket_count(colors, b) <= colors.len(),
    decreases colors.len(),
{
    if colors.len() > 0 {
        lemma_count_bound(colors.drop_last(), b);
    }
}

/// The accent colours are the means of the best buckets, the best first, and as
/// many as there are up to the limit.
pub proof fn law_the_best_buckets_give_the_accents(colors: Seq<Rgba>, limit: int)
    requires
        0 <= limit,
        colors.len() <= 0xffff_ffff,
    ensures
        exists|order: Seq<int>|
            {
                &&& #[trigger] is_ranking(colors, order)
                &&& accent_colors(colors, limit).len() <= limit
                &&& accent_colors(colors, limit).len() < limit ==> accent_colors(colors, limit).len()
                    == order.len()
                &&& accent_colors(colors, limit).len() <= order.len()
                &&& forall|i: int|
                    0 <= i < accent_colors(colors, limit).len() ==> #[trigger] accent_colors(
                        colors,
                        limit,
                    )[i] == bucket_average(colors, order[i])
            },
{
    let items = scored_buckets(colors, 4096);
    let ranked = descending(items);
    lemma_scored(colors, 4096);
    let from = law_equal_keys_keep_their_order(items);
    let order = Seq::new(ranked.len(), |i: int| ranked[i].1 as int);
    assert(is_stable_order(items, ranked, from));
    assert forall|i: int| 0 <= i < order.len() implies 0 <= #[trigger] order[i] < 4096
        && bucket_count(colors, order[i]) > 0 && ranked[i].0 == merit(colors, order[i]) by {
        assert(ranked[i] == items[from[i]]);
    }
    assert forall|i: int, j: int| 0 <= i < j < order.len() implies merit(colors, order[i]) > merit(
        colors,
        order[j],
    ) || merit(colors, order[i]) == merit(colors, order[j]) && order[i] < order[j] by {
        assert(ranked[i] == items[from[i]] && ranked[j] == items[from[j]]);
        assert(ranked[i].0 == merit(colors, order[i]));
        assert(ranked[j].0 == merit(colors, order[j]));
    }
    assert forall|b: int| 0 <= b < 4096 && bucket_count(colors, b)
        > 0 implies #[trigger] order.contains(b) by {
        let k = choose|k: int| 0 <= k < items.len() && (#[trigger] items[k]).1 == b;
        assert(from.contains(k));
        let i = choose|i: int| 0 <= i < from.len() && from[i] == k;
        assert(ranked[i] == items[from[i]]);
        assert(order[i] == b);
    }
    assert(is_ranking(colors, order));
}

// ---------------------------------------------------------------------------
// Bands
// ---------------------------------------------------------------------------
/// A pixel has an outline's colour where it can be seen and its channels differ
/// from the colour's by no more than 45 together.
pub proof fn law_which_pixels_have_a_colour(picture: Picture, color: Rgba, i: int)
    requires
        0 <= i < picture.pixels.len(),
    ensures
        color_mask(picture, color).len() == picture.pixels.len(),
        color_mask(picture, color)[i] <==> {
            let p = picture.pixels[i];
            &&& p.a != 0
            &&& crate::geometry::max_int(p.r - color.r, color.r - p.r) + crate::geometry::max_int(
                p.g - color.g,
                color.g - p.g,
            ) + crate::geometry::max_int(p.b - color.b, color.b - p.b) <= 45
        },
{
}

/// The pixel of a rectangle numbered `i`, row by row, lies no farther than the
/// thickness from one of its sides.
pub open spec fn in_band(rect: Rect, thickness: int, i: int) -> bool {
    let (x, y) = (i % (rect.size.width as int), i / (rect.size.width as int));
    ||| x < thickness
    ||| y < thickness
    ||| rect.size.width - thickness <= x
    ||| rect.size.height - thickness <= y
}

/// The pixel of a rectangle numbered `i`, row by row, is marked.
pub open spec fn is_marked(mask: Seq<bool>, width: int, rect: Rect, i: int) -> bool {
    let (x, y) = (i % (rect.size.width as int), i / (rect.size.width as int));
    mask[(rect.origin.y + y) * width + (rect.origin.x + x)]
}

/// A tally counts the pixels of the band and of what it encloses, and how many
/// of each are marked.
pub proof fn law_a_tally_counts_pixels(
    mask: Seq<bool>,
    width: int,
    rect: Rect,
    thickness: int,
    n: int,
)
    requires
        0 <= n,
    ensures
        ({
            let counts = tally(mask, width, rect, thickness, n);
            &&& counts.band == how_many(n, |i: int| in_band(rect, thickness, i))
            &&& counts.inner == how_many(n, |i: int| !in_band(rect, thickness, i))
            &&& counts.band_set == how_many(
                n,
                |i: int| in_band(rect, thickness, i) && is_marked(mask, width, rect, i),
            )
            &&& counts.inner_set == how_many(
                n,
                |i: int| !in_band(rect, thickness, i) && is_marked(mask, width, rect, i),
            )
        }),
    decreases n,
{
    let band = |i: int| in_band(rect, thickness, i);
    let inner = |i: int| !in_band(rect, thickness, i);
    let band_set = |i: int| in_band(rect, thickness, i) && is_marked(mask, width, rect, i);
    let inner_set = |i: int| !in_band(rect, thickness, i) && is_marked(mask, width, rect, i);
    if n > 0 {
        law_a_tally_counts_pixels(mask, width, rect, thickness, n - 1);
        lemma_one_more(n, band);
        lemma_one_more(n, inner);
        lemma_one_more(n, band_set);
        lemma_one_more(n, inner_set);
        let x = rect.origin.x + (n - 1) % (rect.size.width as int);
        let y = rect.origin.y + (n - 1) / (rect.size.width as int);
        assert(depth(rect, x, y) < thickness <==> in_band(rect, thickness, n - 1));
    } else {
        lemma_none_yet(band);
        lemma_none_yet(inner);
        lemma_none_yet(band_set);
        lemma_none_yet(inner_set);
    }
}

/// What a band encloses lies as far inside every side as the band is thick.
pub proof fn law_what_a_band_encloses(rect: Rect, thickness: int)
    requires
        0 <= thickness,
        2 * thickness < rect.size.width,
        2 * thickness < rect.size.height,
        rect.right_edge() <= i32::MAX,
        rect.bottom_edge() <= i32::MAX,
    ensures
        inset(rect, thickness).origin.x == rect.origin.x + thickness,
        inset(rect, thickness).origin.y == rect.origin.y + thickness,
        inset(rect, thickness).right_edge() == rect.right_edge() - thickness,
        inset(rect, thickness).bottom_edge() == rect.bottom_edge() - thickness,
{
}

/// A band is believed where at least 62 percent of it is marked and at most 35
/// percent of what it encloses, and what it encloses is eight pixels wide and
/// high.
pub proof fn law_which_bands_are_believed(mask: Seq<bool>, width: int, rect: Rect, thickness: int)
    requires
        0 <= thickness,
    ensures
        believable(mask, width, rect, thickness) <==> {
            let counts = whole_tally(mask, width, rect, thickness);
            &&& counts.band > 0
            &&& 100 * counts.band_set >= 62 * counts.band
            &&& 100 * counts.inner_set <= 35 * counts.inner
            &&& rect.size.width - 2 * thickness >= 8
            &&& rect.size.height - 2 * thickness >= 8
        },
{
}

/// The band that is chosen is believed, none that is believed has a higher
/// score, and none thinner has as high a one; without a believed band none is
/// chosen.
pub proof fn law_the_best_band_is_chosen(
    mask: Seq<bool>,
    width: int,
    rect: Rect,
    limit: int,
    other: int,
)
    requires
        1 <= other <= limit,
        believable(mask, width, rect, other),
    ensures
        best_band(mask, width, rect, limit) matches Some(band) && 1 <= band <= limit && believable(
            mask,
            width,
            rect,
            band,
        ) && outline_score(whole_tally(mask, width, rect, other)) <= outline_score(
            whole_tally(mask, width, rect, band),
        ) && (other < band ==> outline_score(whole_tally(mask, width, rect, other))
            < outline_score(whole_tally(mask, width, rect, band))),
    decreases limit,
{
    if other < limit {
        law_the_best_band_is_chosen(mask, width, rect, limit - 1, other);
    } else {
        lemma_band_is_believed(mask, width, rect, limit - 1);
    }
}

proof fn lemma_band_is_believed(mask: Seq<bool>, width: int, rect: Rect, limit: int)
    ensures
        best_band(mask, width, rect, limit) matches Some(band) ==> 1 <= band <= limit && believable(
            mask,
            width,
            rect,
            band,
        ),
    decreases limit,
{
    if limit > 0 {
        lemma_band_is_believed(mask, width, rect, limit - 1);
    }
}

/// A rectangle outlines a window exactly if a band of one to eight pixels is
/// believed; the window is what such a band encloses.
pub proof fn law_an_outline_encloses_its_window(mask: Seq<bool>, width: int, rect: Rect)
    ensures
        outlined(mask, width, rect) is Some <==> exists|thickness: int|
            1 <= thickness <= 8 && #[trigger] believable(mask, width, rect, thickness),
        outlined(mask, width, rect) matches Some(window) ==> exists|thickness: int|
            1 <= thickness <= 8 && #[trigger] believable(mask, width, rect, thickness) && window
                == inset(rect, thickness),
{
    lemma_band_is_believed(mask, width, rect, 8);
    if exists|thickness: int|
        1 <= thickness <= 8 && #[trigger] believable(mask, width, rect, thickness) {
        let t = choose|thickness: int|
            1 <= thickness <= 8 && #[trigger] believable(mask, width, rect, thickness);
        law_the_best_band_is_chosen(mask, width, rect, 8, t);
    }
}

// ---------------------------------------------------------------------------
// Scores
// ---------------------------------------------------------------------------
proof fn lemma_significant(scaled: int, d: int, k: nat)
    requires
        0 < d,
        0 <= scaled,
    ensures
        ({
            let unit = vstd::arithmetic::power2::pow2(k) as int;
            let error = significant(scaled, d, unit) * d - scaled * unit;
            ||| -d <= 2 * error <= d
            ||| -(scaled * unit) <= 0x20_0000_0000_0000 * error <= scaled * unit
        }),
    decreases k,
{
    let unit = vstd::arithmetic::power2::pow2(k) as int;
    vstd::arithmetic::power2::lemma_pow2_pos(k);
    law_a_quotient_is_rounded_to_its_nearest(scaled, d);
    let q = nearest_even(scaled, d);
    if unit <= 1 {
        assert(unit == 1);
        assert(scaled * unit == scaled && q * unit == q) by (nonlinear_arith)
            requires
                unit == 1,
        ;
    } else if scaled >= d * 0x10_0000_0000_0000 {
        let off = q * d - scaled;
        assert(q * unit * d - scaled * unit == off * unit) by (nonlinear_arith)
            requires
                off == q * d - scaled,
        ;
        assert(-(scaled * unit) <= 0x20_0000_0000_0000 * (off * unit) <= scaled * unit)
            by (nonlinear_arith)
            requires
                -d <= 2 * off <= d,
                scaled >= d * 0x10_0000_0000_0000,
                unit > 0,
        ;
    } else {
        if k == 0 {
            vstd::arithmetic::power2::lemma2_to64();
        }
        vstd::arithmetic::power2::lemma_pow2_unfold(k);
        let half = vstd::arithmetic::power2::pow2((k - 1) as nat) as int;
        assert(unit / 2 == half);
        lemma_significant(scaled * 2, d, (k - 1) as nat);
        assert(scaled * 2 * half == scaled * unit) by (nonlinear_arith)
            requires
                unit == 2 * half,
        ;
    }
}

/// A share is the quotient in parts of `2^75`, rounded to 53 digits: it misses
/// by no more than half of the last digit.
pub proof fn law_a_share_is_the_quotient(n: int, d: int)
    requires
        0 < d,
        0 <= n,
    ensures
        n == 0 ==> share(n, d) == 0,
        ({
            let exact = n * 0x8_0000_0000_0000_0000_00;
            let error = share(n, d) * d - exact;
            ||| -d <= 2 * error <= d
            ||| -exact <= 0x20_0000_0000_0000 * error <= exact
        }),
{
    vstd::arithmetic::power2::lemma2_to64();
    lemma_significant(n * 0x10_0000_0000_0000, d, 23);
}

/// The score of an outline is twice the share of its band that is marked, less
/// the share of what it encloses, rounded to 53 digits; it is never below
/// nought.
pub proof fn law_the_score_of_an_outline(counts: Tally)
    ensures
        ({
            let marked = 2 * share(counts.band_set, counts.band) - if counts.inner > 0 {
                share(counts.inner_set, counts.inner)
            } else {
                0
            };
            &&& marked <= 0 ==> outline_score(counts) == 0
            &&& marked > 0 ==> -0x40_0000 <= outline_score(counts) - marked <= 0x40_0000
            &&& 0 < marked < 0x8_0000_0000_0000_0000_00 ==> -0x20_0000 <= outline_score(counts)
                - marked <= 0x20_0000
        }),
{
    let marked = 2 * share(counts.band_set, counts.band) - if counts.inner > 0 {
        share(counts.inner_set, counts.inner)
    } else {
        0
    };
    law_a_quotient_is_rounded_to_its_nearest(marked, 0x80_0000);
    law_a_quotient_is_rounded_to_its_nearest(marked, 0x40_0000);
}

// ---------------------------------------------------------------------------
// Windows
// ---------------------------------------------------------------------------
proof fn lemma_outlined_regions(picture: Picture, mask: Seq<bool>, regions: Seq<Rect>, n: int)
    requires
        0 <= n <= regions.len(),
    ensures
        forall|rect: Rect| #[trigger]
            outlined_regions(picture, mask, regions, n).contains(rect) <==> exists|i: int|
                0 <= i < n && large_enough(picture, #[trigger] regions[i]) && outlined(
                    mask,
                    picture.width,
                    regions[i],
                ) == Some(rect),
    decreases n,
{
    let all = outlined_regions(picture, mask, regions, n);
    if n > 0 {
        lemma_outlined_regions(picture, mask, regions, n - 1);
        let before = outlined_regions(picture, mask, regions, n - 1);
        let own = regions[n - 1];
        assert forall|rect: Rect| #[trigger] all.contains(rect) <==> exists|i: int|
            0 <= i < n && large_enough(picture, #[trigger] regions[i]) && outlined(
                mask,
                picture.width,
                regions[i],
            ) == Some(rect) by {
            if all.contains(rect) {
                let k = choose|k: int| 0 <= k < all.len() && all[k] == rect;
                if k < before.len() {
                    assert(before[k] == rect);
                    assert(before.contains(rect));
                } else {
                    assert(large_enough(picture, regions[n - 1]));
                }
            }
            if exists|i: int|
                0 <= i < n && large_enough(picture, #[trigger] regions[i]) && outlined(
                    mask,
                    picture.width,
                    regions[i],
                ) == Some(rect) {
                let i = choose|i: int|
                    0 <= i < n && large_enough(picture, #[trigger] regions[i]) && outlined(
                        mask,
                        picture.width,
                        regions[i],
                    ) == Some(rect);
                if i < n - 1 {
                    assert(before.contains(rect));
                    let k = choose|k: int| 0 <= k < before.len() && before[k] == rect;
                    assert(all[k] == rect);
                } else {
                    assert(all[all.len() - 1] == rect);
                }
            }
        }
    } else {
        assert forall|rect: Rect| !(#[trigger] all.contains(rect)) by {}
    }
}

/// The boxes of the connected regions of a colour.
pub open spec fn colored_boxes(picture: Picture, color: Rgba) -> Seq<Rect> {
    component_boxes(
        color_mask(picture, color),
        picture.width,
        color_mask(picture, color).len() as int,
    )
}

/// A window is outlined in a colour exactly if a connected region of that
/// colour, at least 15 percent as wide and as high as the picture, outlines it.
pub proof fn law_the_windows_outlined_in_a_colour(picture: Picture, color: Rgba)
    requires
        picture.width >= 1,
        picture.height >= 1,
    ensures
        forall|rect: Rect| #[trigger]
            outlines_in_color(picture, color).contains(rect) <==> exists|i: int|
                {
                    &&& 0 <= i < colored_boxes(picture, color).len()
                    &&& 100 * ((#[trigger] colored_boxes(picture, color)[i]).size.width + 1) > 15
                        * picture.width
                    &&& 100 * (colored_boxes(picture, color)[i].size.height + 1) > 15
                        * picture.height
                    &&& outlined(
                        color_mask(picture, color),
                        picture.width,
                        colored_boxes(picture, color)[i],
                    ) == Some(rect)
                },
{
    let mask = color_mask(picture, color);
    let boxes = colored_boxes(picture, color);
    lemma_outlined_regions(picture, mask, boxes, boxes.len() as int);
    assert forall|r: Rect| #[trigger] large_enough(picture, r) <==> 100 * (r.size.width + 1) > 15
        * picture.width && 100 * (r.size.height + 1) > 15 * picture.height by {}
    assert forall|rect: Rect| #[trigger]
        outlines_in_color(picture, color).contains(rect) <==> exists|i: int|
            0 <= i < boxes.len() && 100 * ((#[trigger] boxes[i]).size.width + 1) > 15
                * picture.width && 100 * (boxes[i].size.height + 1) > 15 * picture.height
                && outlined(mask, picture.width, boxes[i]) == Some(rect) by {
        if exists|i: int|
            0 <= i < boxes.len() && 100 * ((#[trigger] boxes[i]).size.width + 1) > 15
                * picture.width && 100 * (boxes[i].size.height + 1) > 15 * picture.height
                && outlined(mask, picture.width, boxes[i]) == Some(rect) {
            let i = choose|i: int|
                0 <= i < boxes.len() && 100 * ((#[trigger] boxes[i]).size.width + 1) > 15
                    * picture.width && 100 * (boxes[i].size.height + 1) > 15 * picture.height
                    && outlined(mask, picture.width, boxes[i]) == Some(rect);
            assert(large_enough(picture, boxes[i]));
        }
    }
}

proof fn lemma_outlines_in_colors(picture: Picture, colors: Seq<Rgba>, n: int)
    requires
        0 <= n <= colors.len(),
    ensures
        forall|rect: Rect| #[trigger]
            outlines_in_colors(picture, colors, n).contains(rect) <==> exists|i: int|
                0 <= i < n && outlines_in_color(picture, #[trigger] colors[i]).contains(rect),
    decreases n,
{
    let all = outlines_in_colors(picture, colors, n);
    if n > 0 {
        lemma_outlines_in_colors(picture, colors, n - 1);
        let before = outlines_in_colors(picture, colors, n - 1);
        let own = outlines_in_color(picture, colors[n - 1]);
        assert forall|rect: Rect| #[trigger] all.contains(rect) <==> exists|i: int|
            0 <= i < n && outlines_in_color(picture, #[trigger] colors[i]).contains(rect) by {
            if all.contains(rect) {
                let k = choose|k: int| 0 <= k < all.len() && all[k] == rect;
                if k < before.len() {
                    assert(before[k] == rect);
                    assert(before.contains(rect));
                } else {
                    assert(own[k - before.len()] == rect);
                    assert(outlines_in_color(picture, colors[n - 1]).contains(rect));
                }
            }
            if exists|i: int|
                0 <= i < n && outlines_in_color(picture, #[trigger] colors[i]).contains(rect) {
                let i = choose|i: int|
                    0 <= i < n && outlines_in_color(picture, #[trigger] colors[i]).contains(rect);
                if i < n - 1 {
                    assert(before.contains(rect));
                    let k = choose|k: int| 0 <= k < before.len() && before[k] == rect;
                    assert(all[k] == rect);
                } else {
                    let k = choose|k: int| 0 <= k < own.len() && own[k] == rect;
                    assert(all[before.len() + k] == rect);
                }
            }
        }
    } else {
        assert forall|rect: Rect| !(#[trigger] all.contains(rect)) by {}
    }
}

/// The outlines of a picture are those in one of its eight best accent
/// colours.
pub proof fn law_the_outlines_of_a_picture(picture: Picture)
    ensures
        accent_colors(all_edge_colors(picture), 8).len() <= 8,
        forall|rect: Rect| #[trigger]
            outlines(picture).contains(rect) <==> exists|i: int|
                0 <= i < accent_colors(all_edge_colors(picture), 8).len() && outlines_in_color(
                    picture,
                    #[trigger] accent_colors(all_edge_colors(picture), 8)[i],
                ).contains(rect),
{
    let colors = accent_colors(all_edge_colors(picture), 8);
    lemma_outlines_in_colors(picture, colors, colors.len() as int);
}

} // verus!
