//! Points, sizes and rectangles in whole pixels.
//!
//! A rectangle covers the half-open area from its left and top edge up to, and
//! not including, its right and bottom edge.

use vstd::prelude::*;

use crate::error::{Result, VshotError};
use crate::text::{
    concat3, cut_once, decimal_text, decimal_value, is_space, law_a_written_number_is_read_back,
    law_two_words_are_told_apart, law_what_is_joined_is_cut_again, lemma_decimal_text_is_solid,
    parse_i32, parse_u32, split_once, split_whitespace, texts, within_bounds, words,
};

verus! {

/// A position; the unit (logical or device pixels) is the caller's.
#[derive(Clone, Copy, Debug, PartialEq, Eq, Structural)]
pub struct Point {
    pub x: i32,
    pub y: i32,
}

/// A width and a height.
#[derive(Clone, Copy, Debug, PartialEq, Eq, Structural)]
pub struct Size {
    pub width: u32,
    pub height: u32,
}

/// An axis-aligned rectangle.
#[derive(Clone, Copy, Debug, PartialEq, Eq, Structural)]
pub struct Rect {
    pub origin: Point,
    pub size: Size,
}

impl Point {
    pub fn new(x: i32, y: i32) -> (point: Self)
        ensures
            point.x == x,
            point.y == y,
    {
        Point { x, y }
    }
}

impl Size {
    pub fn new(width: u32, height: u32) -> (size: Self)
        ensures
            size.width == width,
            size.height == height,
    {
        Size { width, height }
    }

    /// The number of pixels the size covers.
    pub open spec fn pixels(self) -> nat {
        (self.width * self.height) as nat
    }
}

/// The rectangle with these edges, as long as it is not empty.
pub open spec fn rect_between(left: int, top: int, right: int, bottom: int) -> Option<Rect> {
    if left < right && top < bottom {
        Some(
            Rect {
                origin: Point { x: left as i32, y: top as i32 },
                size: Size { width: (right - left) as u32, height: (bottom - top) as u32 },
            },
        )
    } else {
        None
    }
}

pub open spec fn max_int(a: int, b: int) -> int {
    if a >= b {
        a
    } else {
        b
    }
}

pub open spec fn min_int(a: int, b: int) -> int {
    if a <= b {
        a
    } else {
        b
    }
}

impl Rect {
    /// The first column right of the rectangle, which may lie past what an
    /// `i32` can hold.
    pub open spec fn right_edge(self) -> int {
        self.origin.x + self.size.width
    }

    /// The first row below the rectangle.
    pub open spec fn bottom_edge(self) -> int {
        self.origin.y + self.size.height
    }

    /// Whether the rectangle covers the pixel at `(x, y)`.
    pub open spec fn covers(self, x: int, y: int) -> bool {
        self.origin.x <= x < self.right_edge() && self.origin.y <= y < self.bottom_edge()
    }

    /// Whether `self` lies within `other`, edges included.
    pub open spec fn within(self, other: Rect) -> bool {
        &&& other.origin.x <= self.origin.x
        &&& other.origin.y <= self.origin.y
        &&& self.right_edge() <= other.right_edge()
        &&& self.bottom_edge() <= other.bottom_edge()
    }

    /// The part the two rectangles share, when they share any.
    pub open spec fn common(self, other: Rect) -> Option<Rect> {
        rect_between(
            max_int(self.origin.x as int, other.origin.x as int),
            max_int(self.origin.y as int, other.origin.y as int),
            min_int(self.right_edge(), other.right_edge()),
            min_int(self.bottom_edge(), other.bottom_edge()),
        )
    }

    pub fn new(x: i32, y: i32, width: u32, height: u32) -> (rect: Self)
        ensures
            rect.origin == (Point { x, y }),
            rect.size == (Size { width, height }),
    {
        Rect { origin: Point { x, y }, size: Size { width, height } }
    }

    pub fn left(&self) -> (left: i32)
        ensures
            left == self.origin.x,
    {
        self.origin.x
    }

    pub fn top(&self) -> (top: i32)
        ensures
            top == self.origin.y,
    {
        self.origin.y
    }

    /// The right edge; an error when it does not fit the coordinate type.
    pub fn right(&self) -> (right: Result<i32>)
        ensures
            match right {
                Ok(edge) => edge == self.right_edge(),
                Err(error) => self.right_edge() > i32::MAX && error is InvalidGeometry,
            },
    {
        let edge: i64 = self.origin.x as i64 + self.size.width as i64;
        if edge > i32::MAX as i64 {
            return Err(
                VshotError::InvalidGeometry(
                    "the right edge lies outside the coordinate space".to_owned(),
                ),
            );
        }
        Ok(edge as i32)
    }

    /// The bottom edge; an error when it does not fit the coordinate type.
    pub fn bottom(&self) -> (bottom: Result<i32>)
        ensures
            match bottom {
                Ok(edge) => edge == self.bottom_edge(),
                Err(error) => self.bottom_edge() > i32::MAX && error is InvalidGeometry,
            },
    {
        let edge: i64 = self.origin.y as i64 + self.size.height as i64;
        if edge > i32::MAX as i64 {
            return Err(
                VshotError::InvalidGeometry(
                    "the bottom edge lies outside the coordinate space".to_owned(),
                ),
            );
        }
        Ok(edge as i32)
    }

    /// Whether the rectangle covers no pixel.
    pub fn is_empty(&self) -> (empty: bool)
        ensures
            empty == (self.size.width == 0 || self.size.height == 0),
    {
        self.size.width == 0 || self.size.height == 0
    }

    /// Whether `point` lies inside; the right and bottom edges do not.
    pub fn contains(&self, point: Point) -> (inside: bool)
        ensures
            inside == self.covers(point.x as int, point.y as int),
    {
        let right: i64 = self.origin.x as i64 + self.size.width as i64;
        let bottom: i64 = self.origin.y as i64 + self.size.height as i64;
        self.origin.x <= point.x && (point.x as i64) < right && self.origin.y <= point.y && (
        point.y as i64) < bottom
    }

    /// The area both rectangles cover, `None` when there is none.
    pub fn intersection(&self, other: Rect) -> (shared: Option<Rect>)
        ensures
            shared == self.common(other),
            shared matches Some(rect) ==> {
                &&& rect.right_edge() == min_int(self.right_edge(), other.right_edge())
                &&& rect.bottom_edge() == min_int(self.bottom_edge(), other.bottom_edge())
                &&& rect.size.width > 0
                &&& rect.size.height > 0
            },
    {
        let left: i32 = if self.origin.x >= other.origin.x {
            self.origin.x
        } else {
            other.origin.x
        };
        let top: i32 = if self.origin.y >= other.origin.y {
            self.origin.y
        } else {
            other.origin.y
        };
        let self_right: i64 = self.origin.x as i64 + self.size.width as i64;
        let other_right: i64 = other.origin.x as i64 + other.size.width as i64;
        let self_bottom: i64 = self.origin.y as i64 + self.size.height as i64;
        let other_bottom: i64 = other.origin.y as i64 + other.size.height as i64;
        let right: i64 = if self_right <= other_right {
            self_right
        } else {
            other_right
        };
        let bottom: i64 = if self_bottom <= other_bottom {
            self_bottom
        } else {
            other_bottom
        };
        if (left as i64) < right && (top as i64) < bottom {
            Some(Rect::new(left, top, (right - left as i64) as u32, (bottom - top as i64) as u32))
        } else {
            None
        }
    }

    /// The part of the rectangle that lies inside `bounds`.
    pub fn clamp_to(&self, bounds: Rect) -> (inside: Option<Rect>)
        ensures
            inside == self.common(bounds),
            inside matches Some(rect) ==> {
                &&& rect.within(bounds)
                &&& rect.within(*self)
                &&& rect.size.width > 0
                &&& rect.size.height > 0
            },
    {
        self.intersection(bounds)
    }
}

/// What two rectangles have in common is exactly the pixels both cover.
pub proof fn law_intersection_covers_what_both_cover(a: Rect, b: Rect, x: int, y: int)
    ensures
        (a.common(b) matches Some(rect) && rect.covers(x, y)) <==> a.covers(x, y) && b.covers(
            x,
            y,
        ),
{
}

/// The rectangle a text of the form `x,y WIDTHxHEIGHT` names; it has to cover
/// something.
pub open spec fn named_rect(text: Seq<char>) -> Option<Rect> {
    let parts = words(text);
    if parts.len() != 2 {
        None
    } else {
        match (cut_once(parts[0], ','), cut_once(parts[1], 'x')) {
            (Some((x, y)), Some((width, height))) => {
                let x = within_bounds(decimal_value(x, true), i32::MIN as int, i32::MAX as int);
                let y = within_bounds(decimal_value(y, true), i32::MIN as int, i32::MAX as int);
                let width = within_bounds(decimal_value(width, false), 0, u32::MAX as int);
                let height = within_bounds(decimal_value(height, false), 0, u32::MAX as int);
                match (x, y, width, height) {
                    (Some(x), Some(y), Some(width), Some(height)) => if width > 0 && height > 0 {
                        Some(
                            Rect {
                                origin: Point { x: x as i32, y: y as i32 },
                                size: Size { width: width as u32, height: height as u32 },
                            },
                        )
                    } else {
                        None
                    },
                    _ => None,
                }
            },
            _ => None,
        }
    }
}

/// What a text that names no rectangle is refused with.
pub open spec fn not_a_rect(text: Seq<char>) -> Seq<char> {
    "`"@ + text + "` is not a rectangle of the form `x,y WIDTHxHEIGHT`"@
}

/// Reads a rectangle of the form `x,y WIDTHxHEIGHT`.
pub fn parse_geometry(text: &str) -> (rect: Result<Rect>)
    ensures
        match rect {
            Ok(rect) => named_rect(text@) == Some(rect),
            Err(error) => {
                &&& named_rect(text@) is None
                &&& error matches VshotError::InvalidGeometry(said)
                &&& said@ == not_a_rect(text@)
            },
        },
{
    match read_rect(text) {
        Some(rect) => Ok(rect),
        None => Err(
            VshotError::InvalidGeometry(
                concat3("`", text, "` is not a rectangle of the form `x,y WIDTHxHEIGHT`"),
            ),
        ),
    }
}

fn read_rect(text: &str) -> (rect: Option<Rect>)
    ensures
        rect == named_rect(text@),
{
    let parts = split_whitespace(text);
    assert(texts(parts@) == words(text@));
    if parts.len() != 2 {
        return None;
    }
    assert(texts(parts@)[0] == parts@[0]@ && texts(parts@)[1] == parts@[1]@);
    match (split_once(parts[0].as_str(), ','), split_once(parts[1].as_str(), 'x')) {
        (Some((x, y)), Some((width, height))) => {
            match (
                parse_i32(x.as_str()),
                parse_i32(y.as_str()),
                parse_u32(width.as_str()),
                parse_u32(height.as_str()),
            ) {
                (Some(x), Some(y), Some(width), Some(height)) => if width > 0 && height > 0 {
                    Some(Rect::new(x, y, width, height))
                } else {
                    None
                },
                _ => None,
            }
        },
        _ => None,
    }
}

/// A rectangle that covers something is read back from the text that writes its
/// position and its size.
pub proof fn law_a_written_rectangle_is_read_back(rect: Rect)
    requires
        rect.size.width > 0,
        rect.size.height > 0,
    ensures
        named_rect(
            (decimal_text(rect.origin.x as int).push(',') + decimal_text(rect.origin.y as int)).push(
                ' ',
            ) + (decimal_text(rect.size.width as int).push('x') + decimal_text(
                rect.size.height as int,
            )),
        ) == Some(rect),
{
    let (x, y) = (decimal_text(rect.origin.x as int), decimal_text(rect.origin.y as int));
    let (w, h) = (decimal_text(rect.size.width as int), decimal_text(rect.size.height as int));
    law_a_written_number_is_read_back(rect.origin.x as int);
    law_a_written_number_is_read_back(rect.origin.y as int);
    law_a_written_number_is_read_back(rect.size.width as int);
    law_a_written_number_is_read_back(rect.size.height as int);
    lemma_decimal_text_is_solid(rect.origin.x as int);
    lemma_decimal_text_is_solid(rect.origin.y as int);
    lemma_decimal_text_is_solid(rect.size.width as int);
    lemma_decimal_text_is_solid(rect.size.height as int);
    let place = x.push(',') + y;
    let extent = w.push('x') + h;
    assert forall|i: int| 0 <= i < place.len() implies !is_space(#[trigger] place[i]) by {
        if i < x.len() {
            assert(place[i] == x[i]);
        } else if i > x.len() {
            assert(place[i] == y[i - x.len() - 1]);
        }
    }
    assert forall|i: int| 0 <= i < extent.len() implies !is_space(#[trigger] extent[i]) by {
        if i < w.len() {
            assert(extent[i] == w[i]);
        } else if i > w.len() {
            assert(extent[i] == h[i - w.len() - 1]);
        }
    }
    law_two_words_are_told_apart(place, ' ', extent);
    law_what_is_joined_is_cut_again(x, ',', y);
    law_what_is_joined_is_cut_again(w, 'x', h);
}

/// A rectangle covers as many columns as it is wide and as many rows as it is
/// high, beginning with its origin.
pub proof fn law_a_rectangle_covers_its_pixels(rect: Rect, x: int, y: int)
    ensures
        rect.covers(x, y) <==> 0 <= x - rect.origin.x < rect.size.width && 0 <= y - rect.origin.y
            < rect.size.height,
{
}

/// A rectangle with pixels lies within another exactly if the other covers all
/// of them.
pub proof fn law_within_is_covered(a: Rect, b: Rect)
    requires
        a.size.width > 0,
        a.size.height > 0,
    ensures
        a.within(b) <==> forall|x: int, y: int| #[trigger] a.covers(x, y) ==> b.covers(x, y),
{
    if forall|x: int, y: int| #[trigger] a.covers(x, y) ==> b.covers(x, y) {
        assert(a.covers(a.origin.x as int, a.origin.y as int));
        assert(a.covers(a.right_edge() - 1, a.bottom_edge() - 1));
    }
}

} // verus!
