//! The pixels compositors hand over, as frames.
//!
//! They arrive as four bytes per pixel, in the order blue, green, red, alpha,
//! in rows that may be padded.  What differs is what the fourth byte
//! means, and whether the rows come bottom up.

use vstd::prelude::*;

use crate::error::{ErrorView, Result, VshotError};
use crate::geometry::{Point, Rect, Size};
use crate::model::Frame;

verus! {

/// What happens to the four bytes of a pixel besides putting them in order.
#[derive(Clone, Copy, Debug, PartialEq, Eq, Structural)]
pub enum Conversion {
    /// Nothing: the bytes are red, green, blue and alpha already.
    Same,
    /// The alpha is the pixel's own.
    Keep,
    /// The fourth byte says nothing: the pixel is opaque.
    Opaque,
    /// The colours are premultiplied; the alpha is kept.
    UnpremultiplyKeep,
    /// The colours are premultiplied; the pixel becomes opaque.
    UnpremultiplyFlatten,
}

/// Undoes `channel * alpha / 255`, rounding to the nearest colour; more than
/// the alpha allows is cut off.
pub open spec fn unpremultiplied(channel: u8, alpha: u8) -> u8 {
    if alpha == 0 {
        0
    } else {
        let restored = (channel * 255 + alpha as int / 2) / (alpha as int);
        if restored > 255 {
            255
        } else {
            restored as u8
        }
    }
}

/// The red, green, blue and alpha that the four bytes of a pixel stand for.
pub open spec fn converted(conversion: Conversion, raw: Seq<u8>) -> Seq<u8> {
    match conversion {
        Conversion::Same => seq![raw[0], raw[1], raw[2], raw[3]],
        Conversion::Keep => seq![raw[2], raw[1], raw[0], raw[3]],
        Conversion::Opaque => seq![raw[2], raw[1], raw[0], 255],
        Conversion::UnpremultiplyKeep => seq![
            unpremultiplied(raw[2], raw[3]),
            unpremultiplied(raw[1], raw[3]),
            unpremultiplied(raw[0], raw[3]),
            raw[3],
        ],
        Conversion::UnpremultiplyFlatten => seq![
            unpremultiplied(raw[2], raw[3]),
            unpremultiplied(raw[1], raw[3]),
            unpremultiplied(raw[0], raw[3]),
            255,
        ],
    }
}

/// A colour whose alpha took part of it away, restored; a pixel nothing was
/// drawn into has no colour to restore.
pub fn unpremultiply(channel: u8, alpha: u8) -> (restored: u8)
    ensures
        restored == unpremultiplied(channel, alpha),
{
    if alpha == 0 {
        return 0;
    }
    let scaled: u32 = channel as u32 * 255 + alpha as u32 / 2;
    let restored: u32 = scaled / alpha as u32;
    if restored > 255 {
        255
    } else {
        restored as u8
    }
}

fn convert_pixel(
    conversion: Conversion,
    blue: u8,
    green: u8,
    red: u8,
    fourth: u8,
) -> (rgba: [u8; 4])
    ensures
        rgba@ == converted(conversion, seq![blue, green, red, fourth]),
{
    let rgba: [u8; 4] = match conversion {
        Conversion::Same => [blue, green, red, fourth],
        Conversion::Keep => [red, green, blue, fourth],
        Conversion::Opaque => [red, green, blue, 255],
        Conversion::UnpremultiplyKeep => [
            unpremultiply(red, fourth),
            unpremultiply(green, fourth),
            unpremultiply(blue, fourth),
            fourth,
        ],
        Conversion::UnpremultiplyFlatten => [
            unpremultiply(red, fourth),
            unpremultiply(green, fourth),
            unpremultiply(blue, fourth),
            255,
        ],
    };
    assert(rgba@ =~= converted(conversion, seq![blue, green, red, fourth]));
    rgba
}

/// How the rows of a buffer lie in its bytes.
#[derive(Clone, Copy, Debug, PartialEq, Eq, Structural)]
pub struct Layout {
    /// Where the first row starts.
    pub offset: usize,
    /// From the start of one row to the start of the next.
    pub stride: usize,
    pub width: u32,
    pub height: u32,
    /// Whether the last row of the buffer is the top one.
    pub flipped: bool,
}

impl Layout {
    /// The row of the buffer that row `y` of the picture comes from.
    pub open spec fn source_row(self, y: int) -> int {
        if self.flipped {
            self.height - 1 - y
        } else {
            y
        }
    }

    /// The four bytes of the pixel at `(x, y)` of the picture.
    pub open spec fn raw(self, bytes: Seq<u8>, x: int, y: int) -> Seq<u8> {
        let start = self.offset + self.source_row(y) * self.stride + x * 4;
        seq![bytes[start], bytes[start + 1], bytes[start + 2], bytes[start + 3]]
    }

    /// The bytes from the start of the buffer to the end of its last pixel.
    pub open spec fn reach(self) -> int {
        if self.height == 0 {
            self.offset as int
        } else {
            self.offset + (self.height - 1) * self.stride + self.width * 4
        }
    }

    /// Whether all of the pixels are there.
    pub open spec fn fits(self, length: int) -> bool {
        &&& self.reach() <= length
        &&& self.width * self.height * 4 <= usize::MAX
    }
}

/// Whether a frame shows the pixels of a buffer, converted.
pub open spec fn shows(
    frame: Frame,
    bytes: Seq<u8>,
    layout: Layout,
    conversion: Conversion,
) -> bool {
    &&& frame.wf()
    &&& frame.dim() == (Size { width: layout.width, height: layout.height })
    &&& forall|x: int, y: int|
        0 <= x < layout.width && 0 <= y < layout.height ==> #[trigger] frame.rgba(x, y)
            == converted(conversion, layout.raw(bytes, x, y))
}

/// The byte of the picture at `k`.
spec fn picture_byte(bytes: Seq<u8>, layout: Layout, conversion: Conversion, k: int) -> u8 {
    let pixel = k / 4;
    converted(
        conversion,
        layout.raw(bytes, pixel % (layout.width as int), pixel / (layout.width as int)),
    )[k % 4]
}

proof fn lemma_picture_byte(bytes: Seq<u8>, layout: Layout, conversion: Conversion, x: int, y: int, c: int)
    requires
        0 <= x < layout.width,
        0 <= y,
        0 <= c < 4,
    ensures
        picture_byte(bytes, layout, conversion, (y * layout.width + x) * 4 + c) == converted(
            conversion,
            layout.raw(bytes, x, y),
        )[c],
{
    let w = layout.width as int;
    let pixel = y * w + x;
    assert(pixel % w == x && pixel / w == y) by (nonlinear_arith)
        requires
            pixel == y * w + x,
            0 <= x < w,
    ;
    assert((pixel * 4 + c) / 4 == pixel && (pixel * 4 + c) % 4 == c);
}

proof fn lemma_pixel_inside(layout: Layout, length: int, x: int, y: int)
    requires
        layout.fits(length),
        0 <= x < layout.width,
        0 <= y < layout.height,
    ensures
        0 <= layout.source_row(y) < layout.height,
        0 <= layout.source_row(y) * layout.stride,
        layout.offset + layout.source_row(y) * layout.stride + x * 4 + 3 < length,
{
    let row = layout.source_row(y);
    let last = layout.height - 1;
    let stride = layout.stride as int;
    assert(0 <= row * stride <= last * stride) by (nonlinear_arith)
        requires
            0 <= row <= last,
            0 <= stride,
    ;
}

/// Converts every pixel of a buffer.
fn convert_rows(bytes: &[u8], layout: Layout, conversion: Conversion) -> (pixels: Vec<u8>)
    requires
        layout.fits(bytes@.len() as int),
    ensures
        pixels@.len() == layout.width * layout.height * 4,
        forall|k: int|
            0 <= k < pixels@.len() ==> #[trigger] pixels@[k] == picture_byte(
                bytes@,
                layout,
                conversion,
                k,
            ),
{
    let length: usize = bytes.len();
    let mut pixels: Vec<u8> = Vec::new();
    let mut y: u32 = 0;
    while y < layout.height
        invariant
            length == bytes@.len(),
            layout.fits(bytes@.len() as int),
            y <= layout.height,
            pixels@.len() == y * layout.width * 4,
            forall|k: int|
                0 <= k < pixels@.len() ==> #[trigger] pixels@[k] == picture_byte(
                    bytes@,
                    layout,
                    conversion,
                    k,
                ),
        decreases layout.height - y,
    {
        let row: u32 = if layout.flipped {
            layout.height - 1 - y
        } else {
            y
        };
        let mut x: u32 = 0;
        while x < layout.width
            invariant
                length == bytes@.len(),
                layout.fits(bytes@.len() as int),
                y < layout.height,
                x <= layout.width,
                row == layout.source_row(y as int),
                pixels@.len() == (y * layout.width + x) * 4,
                forall|k: int|
                    0 <= k < pixels@.len() ==> #[trigger] pixels@[k] == picture_byte(
                        bytes@,
                        layout,
                        conversion,
                        k,
                    ),
            decreases layout.width - x,
        {
            proof {
                lemma_pixel_inside(layout, bytes@.len() as int, x as int, y as int);
            }
            let start: usize = layout.offset + row as usize * layout.stride + x as usize * 4;
            let rgba = convert_pixel(
                conversion,
                bytes[start],
                bytes[start + 1],
                bytes[start + 2],
                bytes[start + 3],
            );
            let ghost before = pixels@;
            pixels.push(rgba[0]);
            pixels.push(rgba[1]);
            pixels.push(rgba[2]);
            pixels.push(rgba[3]);
            proof {
                let base = (y * layout.width + x) * 4;
                assert(layout.raw(bytes@, x as int, y as int) == seq![
                    bytes@[start as int],
                    bytes@[start + 1],
                    bytes@[start + 2],
                    bytes@[start + 3],
                ]);
                lemma_picture_byte(bytes@, layout, conversion, x as int, y as int, 0);
                lemma_picture_byte(bytes@, layout, conversion, x as int, y as int, 1);
                lemma_picture_byte(bytes@, layout, conversion, x as int, y as int, 2);
                lemma_picture_byte(bytes@, layout, conversion, x as int, y as int, 3);
                assert forall|k: int| 0 <= k < pixels@.len() implies #[trigger] pixels@[k]
                    == picture_byte(bytes@, layout, conversion, k) by {
                    if k < before.len() {
                        assert(pixels@[k] == before[k]);
                    } else {
                        assert(k == base || k == base + 1 || k == base + 2 || k == base + 3);
                    }
                }
            }
            x = x + 1;
        }
        proof {
            let (w, h) = (layout.width as int, y as int);
            assert((h * w + w) * 4 == (h + 1) * w * 4) by (nonlinear_arith);
        }
        y = y + 1;
    }
    proof {
        let (w, h) = (layout.width as int, layout.height as int);
        assert(h * w * 4 == w * h * 4) by (nonlinear_arith);
    }
    pixels
}

/// Whether a picture of this width, row by row without padding, shows the
/// pixels of a buffer, converted.
pub open spec fn pictures(
    pixels: Seq<u8>,
    bytes: Seq<u8>,
    layout: Layout,
    conversion: Conversion,
) -> bool {
    &&& pixels.len() == layout.width * layout.height * 4
    &&& forall|x: int, y: int, c: int|
        0 <= x < layout.width && 0 <= y < layout.height && 0 <= c < 4
            ==> #[trigger] pixels[(y * layout.width + x) * 4 + c] == converted(
            conversion,
            layout.raw(bytes, x, y),
        )[c]
}

/// The pixels a buffer shows, row by row.
pub fn read_pixels(bytes: &[u8], layout: Layout, conversion: Conversion) -> (pixels: Vec<u8>)
    requires
        layout.fits(bytes@.len() as int),
    ensures
        pictures(pixels@, bytes@, layout, conversion),
{
    let pixels = convert_rows(bytes, layout, conversion);
    proof {
        assert forall|x: int, y: int, c: int|
            0 <= x < layout.width && 0 <= y < layout.height && 0 <= c < 4 implies #[trigger] pixels@[(
        y * layout.width + x) * 4 + c] == converted(conversion, layout.raw(bytes@, x, y))[c] by {
            let (w, h) = (layout.width as int, layout.height as int);
            assert(0 <= (y * w + x) * 4 && (y * w + x) * 4 + 3 < w * h * 4) by (nonlinear_arith)
                requires
                    0 <= x < w,
                    0 <= y < h,
            ;
            lemma_picture_byte(bytes@, layout, conversion, x, y, c);
        }
    }
    pixels
}

/// The frame a buffer shows.
pub fn read_frame(bytes: &[u8], layout: Layout, conversion: Conversion) -> (frame: Result<Frame>)
    requires
        layout.fits(bytes@.len() as int),
    ensures
        frame matches Ok(frame) && shows(frame, bytes@, layout, conversion),
{
    let size = Size { width: layout.width, height: layout.height };
    let pixels = convert_rows(bytes, layout, conversion);
    let frame = Frame::new(size, pixels);
    proof {
        let shown = frame->Ok_0;
        assert forall|x: int, y: int|
            0 <= x < layout.width && 0 <= y < layout.height implies #[trigger] shown.rgba(x, y)
            == converted(conversion, layout.raw(bytes@, x, y)) by {
            let (w, h) = (layout.width as int, layout.height as int);
            assert(0 <= (y * w + x) * 4 && (y * w + x) * 4 + 3 < w * h * 4) by (nonlinear_arith)
                requires
                    0 <= x < w,
                    0 <= y < h,
            ;
            lemma_picture_byte(bytes@, layout, conversion, x, y, 0);
            lemma_picture_byte(bytes@, layout, conversion, x, y, 1);
            lemma_picture_byte(bytes@, layout, conversion, x, y, 2);
            lemma_picture_byte(bytes@, layout, conversion, x, y, 3);
            assert(shown.rgba(x, y) =~= converted(conversion, layout.raw(bytes@, x, y)));
        }
    }
    frame
}

/// The part of a rectangle that lies on a frame.
pub open spec fn on_frame(rect: Rect, frame: Size) -> Option<Rect> {
    rect.common(Rect { origin: Point { x: 0, y: 0 }, size: frame })
}

pub const OUTSIDE_THE_FRAME: &'static str = "the rectangle lies outside the captured frame";

impl Frame {
    /// Cuts out the part of the rectangle that lies on the frame; refused when
    /// none does.
    pub fn crop(&self, rect: Rect) -> (part: Result<Frame>)
        ensures
            match part {
                Ok(part) => {
                    &&& on_frame(rect, self.dim()) matches Some(inside)
                    &&& part.wf()
                    &&& part.dim() == inside.size
                    &&& forall|x: int, y: int|
                        0 <= x < inside.size.width && 0 <= y < inside.size.height
                            ==> #[trigger] part.rgba(x, y) == self.rgba(
                            inside.origin.x + x,
                            inside.origin.y + y,
                        )
                },
                Err(error) => on_frame(rect, self.dim()) is None && error@
                    == ErrorView::InvalidGeometry(OUTSIDE_THE_FRAME@),
            },
    {
        let size = self.size();
        let pixels = self.pixels();
        let length: usize = pixels.len();
        let bounds = Rect::new(0, 0, size.width, size.height);
        let inside = match rect.clamp_to(bounds) {
            Some(inside) => inside,
            None => {
                return Err(
                    VshotError::InvalidGeometry(OUTSIDE_THE_FRAME.to_owned()),
                );
            },
        };
        let ghost (ox, oy) = (inside.origin.x as int, inside.origin.y as int);
        let ghost (w, h) = (size.width as int, size.height as int);
        proof {
            let (iw, ih) = (inside.size.width as int, inside.size.height as int);
            assert(0 <= oy * w && 0 <= w * 4 && (oy * w + ox) * 4 + (ih - 1) * (w * 4) + iw * 4 <= w
                * h * 4) by (nonlinear_arith)
                requires
                    0 <= oy,
                    oy + ih <= h,
                    0 <= ox,
                    ox + iw <= w,
                    0 < ih,
                    0 < iw,
            ;
            assert(0 <= (ih - 1) * (w * 4)) by (nonlinear_arith)
                requires
                    0 < ih,
                    0 <= w,
            ;
            assert(iw * ih * 4 <= w * h * 4) by (nonlinear_arith)
                requires
                    0 < iw <= w,
                    0 < ih <= h,
            ;
            assert(w * 4 <= w * h * 4) by (nonlinear_arith)
                requires
                    0 <= w,
                    1 <= h,
            ;
        }
        let stride: usize = size.width as usize * 4;
        let offset: usize = (inside.origin.y as usize * size.width as usize
            + inside.origin.x as usize) * 4;
        let layout = Layout {
            offset,
            stride,
            width: inside.size.width,
            height: inside.size.height,
            flipped: false,
        };
        let part = read_frame(pixels, layout, Conversion::Same);
        proof {
            let cut = part->Ok_0;
            assert forall|x: int, y: int|
                0 <= x < inside.size.width && 0 <= y < inside.size.height implies #[trigger] cut.rgba(
                x,
                y,
            ) == self.rgba(ox + x, oy + y) by {
                assert(offset + y * stride + x * 4 == ((oy + y) * w + (ox + x)) * 4)
                    by (nonlinear_arith)
                    requires
                        offset == (oy * w + ox) * 4,
                        stride == w * 4,
                ;
                assert(cut.rgba(x, y) =~= self.rgba(ox + x, oy + y));
            }
        }
        part
    }
}

// ---------------------------------------------------------------------------
// Laws
// ---------------------------------------------------------------------------
/// An opaque colour comes through untouched.
pub proof fn law_an_opaque_colour_is_untouched(channel: u8)
    ensures
        unpremultiplied(channel, 255) == channel,
{
}

/// What is restored, multiplied with the alpha again and rounded, is what
/// arrived.
pub proof fn law_premultiplying_again_gives_back_what_arrived(channel: u8, alpha: u8)
    requires
        0 < alpha,
        channel <= alpha,
    ensures
        (2 * unpremultiplied(channel, alpha) * alpha + 255) / 510 == channel,
{
    let (c, a) = (channel as int, alpha as int);
    let scaled = c * 255 + a / 2;
    let u = scaled / a;
    assert(a * u <= scaled < a * u + a) by (nonlinear_arith)
        requires
            u == scaled / a,
            a > 0,
    ;
    assert(u <= 255) by (nonlinear_arith)
        requires
            a * u <= c * 255 + a / 2,
            c <= a,
            a > 0,
    ;
    assert(2 * u * a == 2 * (a * u)) by (nonlinear_arith);
}

/// The padding behind the pixels of a row never reaches the picture: two
/// buffers with the same pixels give the same frame.
pub proof fn law_padding_is_never_read(
    a: Frame,
    b: Frame,
    first: Seq<u8>,
    second: Seq<u8>,
    layout: Layout,
    conversion: Conversion,
    x: int,
    y: int,
)
    requires
        shows(a, first, layout, conversion),
        shows(b, second, layout, conversion),
        forall|x: int, y: int|
            0 <= x < layout.width && 0 <= y < layout.height ==> #[trigger] layout.raw(first, x, y)
                == layout.raw(second, x, y),
        0 <= x < layout.width,
        0 <= y < layout.height,
    ensures
        a.rgba(x, y) == b.rgba(x, y),
{
    assert(layout.raw(first, x, y) == layout.raw(second, x, y));
}

/// Every pixel of a frame comes from its own four bytes: the row of the same
/// number, counted from the end where the buffer is upside down, and four bytes
/// to a pixel.  Where the order is changed, the third byte is the red one, the
/// second the green one and the first the blue one.
pub proof fn law_every_pixel_keeps_its_place(
    frame: Frame,
    bytes: Seq<u8>,
    layout: Layout,
    conversion: Conversion,
    x: int,
    y: int,
)
    requires
        shows(frame, bytes, layout, conversion),
        0 <= x < layout.width,
        0 <= y < layout.height,
    ensures
        frame.dim().width == layout.width,
        frame.dim().height == layout.height,
        ({
            let row = if layout.flipped {
                layout.height - 1 - y
            } else {
                y
            };
            let at = layout.offset + row * layout.stride + 4 * x;
            let rgba = frame.rgba(x, y);
            match conversion {
                Conversion::Same => rgba == seq![
                    bytes[at],
                    bytes[at + 1],
                    bytes[at + 2],
                    bytes[at + 3],
                ],
                Conversion::Keep => rgba == seq![
                    bytes[at + 2],
                    bytes[at + 1],
                    bytes[at],
                    bytes[at + 3],
                ],
                Conversion::Opaque => rgba == seq![bytes[at + 2], bytes[at + 1], bytes[at], 255],
                Conversion::UnpremultiplyKeep => {
                    &&& restored_from(rgba[0], bytes[at + 2], bytes[at + 3])
                    &&& restored_from(rgba[1], bytes[at + 1], bytes[at + 3])
                    &&& restored_from(rgba[2], bytes[at], bytes[at + 3])
                    &&& rgba[3] == bytes[at + 3]
                },
                Conversion::UnpremultiplyFlatten => {
                    &&& restored_from(rgba[0], bytes[at + 2], bytes[at + 3])
                    &&& restored_from(rgba[1], bytes[at + 1], bytes[at + 3])
                    &&& restored_from(rgba[2], bytes[at], bytes[at + 3])
                    &&& rgba[3] == 255
                },
            }
        }),
{
    let raw = layout.raw(bytes, x, y);
    assert(frame.rgba(x, y) == converted(conversion, raw));
    lemma_restored(raw[2], raw[3]);
    lemma_restored(raw[1], raw[3]);
    lemma_restored(raw[0], raw[3]);
}

/// The colour is the one nearest to what the alpha took part of: nought where
/// nothing was drawn, the brightest where more is left than the alpha allows.
pub open spec fn restored_from(colour: u8, channel: u8, alpha: u8) -> bool {
    &&& alpha == 0 ==> colour == 0
    &&& 0 < alpha < channel ==> colour == 255
    &&& 0 < alpha && channel <= alpha ==> -(alpha as int) <= 2 * (colour * alpha - channel * 255)
        <= alpha
}

proof fn lemma_restored(channel: u8, alpha: u8)
    ensures
        restored_from(unpremultiplied(channel, alpha), channel, alpha),
{
    if alpha > 0 {
        let (c, a) = (channel as int, alpha as int);
        let scaled = c * 255 + a / 2;
        let u = scaled / a;
        assert(a * u <= scaled < a * u + a) by (nonlinear_arith)
            requires
                u == scaled / a,
                a > 0,
        ;
        assert(u * a == a * u) by (nonlinear_arith);
        if c <= a {
            assert(u <= 255) by (nonlinear_arith)
                requires
                    a * u <= c * 255 + a / 2,
                    c <= a,
                    a > 0,
            ;
        } else {
            assert(u >= 255) by (nonlinear_arith)
                requires
                    c * 255 + a / 2 < a * u + a,
                    c >= a + 1,
                    a > 0,
            ;
        }
    }
}

/// A rectangle on a frame covers exactly the pixels that the rectangle and the
/// frame both have.
pub proof fn law_a_cut_covers_what_lies_on_the_frame(rect: Rect, frame: Size, x: int, y: int)
    ensures
        (on_frame(rect, frame) matches Some(inside) && inside.covers(x, y)) <==> rect.covers(x, y)
            && 0 <= x < frame.width && 0 <= y < frame.height,
{
}

} // verus!
