//! Shared-memory buffers for `wlr-screencopy`, and the pixels they come back
//! with.

use vstd::prelude::*;

use crate::error::{settles, ErrorView, Result, VshotError};
use crate::geometry::Rect;
use crate::model::Frame;
use crate::text::{concat2, decimal_text, format_u64};

use super::raw_pixels::{law_every_pixel_keeps_its_place, read_frame, shows, Conversion, Layout};

verus! {

/// The format of a shared-memory buffer, as far as it can be read here.
#[derive(Clone, Debug, PartialEq, Eq)]
pub enum ShmFormat {
    Argb8888,
    Xrgb8888,
    /// Any other, by the name the protocol gives it.
    Other(String),
}

/// The buffer a compositor asks for.
#[derive(Clone, Debug, PartialEq, Eq)]
pub struct ShmOffer {
    pub format: ShmFormat,
    pub width: u32,
    pub height: u32,
    pub stride: u32,
}

/// The memory such a buffer takes.
#[derive(Clone, Copy, Debug, PartialEq, Eq, Structural)]
pub struct BufferPlan {
    pub bytes: usize,
    /// The same, as the protocol counts it.
    pub pool_size: i32,
    pub stride: usize,
}

fn unsupported(prefix: &str, name: &str) -> (error: VshotError)
    ensures
        error@ == ErrorView::UnsupportedOutput(prefix@ + name@),
{
    VshotError::UnsupportedOutput(concat2(prefix, name))
}

fn protocol(text: &str) -> (error: VshotError)
    ensures
        error@ == ErrorView::WaylandProtocol(text@),
{
    VshotError::WaylandProtocol(text.to_owned())
}

/// What a stride too short for its row is refused with.
pub open spec fn short_stride(stride: u32, width: u32) -> Seq<char> {
    "compositor returned a stride of "@ + decimal_text(stride as int) + " for a "@ + decimal_text(
        width as int,
    ) + "-pixel frame"@
}

/// The memory an offer asks for: the rows with their padding, as long as the
/// format can be read, the padding is not negative, and the size is one the
/// protocol can express.
pub open spec fn planned_buffer(offer: ShmOffer) -> core::result::Result<BufferPlan, ErrorView> {
    match offer.format {
        ShmFormat::Other(name) => Err(
            ErrorView::UnsupportedOutput("wlr-screencopy returned unsupported wl_shm format "@ + name@),
        ),
        _ => if offer.width * 4 > usize::MAX {
            Err(ErrorView::WaylandProtocol("capture stride overflows"@))
        } else if offer.stride < offer.width * 4 {
            Err(ErrorView::WaylandProtocol(short_stride(offer.stride, offer.width)))
        } else if offer.stride * offer.height > usize::MAX {
            Err(ErrorView::WaylandProtocol("capture buffer size overflows"@))
        } else if offer.stride * offer.height > i32::MAX {
            Err(ErrorView::WaylandProtocol("capture buffer exceeds Wayland's signed size limit"@))
        } else {
            Ok(
                BufferPlan {
                    bytes: (offer.stride * offer.height) as usize,
                    pool_size: (offer.stride * offer.height) as i32,
                    stride: offer.stride as usize,
                },
            )
        },
    }
}

/// The memory an offer asks for.
pub fn plan_buffer(offer: &ShmOffer) -> (plan: Result<BufferPlan>)
    ensures
        settles(plan, planned_buffer(*offer)),
{
    if let ShmFormat::Other(name) = &offer.format {
        return Err(
            unsupported("wlr-screencopy returned unsupported wl_shm format ", name.as_str()),
        );
    }
    let stride: usize = offer.stride as usize;
    let height: usize = offer.height as usize;
    let minimum_stride: usize = match (offer.width as usize).checked_mul(4) {
        Some(bytes) => bytes,
        None => {
            return Err(protocol("capture stride overflows"));
        },
    };
    if stride < minimum_stride {
        let mut text = "compositor returned a stride of ".to_owned();
        let (a, b) = (format_u64(offer.stride as u64), format_u64(offer.width as u64));
        text.append(a.as_str());
        text.append(" for a ");
        text.append(b.as_str());
        text.append("-pixel frame");
        return Err(VshotError::WaylandProtocol(text));
    }
    let bytes: usize = match stride.checked_mul(height) {
        Some(bytes) => bytes,
        None => {
            return Err(protocol("capture buffer size overflows"));
        },
    };
    if bytes > i32::MAX as usize {
        return Err(protocol("capture buffer exceeds Wayland's signed size limit"));
    }
    Ok(BufferPlan { bytes, pool_size: bytes as i32, stride })
}

/// The size and stride of a buffer as the protocol takes them, each checked in
/// turn.
pub open spec fn signed_shape(width: u32, height: u32, stride: usize) -> core::result::Result<
    (i32, i32, i32),
    ErrorView,
> {
    if width > i32::MAX {
        Err(ErrorView::WaylandProtocol("capture width is too large"@))
    } else if height > i32::MAX {
        Err(ErrorView::WaylandProtocol("capture height is too large"@))
    } else if stride > i32::MAX {
        Err(ErrorView::WaylandProtocol("capture stride is too large"@))
    } else {
        Ok((width as i32, height as i32, stride as i32))
    }
}

/// The size and stride of a buffer as the protocol takes them.
pub fn buffer_arguments(width: u32, height: u32, stride: usize) -> (shape: Result<(i32, i32, i32)>)
    ensures
        settles(shape, signed_shape(width, height, stride)),
{
    if width > i32::MAX as u32 {
        return Err(protocol("capture width is too large"));
    }
    if height > i32::MAX as u32 {
        return Err(protocol("capture height is too large"));
    }
    if stride > i32::MAX as usize {
        return Err(protocol("capture stride is too large"));
    }
    Ok((width as i32, height as i32, stride as i32))
}

/// What the fourth byte of a pixel means in a format.
pub open spec fn format_conversion(format: ShmFormat) -> Conversion {
    match format {
        ShmFormat::Argb8888 => Conversion::Keep,
        _ => Conversion::Opaque,
    }
}

/// Why a mapped buffer cannot be read, if it cannot.
pub open spec fn unreadable(
    length: int,
    width: u32,
    height: u32,
    stride: usize,
    format: ShmFormat,
) -> Option<ErrorView> {
    match format {
        ShmFormat::Other(name) => Some(ErrorView::UnsupportedOutput("unsupported wl_shm format "@ + name@)),
        _ => if width * 4 > usize::MAX {
            Some(ErrorView::WaylandProtocol("capture stride overflows"@))
        } else if stride < width * 4 {
            Some(ErrorView::WaylandProtocol("capture stride is smaller than the frame width"@))
        } else if stride * height > usize::MAX {
            Some(ErrorView::WaylandProtocol("capture buffer size overflows"@))
        } else if length < stride * height {
            Some(
                ErrorView::WaylandProtocol("capture SHM mapping is smaller than the advertised stride"@),
            )
        } else {
            None
        },
    }
}

/// Reads a mapped buffer: blue, green, red and a fourth byte become red,
/// green, blue and alpha, the padding behind each row is dropped, and rows
/// that come bottom up are turned round.
pub fn convert_shm_pixels(
    map: &[u8],
    width: u32,
    height: u32,
    stride: usize,
    format: ShmFormat,
    y_invert: bool,
) -> (frame: Result<Frame>)
    requires
        width > 0,
    ensures
        match frame {
            Ok(frame) => unreadable(map@.len() as int, width, height, stride, format) is None
                && shows(
                frame,
                map@,
                (Layout { offset: 0, stride, width, height, flipped: y_invert }),
                format_conversion(format),
            ),
            Err(error) => unreadable(map@.len() as int, width, height, stride, format) == Some(
                error@,
            ),
        },
{
    if let ShmFormat::Other(name) = &format {
        return Err(unsupported("unsupported wl_shm format ", name.as_str()));
    }
    let rows: usize = height as usize;
    let minimum_stride: usize = match (width as usize).checked_mul(4) {
        Some(bytes) => bytes,
        None => {
            return Err(protocol("capture stride overflows"));
        },
    };
    if stride < minimum_stride {
        return Err(protocol("capture stride is smaller than the frame width"));
    }
    let expected: usize = match stride.checked_mul(rows) {
        Some(bytes) => bytes,
        None => {
            return Err(protocol("capture buffer size overflows"));
        },
    };
    if map.len() < expected {
        return Err(protocol("capture SHM mapping is smaller than the advertised stride"));
    }
    let conversion = match format {
        ShmFormat::Argb8888 => Conversion::Keep,
        _ => Conversion::Opaque,
    };
    let layout = Layout { offset: 0, stride, width, height, flipped: y_invert };
    proof {
        let (w, h, s) = (width as int, height as int, stride as int);
        assert(w * h * 4 <= s * h) by (nonlinear_arith)
            requires
                w * 4 <= s,
                0 <= h,
        ;
        if h > 0 {
            assert((h - 1) * s + w * 4 <= s * h) by (nonlinear_arith)
                requires
                    w * 4 <= s,
            ;
        }
    }
    read_frame(map, layout, conversion)
}

/// The four integers `capture_output_region` takes, in its own order.
pub open spec fn region_request(region: Rect) -> core::result::Result<(i32, i32, i32, i32), ErrorView> {
    if region.size.width > i32::MAX {
        Err(ErrorView::WaylandProtocol("the capture region is too wide to ask for"@))
    } else if region.size.height > i32::MAX {
        Err(ErrorView::WaylandProtocol("the capture region is too tall to ask for"@))
    } else {
        Ok(
            (
                region.origin.x,
                region.origin.y,
                region.size.width as i32,
                region.size.height as i32,
            ),
        )
    }
}

/// The four integers `capture_output_region` takes; a rectangle that does not
/// fit them is not something to send a compositor.
pub fn region_arguments(region: Rect) -> (arguments: Result<(i32, i32, i32, i32)>)
    ensures
        settles(arguments, region_request(region)),
{
    if region.size.width > i32::MAX as u32 {
        return Err(protocol("the capture region is too wide to ask for"));
    }
    if region.size.height > i32::MAX as u32 {
        return Err(protocol("the capture region is too tall to ask for"));
    }
    Ok((region.origin.x, region.origin.y, region.size.width as i32, region.size.height as i32))
}

// ---------------------------------------------------------------------------
// Laws
// ---------------------------------------------------------------------------
/// A buffer made for an offer is one whose pixels can be read.
pub proof fn law_a_planned_buffer_can_be_read(offer: ShmOffer, plan: BufferPlan)
    requires
        planned_buffer(offer) == Ok::<BufferPlan, ErrorView>(plan),
    ensures
        unreadable(plan.bytes as int, offer.width, offer.height, plan.stride, offer.format) is None,
{
}

/// A buffer whose rows come bottom up shows the picture of the same buffer
/// read top down, turned upside down.
pub proof fn law_an_inverted_frame_is_upside_down(
    inverted: Frame,
    plain: Frame,
    map: Seq<u8>,
    layout: Layout,
    conversion: Conversion,
    x: int,
    y: int,
)
    requires
        shows(inverted, map, (Layout { flipped: true, ..layout }), conversion),
        shows(plain, map, (Layout { flipped: false, ..layout }), conversion),
        0 <= x < layout.width,
        0 <= y < layout.height,
    ensures
        inverted.rgba(x, y) == plain.rgba(x, layout.height - 1 - y),
{
}

/// Without an alpha channel every pixel is opaque.
pub proof fn law_a_frame_without_alpha_is_opaque(
    frame: Frame,
    map: Seq<u8>,
    layout: Layout,
    x: int,
    y: int,
)
    requires
        shows(frame, map, layout, format_conversion(ShmFormat::Xrgb8888)),
        0 <= x < layout.width,
        0 <= y < layout.height,
    ensures
        frame.rgba(x, y)[3] == 255,
{
}

/// A buffer is planned exactly for an offer that can be read: a format that is
/// known, rows that hold their pixels, and a size the protocol can count; it is
/// as large as its rows.
pub proof fn law_a_buffer_is_as_large_as_its_rows(offer: ShmOffer)
    ensures
        planned_buffer(offer) is Ok <==> {
            &&& offer.format is Argb8888 || offer.format is Xrgb8888
            &&& offer.width * 4 <= offer.stride
            &&& offer.stride * offer.height <= i32::MAX
        },
        planned_buffer(offer) matches Ok(plan) ==> {
            &&& plan.bytes == offer.stride * offer.height
            &&& plan.pool_size == offer.stride * offer.height
            &&& plan.stride == offer.stride
        },
{
}

/// The arguments of a request are the numbers themselves, wherever they can be
/// counted with a sign.
pub proof fn law_arguments_are_the_numbers_themselves(
    region: Rect,
    width: u32,
    height: u32,
    stride: usize,
)
    ensures
        match region_request(region) {
            Ok((x, y, w, h)) => {
                &&& x == region.origin.x
                &&& y == region.origin.y
                &&& w == region.size.width
                &&& h == region.size.height
            },
            Err(_) => region.size.width > i32::MAX || region.size.height > i32::MAX,
        },
        match signed_shape(width, height, stride) {
            Ok((w, h, s)) => w == width && h == height && s == stride,
            Err(_) => width > i32::MAX || height > i32::MAX || stride > i32::MAX,
        },
{
}

/// A frame of shared memory has its colours where its bytes have them, its own
/// alpha where the format has one and none taken away where it has not, and its
/// rows the right way up.
pub proof fn law_a_shared_frame_shows_its_bytes(
    frame: Frame,
    map: Seq<u8>,
    width: u32,
    height: u32,
    stride: usize,
    format: ShmFormat,
    y_invert: bool,
    x: int,
    y: int,
)
    requires
        shows(
            frame,
            map,
            (Layout { offset: 0, stride, width, height, flipped: y_invert }),
            format_conversion(format),
        ),
        0 <= x < width,
        0 <= y < height,
    ensures
        ({
            let row = if y_invert {
                height - 1 - y
            } else {
                y
            };
            let at = row * stride + 4 * x;
            frame.rgba(x, y) == seq![
                map[at + 2],
                map[at + 1],
                map[at],
                if format is Argb8888 {
                    map[at + 3]
                } else {
                    255
                },
            ]
        }),
{
    let layout = Layout { offset: 0, stride, width, height, flipped: y_invert };
    law_every_pixel_keeps_its_place(frame, map, layout, format_conversion(format), x, y);
}

/// Bytes can be read exactly where the format is known, the rows hold their
/// pixels, and all rows are there.
pub proof fn law_bytes_are_read_only_where_they_are_all_there(
    length: int,
    width: u32,
    height: u32,
    stride: usize,
    format: ShmFormat,
)
    requires
        0 <= length <= usize::MAX,
    ensures
        unreadable(length, width, height, stride, format) is None <==> {
            &&& format is Argb8888 || format is Xrgb8888
            &&& width * 4 <= stride
            &&& stride * height <= length
        },
{
}

} // verus!
