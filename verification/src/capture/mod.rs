//! Capturing: what is on the screen, where its windows are, and what the
//! compositors hand over.

use vstd::prelude::*;

use crate::error::{message_of, ErrorView, Result, VshotError};
use crate::geometry::{Point, Rect, Size};
use crate::model::Frame;
use crate::text::{concat2, same_text};

pub mod active_output;
pub mod dmabuf;
pub mod hypr_cursor;
pub mod kwin;
pub mod niri;
pub mod niri_composite;
pub mod outline_laws;
pub mod pixel_components;
pub mod pixel_flood;
pub mod pixel_frame;
pub mod pixel_laws;
pub mod pixel_outline;
pub mod pixel_rings;
pub mod pixel_segments;
pub mod raw_pixels;
pub mod region_laws;
pub mod ring_laws;
pub mod screencopy;
pub mod window;
pub mod window_blend;
pub mod window_copy;
pub mod window_laws;
pub mod window_pid;
pub mod window_pixel;
pub mod window_session;
pub mod wlr;

use raw_pixels::{on_frame, OUTSIDE_THE_FRAME};
pub use window::{CompositorWindowProvider, ProcessWindowProvider, WindowCandidate};
pub use window_pixel::{detect_active_window, detect_window_candidates};

verus! {

/// The compositor families that can be captured from.
#[derive(Clone, Copy, Debug, PartialEq, Eq, Structural)]
pub enum Backend {
    /// `wlr-screencopy`.
    Wlr,
    /// KWin's own screenshot service.
    Kwin,
}

/// What became of asking for a backend: it is there, or why it is not.
pub type Probed = Option<VshotError>;

/// Whether a failure means that the compositor does not speak `wlr-screencopy`,
/// which is the one that justifies trying somewhere else.
pub open spec fn lacks_screencopy(error: VshotError) -> bool {
    error matches VshotError::MissingCapability(capability) && capability@
        == "zwlr_screencopy_manager_v1"@
}

pub fn is_missing_screencopy(error: &VshotError) -> (missing: bool)
    ensures
        missing == lacks_screencopy(*error),
{
    match error {
        VshotError::MissingCapability(capability) => same_text(
            capability.as_str(),
            "zwlr_screencopy_manager_v1",
        ),
        _ => false,
    }
}

pub const NO_SCREENCOPY: &'static str =
    "the compositor provides no wlr-screencopy (`zwlr_screencopy_manager_v1`) and the KWin ScreenShot2 fallback failed: ";

/// What is reported when neither backend works: both diagnoses.
pub fn no_capture_backend(kwin_error: &VshotError) -> (error: VshotError)
    ensures
        error matches VshotError::NoCaptureBackend(text) && text@ == NO_SCREENCOPY@ + message_of(
            *kwin_error,
        ),
{
    let said = kwin_error.message();
    VshotError::NoCaptureBackend(concat2(NO_SCREENCOPY, said.as_str()))
}

/// Whether the second backend has to be asked after what the first one said.
pub fn tries_kwin(wlr: &Probed) -> (tries: bool)
    ensures
        tries == (*wlr matches Some(error) && lacks_screencopy(error)),
{
    match wlr {
        Some(error) => is_missing_screencopy(error),
        None => false,
    }
}

/// The backend of a session, from what asking for each came to.
///
/// Only the absence of the protocol moves on from the first: any other failure
/// there is a real one and is reported as it stands.
pub fn choose_backend(wlr: Probed, kwin: Probed) -> (backend: Result<Backend>)
    ensures
        match wlr {
            None => backend == Ok::<Backend, VshotError>(Backend::Wlr),
            Some(error) => if lacks_screencopy(error) {
                match kwin {
                    None => backend == Ok::<Backend, VshotError>(Backend::Kwin),
                    Some(kwin_error) => backend matches Err(VshotError::NoCaptureBackend(text))
                        && text@ == NO_SCREENCOPY@ + message_of(kwin_error),
                }
            } else {
                backend == Err::<Backend, VshotError>(error)
            },
        },
{
    match wlr {
        None => Ok(Backend::Wlr),
        Some(error) => if is_missing_screencopy(&error) {
            match kwin {
                None => Ok(Backend::Kwin),
                Some(kwin_error) => Err(no_capture_backend(&kwin_error)),
            }
        } else {
            Err(error)
        },
    }
}

/// `value` times `scale`, as far as an `i32` goes.
pub open spec fn scaled_coordinate(value: i32, scale: u32) -> i32 {
    let scale = if scale > i32::MAX {
        i32::MAX as int
    } else {
        scale as int
    };
    let product = value * scale;
    if product > i32::MAX {
        i32::MAX
    } else if product < i32::MIN {
        i32::MIN
    } else {
        product as i32
    }
}

/// `value` times `scale`, as far as a `u32` goes.
pub open spec fn scaled_size(value: u32, scale: u32) -> u32 {
    let product = value * scale;
    if product > u32::MAX {
        u32::MAX
    } else {
        product as u32
    }
}

/// A logical rectangle of an output in that output's device pixels.  A scale of
/// zero counts as one.
pub open spec fn device_region(region: Rect, scale: u32) -> Rect {
    let scale = if scale == 0 {
        1u32
    } else {
        scale
    };
    Rect {
        origin: Point {
            x: scaled_coordinate(region.origin.x, scale),
            y: scaled_coordinate(region.origin.y, scale),
        },
        size: Size {
            width: scaled_size(region.size.width, scale),
            height: scaled_size(region.size.height, scale),
        },
    }
}

fn scale_coordinate(value: i32, scale: u32) -> (scaled: i32)
    ensures
        scaled == scaled_coordinate(value, scale),
{
    let factor: i64 = if scale > i32::MAX as u32 {
        i32::MAX as i64
    } else {
        scale as i64
    };
    assert(-0x8000_0000 * 0x7fff_ffff <= value * factor <= 0x7fff_ffff * 0x7fff_ffff)
        by (nonlinear_arith)
        requires
            -0x8000_0000 <= value <= 0x7fff_ffff,
            0 <= factor <= 0x7fff_ffff,
    ;
    let product: i64 = value as i64 * factor;
    if product > i32::MAX as i64 {
        i32::MAX
    } else if product < i32::MIN as i64 {
        i32::MIN
    } else {
        product as i32
    }
}

fn scale_size(value: u32, scale: u32) -> (scaled: u32)
    ensures
        scaled == scaled_size(value, scale),
{
    assert(0 <= value * scale <= 0xffff_ffff * 0xffff_ffff) by (nonlinear_arith)
        requires
            value <= 0xffff_ffff,
            scale <= 0xffff_ffff,
    ;
    let product: u64 = value as u64 * scale as u64;
    if product > u32::MAX as u64 {
        u32::MAX
    } else {
        product as u32
    }
}

/// A logical rectangle of an output, as the rectangle of that output's pixels
/// that has to be cut out of a capture of the whole.
pub fn scaled_region(region: Rect, scale: u32) -> (device: Rect)
    ensures
        device == device_region(region, scale),
{
    let scale: u32 = if scale == 0 {
        1
    } else {
        scale
    };
    Rect::new(
        scale_coordinate(region.origin.x, scale),
        scale_coordinate(region.origin.y, scale),
        scale_size(region.size.width, scale),
        scale_size(region.size.height, scale),
    )
}

/// Cuts a logical rectangle of an output out of a capture of all of it.
pub fn cut_region(full: &Frame, region: Rect, scale: u32) -> (part: Result<Frame>)
    ensures
        match part {
            Ok(part) => {
                &&& on_frame(device_region(region, scale), full.dim()) matches Some(inside)
                &&& part.wf()
                &&& part.dim() == inside.size
                &&& forall|x: int, y: int|
                    0 <= x < inside.size.width && 0 <= y < inside.size.height
                        ==> #[trigger] part.rgba(x, y) == full.rgba(
                        inside.origin.x + x,
                        inside.origin.y + y,
                    )
            },
            Err(error) => on_frame(device_region(region, scale), full.dim()) is None && error@
                == ErrorView::InvalidGeometry(OUTSIDE_THE_FRAME@),
        },
{
    full.crop(scaled_region(region, scale))
}

/// A scale of one, or of nothing, leaves the rectangle as it is.
pub proof fn law_a_scale_of_one_changes_nothing(region: Rect)
    ensures
        device_region(region, 1) == region,
        device_region(region, 0) == region,
{
    let (x, y) = (region.origin.x as int, region.origin.y as int);
    let (w, h) = (region.size.width as int, region.size.height as int);
    assert(x * 1 == x && y * 1 == y && w * 1 == w && h * 1 == h) by (nonlinear_arith);
    assert(scaled_coordinate(region.origin.x, 1) == region.origin.x);
    assert(scaled_coordinate(region.origin.y, 1) == region.origin.y);
    assert(scaled_size(region.size.width, 1) == region.size.width);
    assert(scaled_size(region.size.height, 1) == region.size.height);
    assert(device_region(region, 0) == device_region(region, 1));
}

/// A region that fits the frame once it is scaled is cut out where its device
/// pixels are: each edge is the logical one times the scale, and the part is
/// the region's size times the scale.
pub proof fn law_a_region_is_cut_out_at_its_device_pixels(region: Rect, scale: u32, full: Size)
    requires
        scale >= 1,
        region.origin.x >= 0,
        region.origin.y >= 0,
        region.size.width > 0,
        region.size.height > 0,
        region.right_edge() * scale <= full.width <= i32::MAX,
        region.bottom_edge() * scale <= full.height <= i32::MAX,
    ensures
        on_frame(device_region(region, scale), full) matches Some(inside) && {
            &&& inside.origin.x == region.origin.x * scale
            &&& inside.origin.y == region.origin.y * scale
            &&& inside.size.width == region.size.width * scale
            &&& inside.size.height == region.size.height * scale
        },
{
    lemma_scaled_side(region.origin.x as int, region.size.width as int, scale as int);
    lemma_scaled_side(region.origin.y as int, region.size.height as int, scale as int);
}

proof fn lemma_scaled_side(from: int, length: int, scale: int)
    requires
        from >= 0,
        length > 0,
        scale >= 1,
    ensures
        (from + length) * scale == from * scale + length * scale,
        0 <= from * scale,
        scale <= length * scale,
{
    assert((from + length) * scale == from * scale + length * scale) by (nonlinear_arith);
    assert(0 <= from * scale) by (nonlinear_arith)
        requires
            from >= 0,
            scale >= 1,
    ;
    assert(scale <= length * scale) by (nonlinear_arith)
        requires
            length >= 1,
            scale >= 1,
    ;
}

/// A coordinate and a length are multiplied by the scale, and what does not fit
/// ends at the nearest number that does.
pub proof fn law_scaling_multiplies_as_far_as_numbers_go(region: Rect, scale: u32)
    requires
        1 <= scale <= i32::MAX,
    ensures
        ({
            let device = device_region(region, scale);
            &&& i32::MIN <= region.origin.x * scale <= i32::MAX ==> device.origin.x
                == region.origin.x * scale
            &&& i32::MIN <= region.origin.y * scale <= i32::MAX ==> device.origin.y
                == region.origin.y * scale
            &&& region.origin.x * scale > i32::MAX ==> device.origin.x == i32::MAX
            &&& region.origin.y * scale > i32::MAX ==> device.origin.y == i32::MAX
            &&& region.origin.x * scale < i32::MIN ==> device.origin.x == i32::MIN
            &&& region.origin.y * scale < i32::MIN ==> device.origin.y == i32::MIN
            &&& region.size.width * scale <= u32::MAX ==> device.size.width == region.size.width
                * scale
            &&& region.size.height * scale <= u32::MAX ==> device.size.height == region.size.height
                * scale
            &&& region.size.width * scale > u32::MAX ==> device.size.width == u32::MAX
            &&& region.size.height * scale > u32::MAX ==> device.size.height == u32::MAX
        }),
{
}

/// Only the one protocol being missing moves on to the other backend.
pub proof fn law_only_the_missing_protocol_moves_on(error: VshotError)
    ensures
        lacks_screencopy(error) <==> error@ == ErrorView::MissingCapability(
            "zwlr_screencopy_manager_v1"@,
        ),
{
}

} // verus!
