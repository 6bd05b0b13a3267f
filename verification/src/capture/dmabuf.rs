//! dma-buf buffers for zero-copy capture: what one is made of, and what can be
//! read back out of it.

use vstd::prelude::*;

use crate::error::{settles, ErrorView, Result, VshotError};
use crate::text::{decimal_text, format_u64};

use super::raw_pixels::{pictures, read_pixels, Conversion, Layout};

verus! {

/// The DRM fourcc of ARGB8888 (little-endian `AR24`).
pub const DRM_FORMAT_ARGB8888: u32 = 0x3432_5241;

/// The DRM fourcc of XRGB8888 (little-endian `XR24`).
pub const DRM_FORMAT_XRGB8888: u32 = 0x3432_5258;

/// What a fresh allocation reports of itself.
#[derive(Clone, Copy, Debug, Default, PartialEq, Eq)]
pub struct Allocation {
    pub modifier: u64,
    pub fd: i32,
    pub stride: u32,
    pub offset: u32,
}

/// One buffer the compositor can render into.
#[derive(Clone, Copy, Debug, PartialEq, Eq)]
pub struct GbmBuffer {
    pub fd: i32,
    pub fourcc: u32,
    pub modifier: u64,
    pub stride: u32,
    pub offset: u32,
    pub width: u32,
    pub height: u32,
}

/// What a zero-copy capture hands to the recorder: the buffer the compositor
/// just rendered into.
#[derive(Clone, Copy, Debug, PartialEq, Eq)]
pub struct DmabufFrame {
    pub fd: i32,
    pub fourcc: u32,
    pub modifier: u64,
    pub offset: u32,
    pub stride: u32,
    pub width: u32,
    pub height: u32,
}

/// The refusal of a buffer without pixels.
pub fn zero_pixel(width: u32, height: u32) -> (refusal: Option<VshotError>)
    ensures
        match refusal {
            Some(error) => (width == 0 || height == 0) && error@ == ErrorView::WaylandProtocol(
                "refusing to allocate a 0-pixel capture buffer"@,
            ),
            None => width > 0 && height > 0,
        },
{
    if width == 0 || height == 0 {
        Some(
            VshotError::WaylandProtocol(
                "refusing to allocate a 0-pixel capture buffer".to_owned(),
            ),
        )
    } else {
        None
    }
}

/// How many modifiers an allocator is told about.
pub fn modifier_count(modifiers: &[u64]) -> (count: i32)
    ensures
        count == if modifiers@.len() <= i32::MAX {
            modifiers@.len() as i32
        } else {
            i32::MAX
        },
{
    if modifiers.len() <= i32::MAX as usize {
        modifiers.len() as i32
    } else {
        i32::MAX
    }
}

/// The halves of a modifier as the protocol takes them, the upper one first.
pub open spec fn modifier_halves(modifier: u64) -> (u32, u32) {
    ((modifier / 0x1_0000_0000) as u32, (modifier % 0x1_0000_0000) as u32)
}

pub fn split_modifier(modifier: u64) -> (halves: (u32, u32))
    ensures
        halves == modifier_halves(modifier),
{
    ((modifier / 0x1_0000_0000) as u32, (modifier % 0x1_0000_0000) as u32)
}

/// The halves of a modifier make the modifier again.
pub proof fn law_the_halves_make_the_modifier_again(modifier: u64)
    ensures
        modifier_halves(modifier).0 * 0x1_0000_0000 + modifier_halves(modifier).1 == modifier,
{
}

impl GbmBuffer {
    /// The buffer an allocation made, or why there is none.
    pub fn wrap(
        allocation: Option<Allocation>,
        width: u32,
        height: u32,
        fourcc: u32,
        detail: &str,
    ) -> (buffer: Result<GbmBuffer>)
        ensures
            settles(
                buffer,
                match allocation {
                    Some(allocation) => Ok(
                        GbmBuffer {
                            fd: allocation.fd,
                            fourcc,
                            modifier: allocation.modifier,
                            stride: allocation.stride,
                            offset: allocation.offset,
                            width,
                            height,
                        },
                    ),
                    None => Err(
                        ErrorView::WaylandProtocol(
                            "could not allocate a "@ + decimal_text(width as int) + "x"@
                                + decimal_text(height as int) + " dma-buf: "@ + detail@,
                        ),
                    ),
                },
            ),
    {
        match allocation {
            Some(allocation) => Ok(
                GbmBuffer {
                    fd: allocation.fd,
                    fourcc,
                    modifier: allocation.modifier,
                    stride: allocation.stride,
                    offset: allocation.offset,
                    width,
                    height,
                },
            ),
            None => {
                let (w, h) = (format_u64(width as u64), format_u64(height as u64));
                let mut text = "could not allocate a ".to_owned();
                text.append(w.as_str());
                text.append("x");
                text.append(h.as_str());
                text.append(" dma-buf: ");
                text.append(detail);
                Err(VshotError::WaylandProtocol(text))
            },
        }
    }

    /// The buffer as the recorder gets it.
    pub open spec fn as_frame(self) -> DmabufFrame {
        DmabufFrame {
            fd: self.fd,
            fourcc: self.fourcc,
            modifier: self.modifier,
            offset: self.offset,
            stride: self.stride,
            width: self.width,
            height: self.height,
        }
    }

    /// The buffer as the recorder gets it.
    pub fn frame(&self) -> (frame: DmabufFrame)
        ensures
            frame == self.as_frame(),
    {
        DmabufFrame {
            fd: self.fd,
            fourcc: self.fourcc,
            modifier: self.modifier,
            offset: self.offset,
            stride: self.stride,
            width: self.width,
            height: self.height,
        }
    }

    /// How the rows lie in the buffer.
    pub open spec fn layout(self) -> Layout {
        Layout {
            offset: self.offset as usize,
            stride: self.stride as usize,
            width: self.width,
            height: self.height,
            flipped: false,
        }
    }

    /// The borrowed file descriptor.
    pub fn fd(&self) -> (value: i32)
        ensures
            value == self.fd,
    {
        self.fd
    }

    pub fn fourcc(&self) -> (value: u32)
        ensures
            value == self.fourcc,
    {
        self.fourcc
    }

    pub fn modifier(&self) -> (value: u64)
        ensures
            value == self.modifier,
    {
        self.modifier
    }

    pub fn stride(&self) -> (value: u32)
        ensures
            value == self.stride,
    {
        self.stride
    }

    pub fn offset(&self) -> (value: u32)
        ensures
            value == self.offset,
    {
        self.offset
    }

    pub fn width(&self) -> (value: u32)
        ensures
            value == self.width,
    {
        self.width
    }

    pub fn height(&self) -> (value: u32)
        ensures
            value == self.height,
    {
        self.height
    }

    /// The bytes of the buffer that have to be mapped to read its pixels.
    pub open spec fn length(self) -> int {
        self.offset + self.stride * (if self.height == 0 {
            0
        } else {
            self.height - 1
        }) + self.width * 4
    }

    /// The bytes of the buffer that have to be mapped to read its pixels.
    pub fn map_length(&self) -> (length: usize)
        requires
            self.length() <= usize::MAX,
        ensures
            length == self.length(),
    {
        let rows: usize = if self.height == 0 {
            0
        } else {
            self.height as usize - 1
        };
        assert(0 <= self.stride * rows) by (nonlinear_arith);
        self.offset as usize + self.stride as usize * rows + self.width as usize * 4
    }

    /// Reads the mapped buffer as tightly packed red, green, blue and alpha;
    /// every pixel comes out opaque.
    pub fn read_rgba(&self, map: &[u8]) -> (pixels: Vec<u8>)
        requires
            self.length() <= map@.len(),
            self.width * self.height * 4 <= usize::MAX,
        ensures
            pictures(pixels@, map@, self.layout(), Conversion::Opaque),
    {
        let layout = Layout {
            offset: self.offset as usize,
            stride: self.stride as usize,
            width: self.width,
            height: self.height,
            flipped: false,
        };
        proof {
            let (s, h) = (self.stride as int, self.height as int);
            assert((h - 1) * s == s * (h - 1)) by (nonlinear_arith);
        }
        read_pixels(map, layout, Conversion::Opaque)
    }
}

/// A frame is its buffer, number for number, and its rows lie where the buffer
/// says.
pub proof fn law_a_frame_is_its_buffer(buffer: GbmBuffer)
    ensures
        buffer.as_frame().fd == buffer.fd,
        buffer.as_frame().fourcc == buffer.fourcc,
        buffer.as_frame().modifier == buffer.modifier,
        buffer.as_frame().offset == buffer.offset,
        buffer.as_frame().stride == buffer.stride,
        buffer.as_frame().width == buffer.width,
        buffer.as_frame().height == buffer.height,
        buffer.layout().offset == buffer.offset,
        buffer.layout().stride == buffer.stride,
        buffer.layout().width == buffer.width,
        buffer.layout().height == buffer.height,
        !buffer.layout().flipped,
{
}

/// What has to be mapped reaches to the end of the last pixel and no further.
pub proof fn law_the_mapping_ends_with_the_last_pixel(buffer: GbmBuffer)
    requires
        buffer.height > 0,
    ensures
        buffer.length() == buffer.layout().reach(),
        buffer.length() == buffer.offset + (buffer.height - 1) * buffer.stride + 4 * buffer.width,
{
    let (s, h) = (buffer.stride as int, buffer.height as int);
    assert((h - 1) * s == s * (h - 1)) by (nonlinear_arith);
}

/// A buffer that was read shows every pixel opaque, with the third of its bytes
/// red, the second green and the first blue.
pub proof fn law_a_read_buffer_is_opaque(
    buffer: GbmBuffer,
    pixels: Seq<u8>,
    map: Seq<u8>,
    x: int,
    y: int,
)
    requires
        pictures(pixels, map, buffer.layout(), Conversion::Opaque),
        0 <= x < buffer.width,
        0 <= y < buffer.height,
    ensures
        ({
            let to = (y * buffer.width + x) * 4;
            let from = buffer.offset + y * buffer.stride + 4 * x;
            &&& pixels[to] == map[from + 2]
            &&& pixels[to + 1] == map[from + 1]
            &&& pixels[to + 2] == map[from]
            &&& pixels[to + 3] == 255
        }),
{
    let to = (y * buffer.width + x) * 4;
    assert(pixels[to + 0] == map[buffer.offset + y * buffer.stride + 4 * x + 2]);
    assert(pixels[to + 1] == map[buffer.offset + y * buffer.stride + 4 * x + 1]);
    assert(pixels[to + 2] == map[buffer.offset + y * buffer.stride + 4 * x]);
    assert(pixels[to + 3] == 255);
}

} // verus!
