//! Captured pixels and the outputs they come from.

use vstd::prelude::*;

use crate::error::{Result, VshotError};
use crate::geometry::{Point, Rect, Size};
use crate::text::{concat3, same_text};

verus! {

/// An image: four bytes (red, green, blue, alpha) per pixel, row by row, with
/// no padding between rows.
#[derive(Debug, PartialEq, Eq)]
pub struct Frame {
    size: Size,
    pixels: Vec<u8>,
}

/// The number of bytes a frame of this size holds.
pub open spec fn frame_bytes(size: Size) -> int {
    size.width * size.height * 4
}

impl Clone for Frame {
    fn clone(&self) -> (copy: Self)
        ensures
            copy.dim() == self.dim(),
            copy.data() == self.data(),
    {
        proof {
            use_type_invariant(self);
        }
        let pixels: Vec<u8> = self.pixels.clone();
        assert(pixels@ =~= self.pixels@);
        Frame { size: self.size, pixels }
    }
}

impl Frame {
    pub closed spec fn dim(&self) -> Size {
        self.size
    }

    pub closed spec fn data(&self) -> Seq<u8> {
        self.pixels@
    }

    /// The pixel buffer fits the size.
    pub open spec fn wf(&self) -> bool {
        self.data().len() == frame_bytes(self.dim())
    }

    #[verifier::type_invariant]
    spec fn inv(&self) -> bool {
        self.pixels@.len() == frame_bytes(self.size)
    }

    /// One channel (0 to 2 the colours, 3 the alpha) of the pixel at `(x, y)`.
    pub open spec fn channel(&self, x: int, y: int, c: int) -> u8 {
        self.data()[(y * self.dim().width + x) * 4 + c]
    }

    /// The four channels of the pixel at `(x, y)`.
    pub open spec fn rgba(&self, x: int, y: int) -> Seq<u8> {
        seq![
            self.channel(x, y, 0),
            self.channel(x, y, 1),
            self.channel(x, y, 2),
            self.channel(x, y, 3),
        ]
    }

    /// A frame of `size` over `pixels`; refused when the buffer does not hold
    /// exactly the bytes the size asks for.
    pub fn new(size: Size, pixels: Vec<u8>) -> (frame: Result<Self>)
        ensures
            match frame {
                Ok(frame) => {
                    &&& pixels@.len() == frame_bytes(size)
                    &&& frame.wf()
                    &&& frame.dim() == size
                    &&& frame.data() == pixels@
                },
                Err(error) => pixels@.len() != frame_bytes(size) && error is InvalidFrame,
            },
    {
        assert(size.width * size.height * 4 <= u32::MAX * u32::MAX * 4) by (nonlinear_arith)
            requires
                size.width <= u32::MAX,
                size.height <= u32::MAX,
        ;
        assert(0 <= size.width * size.height) by (nonlinear_arith);
        let expected: u128 = size.width as u128 * size.height as u128 * 4;
        if pixels.len() as u128 != expected {
            return Err(
                VshotError::InvalidFrame(
                    "the pixel buffer does not fit the frame size".to_owned(),
                ),
            );
        }
        Ok(Frame { size, pixels })
    }

    /// A frame of one colour; refused when it would not fit in memory.
    pub fn solid(size: Size, rgba: [u8; 4]) -> (frame: Result<Self>)
        ensures
            match frame {
                Ok(frame) => {
                    &&& frame.wf()
                    &&& frame.dim() == size
                    &&& frame_bytes(size) <= usize::MAX
                    &&& forall|i: int| #![auto]
                        0 <= i < frame.data().len() ==> frame.data()[i] == rgba[i % 4]
                },
                Err(error) => frame_bytes(size) > usize::MAX && error is InvalidFrame,
            },
    {
        assert(size.width * size.height * 4 <= u32::MAX * u32::MAX * 4) by (nonlinear_arith)
            requires
                size.width <= u32::MAX,
                size.height <= u32::MAX,
        ;
        assert(0 <= size.width * size.height) by (nonlinear_arith);
        let expected: u128 = size.width as u128 * size.height as u128 * 4;
        if expected > usize::MAX as u128 {
            return Err(VshotError::InvalidFrame("the frame is too large".to_owned()));
        }
        let bytes: usize = expected as usize;
        let mut pixels: Vec<u8> = Vec::new();
        while pixels.len() < bytes
            invariant
                pixels.len() <= bytes,
                forall|i: int| #![auto] 0 <= i < pixels@.len() ==> pixels@[i] == rgba[i % 4],
            decreases bytes - pixels.len(),
        {
            let at: usize = pixels.len() % 4;
            pixels.push(rgba[at]);
        }
        Ok(Frame { size, pixels })
    }

    pub fn size(&self) -> (size: Size)
        ensures
            size == self.dim(),
            self.wf(),
    {
        proof {
            use_type_invariant(self);
        }
        self.size
    }

    /// The whole buffer, row by row.
    pub fn pixels(&self) -> (pixels: &[u8])
        ensures
            pixels@ == self.data(),
            self.wf(),
    {
        proof {
            use_type_invariant(self);
        }
        self.pixels.as_slice()
    }

    /// The pixel at `point`, `None` outside the frame.
    pub fn pixel(&self, point: Point) -> (pixel: Option<[u8; 4]>)
        ensures
            self.wf(),
            match pixel {
                Some(rgba) => {
                    &&& 0 <= point.x < self.dim().width
                    &&& 0 <= point.y < self.dim().height
                    &&& rgba@ == self.rgba(point.x as int, point.y as int)
                },
                None => !(0 <= point.x < self.dim().width && 0 <= point.y < self.dim().height),
            },
    {
        proof {
            use_type_invariant(self);
        }
        if point.x < 0 || point.y < 0 {
            return None;
        }
        let (x, y): (u32, u32) = (point.x as u32, point.y as u32);
        if x >= self.size.width || y >= self.size.height {
            return None;
        }
        let index: usize = pixel_index(self.size, x, y, self.pixels.len());
        let rgba: [u8; 4] = [
            self.pixels[index],
            self.pixels[index + 1],
            self.pixels[index + 2],
            self.pixels[index + 3],
        ];
        assert(rgba@ =~= self.rgba(point.x as int, point.y as int));
        Some(rgba)
    }
}

/// One output: where it lies in the global logical space, how many device
/// pixels a logical one takes, and what it showed.
#[derive(Debug, PartialEq, Eq)]
pub struct OutputSnapshot {
    global_id: u32,
    name: String,
    geometry: Rect,
    scale: u32,
    frame: Frame,
}

/// What an output has to satisfy: it covers something, its edges and its
/// device extent stay inside the coordinate space, and it shows something.
pub open spec fn valid_output(geometry: Rect, scale: u32, shown: Size) -> bool {
    &&& geometry.size.width > 0
    &&& geometry.size.height > 0
    &&& geometry.right_edge() <= i32::MAX
    &&& geometry.bottom_edge() <= i32::MAX
    &&& scale > 0
    &&& geometry.size.width * scale <= i32::MAX
    &&& geometry.size.height * scale <= i32::MAX
    &&& shown.width > 0
    &&& shown.height > 0
}

impl OutputSnapshot {
    pub closed spec fn id(&self) -> u32 {
        self.global_id
    }

    pub closed spec fn title(&self) -> Seq<char> {
        self.name@
    }

    pub closed spec fn area(&self) -> Rect {
        self.geometry
    }

    pub closed spec fn density(&self) -> u32 {
        self.scale
    }

    pub closed spec fn shown(&self) -> &Frame {
        &self.frame
    }

    pub open spec fn wf(&self) -> bool {
        valid_output(self.area(), self.density(), self.shown().dim())
    }

    #[verifier::type_invariant]
    spec fn inv(&self) -> bool {
        valid_output(self.geometry, self.scale, self.frame.dim())
    }

    /// An output's snapshot; refused when it covers or shows nothing, or does
    /// not fit the coordinate space.
    pub fn new(global_id: u32, name: &str, geometry: Rect, scale: u32, frame: Frame) -> (output:
        Result<Self>)
        ensures
            match output {
                Ok(output) => {
                    &&& valid_output(geometry, scale, frame.dim())
                    &&& output.wf()
                    &&& output.id() == global_id
                    &&& output.title() == name@
                    &&& output.area() == geometry
                    &&& output.density() == scale
                    &&& output.shown() == frame
                },
                Err(error) => !valid_output(geometry, scale, frame.dim())
                    && error is UnsupportedOutput,
            },
    {
        let shown = frame.size();
        let right: i64 = geometry.origin.x as i64 + geometry.size.width as i64;
        let bottom: i64 = geometry.origin.y as i64 + geometry.size.height as i64;
        proof {
            let (w, h, s) = (geometry.size.width, geometry.size.height, scale);
            assert(0 <= w * s <= u32::MAX * u32::MAX && 0 <= h * s <= u32::MAX * u32::MAX)
                by (nonlinear_arith)
                requires
                    w <= u32::MAX,
                    h <= u32::MAX,
                    s <= u32::MAX,
            ;
        }
        let device_width: u64 = geometry.size.width as u64 * scale as u64;
        let device_height: u64 = geometry.size.height as u64 * scale as u64;
        if geometry.size.width == 0 || geometry.size.height == 0 || right > i32::MAX as i64
            || bottom > i32::MAX as i64 || scale == 0 || device_width > i32::MAX as u64
            || device_height > i32::MAX as u64 || shown.width == 0 || shown.height == 0 {
            return Err(
                VshotError::UnsupportedOutput(
                    "the output is empty or does not fit the coordinate space".to_owned(),
                ),
            );
        }
        Ok(OutputSnapshot { global_id, name: name.to_owned(), geometry, scale, frame })
    }

    pub fn global_id(&self) -> (id: u32)
        ensures
            id == self.id(),
    {
        self.global_id
    }

    pub fn name(&self) -> (name: &str)
        ensures
            name@ == self.title(),
    {
        self.name.as_str()
    }

    pub fn geometry(&self) -> (geometry: Rect)
        ensures
            geometry == self.area(),
            self.wf(),
    {
        proof {
            use_type_invariant(self);
        }
        self.geometry
    }

    pub fn scale(&self) -> (scale: u32)
        ensures
            scale == self.density(),
            self.wf(),
    {
        proof {
            use_type_invariant(self);
        }
        self.scale
    }

    pub fn frame(&self) -> (frame: &Frame)
        ensures
            frame == self.shown(),
            self.wf(),
    {
        proof {
            use_type_invariant(self);
        }
        &self.frame
    }
}

/// Everything the outputs showed at one moment.
#[derive(Debug, PartialEq, Eq)]
pub struct SceneSnapshot {
    outputs: Vec<OutputSnapshot>,
}

impl SceneSnapshot {
    pub closed spec fn view(&self) -> Seq<OutputSnapshot> {
        self.outputs@
    }

    /// A scene of these outputs; refused when there is none.
    pub fn from_outputs(outputs: Vec<OutputSnapshot>) -> (scene: Result<Self>)
        ensures
            match scene {
                Ok(scene) => scene@ == outputs@ && outputs@.len() > 0,
                Err(error) => outputs@.len() == 0 && error is IncompleteTopology,
            },
    {
        if outputs.len() == 0 {
            return Err(VshotError::IncompleteTopology("there is no output".to_owned()));
        }
        Ok(SceneSnapshot { outputs })
    }

    pub fn outputs(&self) -> (outputs: &Vec<OutputSnapshot>)
        ensures
            outputs@ == self@,
    {
        &self.outputs
    }
}

/// A pixel's four bytes lie inside a buffer that fits its frame.
pub proof fn lemma_pixel_in_buffer(size: Size, x: int, y: int)
    requires
        0 <= x < size.width,
        0 <= y < size.height,
    ensures
        0 <= (y * size.width + x) * 4,
        (y * size.width + x) * 4 + 4 <= frame_bytes(size),
        0 <= y * size.width,
{
    assert(y * size.width + size.width <= size.height * size.width) by (nonlinear_arith)
        requires
            0 <= y,
            y + 1 <= size.height,
            0 <= size.width,
    ;
    assert(0 <= y * size.width) by (nonlinear_arith)
        requires
            0 <= y,
            0 <= size.width,
    ;
    assert(size.height * size.width == size.width * size.height) by (nonlinear_arith);
}

/// The offset of the first byte of the pixel at `(x, y)`.
pub fn pixel_index(size: Size, x: u32, y: u32, bytes: usize) -> (index: usize)
    requires
        x < size.width,
        y < size.height,
        bytes == frame_bytes(size),
    ensures
        index == (y * size.width + x) * 4,
        index + 4 <= bytes,
{
    proof {
        lemma_pixel_in_buffer(size, x as int, y as int);
    }
    (y as usize * size.width as usize + x as usize) * 4
}

/// How hard a PNG is compressed; every level is lossless.
#[derive(Clone, Copy, Debug, PartialEq, Eq, Structural)]
pub enum PngCompression {
    Stored,
    Fastest,
    Fast,
    Balanced,
    High,
}

impl Default for PngCompression {
    fn default() -> (compression: Self)
        ensures
            compression == PngCompression::Fast,
    {
        PngCompression::Fast
    }
}

/// The compression a name stands for.
pub open spec fn compression_named(name: Seq<char>) -> Option<PngCompression> {
    if name == "none"@ {
        Some(PngCompression::Stored)
    } else if name == "fastest"@ {
        Some(PngCompression::Fastest)
    } else if name == "fast"@ {
        Some(PngCompression::Fast)
    } else if name == "balanced"@ {
        Some(PngCompression::Balanced)
    } else if name == "high"@ {
        Some(PngCompression::High)
    } else {
        None
    }
}

/// What an unknown name is refused with.
pub open spec fn unknown_compression(name: Seq<char>) -> Seq<char> {
    "unknown PNG compression `"@ + name + "`: pick none, fastest, fast, balanced or high"@
}

impl PngCompression {
    /// The compression a name stands for, if any.
    pub fn by_name(name: &str) -> (compression: Option<PngCompression>)
        ensures
            compression == compression_named(name@),
    {
        if same_text(name, "none") {
            Some(PngCompression::Stored)
        } else if same_text(name, "fastest") {
            Some(PngCompression::Fastest)
        } else if same_text(name, "fast") {
            Some(PngCompression::Fast)
        } else if same_text(name, "balanced") {
            Some(PngCompression::Balanced)
        } else if same_text(name, "high") {
            Some(PngCompression::High)
        } else {
            None
        }
    }

    /// The compression a name stands for.
    pub fn parse(name: &str) -> (compression: Result<PngCompression>)
        ensures
            match compression {
                Ok(compression) => compression_named(name@) == Some(compression),
                Err(error) => {
                    &&& compression_named(name@) is None
                    &&& error matches VshotError::InvalidDestination(text)
                    &&& text@ == unknown_compression(name@)
                },
            },
    {
        match Self::by_name(name) {
            Some(compression) => Ok(compression),
            None => Err(
                VshotError::InvalidDestination(
                    concat3(
                        "unknown PNG compression `",
                        name,
                        "`: pick none, fastest, fast, balanced or high",
                    ),
                ),
            ),
        }
    }
}

/// A word asks for a compression exactly when it is that compression's name.
pub proof fn law_a_word_asks_for_the_compression_it_names(word: Seq<char>)
    ensures
        compression_named(word) == Some(PngCompression::Stored) <==> word == "none"@,
        compression_named(word) == Some(PngCompression::Fastest) <==> word == "fastest"@,
        compression_named(word) == Some(PngCompression::Fast) <==> word == "fast"@,
        compression_named(word) == Some(PngCompression::Balanced) <==> word == "balanced"@,
        compression_named(word) == Some(PngCompression::High) <==> word == "high"@,
{
    reveal_strlit("none");
    reveal_strlit("fastest");
    reveal_strlit("fast");
    reveal_strlit("balanced");
    reveal_strlit("high");
    assert("none"@[0] == 'n' && "fastest"@[0] == 'f' && "fast"@[0] == 'f' && "balanced"@[0] == 'b'
        && "high"@[0] == 'h');
    assert("fastest"@.len() == 7 && "fast"@.len() == 4);
}

} // verus!
