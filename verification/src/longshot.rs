//! The knobs of a scrolling capture.

use vstd::prelude::*;

verus! {

/// How a scrolling capture scrolls, and when it stops.
#[derive(Clone, Copy, Debug, PartialEq, Eq, Structural)]
pub struct LongShotOptions {
    /// Wheel notches sent at a time.
    pub notches: u32,
    /// Height limit of the stitched image, in pixels.
    pub max_height: u32,
    /// Frame limit.
    pub max_frames: u32,
    /// Time limit, in seconds.
    pub timeout: u64,
    /// Rows at the top of every frame left out of the match.
    pub ignore_top: u32,
}

pub const DEFAULT_NOTCHES: u32 = 1;

pub const DEFAULT_MAX_HEIGHT: u32 = 30_000;

pub const DEFAULT_MAX_FRAMES: u32 = 6_000;

pub const DEFAULT_TIMEOUT: u64 = 120;

pub const DEFAULT_IGNORE_TOP: u32 = 0;

impl Default for LongShotOptions {
    fn default() -> (options: Self)
        ensures
            options == (LongShotOptions {
                notches: DEFAULT_NOTCHES,
                max_height: DEFAULT_MAX_HEIGHT,
                max_frames: DEFAULT_MAX_FRAMES,
                timeout: DEFAULT_TIMEOUT,
                ignore_top: DEFAULT_IGNORE_TOP,
            }),
    {
        LongShotOptions {
            notches: DEFAULT_NOTCHES,
            max_height: DEFAULT_MAX_HEIGHT,
            max_frames: DEFAULT_MAX_FRAMES,
            timeout: DEFAULT_TIMEOUT,
            ignore_top: DEFAULT_IGNORE_TOP,
        }
    }
}

} // verus!
