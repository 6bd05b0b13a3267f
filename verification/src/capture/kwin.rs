//! Screen capture through KWin's private screenshot service.
//!
//! The caller passes in the write end of a pipe, the compositor renders into
//! it, and the reply describes the pixels.  What is asked for, and what the
//! reply and the pixels mean, is decided here.  The service is private API
//! without a version to negotiate, so what is needed of a reply is checked
//! instead of relied on.

use vstd::prelude::*;

use crate::binary64::{at_most, round_number, rounded_number, INFINITY, ONE};
use crate::error::{settles, ErrorView, Result, VshotError};
use crate::model::Frame;
use crate::text::{concat2, concat3, contains_text, decimal_text, format_u64, has_part, same_text};

use super::raw_pixels::{
    law_every_pixel_keeps_its_place, read_frame, restored_from, shows, Conversion, Layout,
};

verus! {

pub const SERVICE: &'static str = "org.kde.KWin";

pub const PATH: &'static str = "/org/kde/KWin/ScreenShot2";

pub const INTERFACE: &'static str = "org.kde.KWin.ScreenShot2";

/// `QImage::Format_ARGB32_Premultiplied`, the one format that can be read.
pub const FORMAT_ARGB32_PREMULTIPLIED: u32 = 6;

/// The layout of the pixels as the compositor announced it.
#[derive(Clone, Copy, Debug, PartialEq, Eq, Structural)]
pub struct CaptureGeometry {
    pub width: u32,
    pub height: u32,
    pub stride: usize,
}

/// What the alpha of the pixels means.
#[derive(Clone, Copy, Debug, PartialEq, Eq, Structural)]
pub enum Alpha {
    /// The pixels cover the whole frame, so it is dropped.
    Flatten,
    /// It is the coverage of what was drawn, so it is kept: a window sits on a
    /// transparent backdrop.
    Keep,
}

/// What a capture is aimed at.
#[derive(Clone, Copy, Debug, PartialEq, Eq)]
pub enum Shot<'a> {
    /// One output, by its name.
    Output { name: &'a str, cursor: bool },
    /// The focused window, decorations included.
    ActiveWindow { cursor: bool },
    /// One window by the id KWin knows it by, decorations included.
    Window { handle: &'a str, cursor: bool },
}

/// One value of a capture's reply.
#[derive(Clone, Debug, PartialEq, Eq)]
pub enum ResultValue {
    Text(String),
    Unsigned(u32),
    /// A double by its bit pattern, and as it is written.
    Double { bits: u64, text: String },
    /// A value of any other type.
    Other,
}

/// The reply to a capture: values by name.
#[derive(Clone, Debug, PartialEq, Eq)]
pub struct Results {
    pub entries: Vec<(String, ResultValue)>,
}

/// An option of a capture.
pub type CaptureOption = (&'static str, bool);

fn kwin_error(text: &str) -> (error: VshotError)
    ensures
        error@ == ErrorView::KwinScreenShot(text@),
{
    VshotError::KwinScreenShot(text.to_owned())
}

fn kwin_error3(a: &str, b: &str, c: &str) -> (error: VshotError)
    ensures
        error@ == ErrorView::KwinScreenShot(a@ + b@ + c@),
{
    VshotError::KwinScreenShot(concat3(a, b, c))
}

// ---------------------------------------------------------------------------
// Asking
// ---------------------------------------------------------------------------
/// The options of a capture: the cursor and the device's own resolution; for a
/// window also its decoration, and for a window by its id no shadow, because a
/// recording has no alpha to keep it transparent with.
pub open spec fn options_of(shot: Shot) -> Seq<CaptureOption> {
    match shot {
        Shot::Output { name, cursor } => seq![
            ("include-cursor", cursor),
            ("native-resolution", true),
        ],
        Shot::ActiveWindow { cursor } => seq![
            ("include-cursor", cursor),
            ("native-resolution", true),
            ("include-decoration", true),
        ],
        Shot::Window { handle, cursor } => seq![
            ("include-cursor", cursor),
            ("native-resolution", true),
            ("include-decoration", true),
            ("include-shadow", false),
        ],
    }
}

/// The options of an output's capture.
pub fn capture_options(cursor: bool) -> (options: Vec<CaptureOption>)
    ensures
        options@ == seq![("include-cursor", cursor), ("native-resolution", true)],
{
    let options: Vec<CaptureOption> = vec![("include-cursor", cursor), ("native-resolution", true)];
    assert(options@ =~= seq![("include-cursor", cursor), ("native-resolution", true)]);
    options
}

/// The options of a window's screenshot.
pub fn window_options(cursor: bool) -> (options: Vec<CaptureOption>)
    ensures
        options@ == seq![
            ("include-cursor", cursor),
            ("native-resolution", true),
            ("include-decoration", true),
        ],
{
    let mut options = capture_options(cursor);
    options.push(("include-decoration", true));
    assert(options@ =~= seq![
        ("include-cursor", cursor),
        ("native-resolution", true),
        ("include-decoration", true),
    ]);
    options
}

/// The options of a window's recording: no shadow, which would ring the window
/// in black.
pub fn recording_window_options(cursor: bool) -> (options: Vec<CaptureOption>)
    ensures
        options@ == seq![
            ("include-cursor", cursor),
            ("native-resolution", true),
            ("include-decoration", true),
            ("include-shadow", false),
        ],
{
    let mut options = window_options(cursor);
    options.push(("include-shadow", false));
    assert(options@ =~= seq![
        ("include-cursor", cursor),
        ("native-resolution", true),
        ("include-decoration", true),
        ("include-shadow", false),
    ]);
    options
}

impl<'a> Shot<'a> {
    /// How the target is described inside an error message.
    pub open spec fn described(self) -> Seq<char> {
        match self {
            Shot::Output { name, cursor } => "the screen `"@ + name@ + "`"@,
            Shot::ActiveWindow { cursor } => "the focused window"@,
            Shot::Window { handle, cursor } => "the window `"@ + handle@ + "`"@,
        }
    }

    pub fn target(&self) -> (text: String)
        ensures
            text@ == self.described(),
    {
        match self {
            Shot::Output { name, .. } => concat3("the screen `", name, "`"),
            Shot::ActiveWindow { .. } => "the focused window".to_owned(),
            Shot::Window { handle, .. } => concat3("the window `", handle, "`"),
        }
    }

    /// The method of the service that takes this capture.
    pub fn method(&self) -> (name: &'static str)
        ensures
            name@ == match *self {
                Shot::Output { .. } => "CaptureScreen"@,
                Shot::ActiveWindow { .. } => "CaptureActiveWindow"@,
                Shot::Window { .. } => "CaptureWindow"@,
            },
    {
        match self {
            Shot::Output { .. } => "CaptureScreen",
            Shot::ActiveWindow { .. } => "CaptureActiveWindow",
            Shot::Window { .. } => "CaptureWindow",
        }
    }

    /// The options this capture is asked for with.
    pub fn options(&self) -> (options: Vec<CaptureOption>)
        ensures
            options@ == options_of(*self),
    {
        match self {
            Shot::Output { cursor, .. } => capture_options(*cursor),
            Shot::ActiveWindow { cursor } => window_options(*cursor),
            Shot::Window { cursor, .. } => recording_window_options(*cursor),
        }
    }
}

// ---------------------------------------------------------------------------
// Is the service there?
// ---------------------------------------------------------------------------
/// Whether introspection data offers an interface.
pub open spec fn declares(introspection: Seq<char>, interface: Seq<char>) -> bool {
    has_part(introspection, "name=\""@ + interface + "\""@)
}

pub fn declares_interface(introspection: &str, interface: &str) -> (declared: bool)
    ensures
        declared == declares(introspection@, interface@),
{
    let attribute = concat3("name=\"", interface, "\"");
    contains_text(introspection, attribute.as_str())
}

pub const NO_OWNER: &'static str =
    " does not own a name on the session bus, so there is no KWin to ask";

/// Whether KWin is running, from what the bus said.
pub fn judge_owner(has_owner: bool) -> (running: Result<()>)
    ensures
        settles(
            running,
            if has_owner {
                Ok(())
            } else {
                Err(ErrorView::KwinScreenShot(SERVICE@ + NO_OWNER@))
            },
        ),
{
    if has_owner {
        Ok(())
    } else {
        Err(VshotError::KwinScreenShot(concat2(SERVICE, NO_OWNER)))
    }
}

/// What a KWin without the service is reported with.
pub open spec fn too_old() -> Seq<char> {
    SERVICE@ + " does not implement "@ + INTERFACE@
        + ", so this KWin is too old to capture through it"@
}

/// Whether KWin has the service, from its introspection data.
pub fn judge_introspection(introspection: &str) -> (offered: Result<()>)
    ensures
        settles(
            offered,
            if declares(introspection@, INTERFACE@) {
                Ok(())
            } else {
                Err(ErrorView::KwinScreenShot(too_old()))
            },
        ),
{
    if declares_interface(introspection, INTERFACE) {
        Ok(())
    } else {
        let mut text = concat3(SERVICE, " does not implement ", INTERFACE);
        text.append(", so this KWin is too old to capture through it");
        Err(VshotError::KwinScreenShot(text))
    }
}

// ---------------------------------------------------------------------------
// The reply
// ---------------------------------------------------------------------------
/// The first value under a name from `from` on.
pub open spec fn entry_from(entries: Seq<(String, ResultValue)>, key: Seq<char>, from: int) -> Option<
    ResultValue,
>
    decreases entries.len() - from,
{
    if from < 0 || from >= entries.len() {
        None
    } else if entries[from].0@ == key {
        Some(entries[from].1)
    } else {
        entry_from(entries, key, from + 1)
    }
}

impl Results {
    /// The value under a name.
    pub open spec fn value(self, key: Seq<char>) -> Option<ResultValue> {
        entry_from(self.entries@, key, 0)
    }

    /// The value under a name.
    pub fn get(&self, key: &str) -> (value: Option<&ResultValue>)
        ensures
            match value {
                Some(value) => self.value(key@) == Some(*value),
                None => self.value(key@) is None,
            },
    {
        let mut i: usize = 0;
        while i < self.entries.len()
            invariant
                i <= self.entries@.len(),
                entry_from(self.entries@, key@, 0) == entry_from(self.entries@, key@, i as int),
            decreases self.entries.len() - i,
        {
            if same_text(self.entries[i].0.as_str(), key) {
                return Some(&self.entries[i].1);
            }
            i = i + 1;
        }
        None
    }

    /// The number under a name.
    pub open spec fn number(self, key: Seq<char>) -> core::result::Result<u32, ErrorView> {
        match self.value(key) {
            Some(ResultValue::Unsigned(number)) => Ok(number),
            Some(_) => Err(
                ErrorView::KwinScreenShot(
                    "the capture's `"@ + key + "` is not an unsigned integer"@,
                ),
            ),
            None => Err(
                ErrorView::KwinScreenShot(
                    "KWin returned no `"@ + key + "` in the capture results"@,
                ),
            ),
        }
    }

    fn read_number(&self, key: &str) -> (number: Result<u32>)
        ensures
            settles(number, self.number(key@)),
    {
        match self.get(key) {
            Some(ResultValue::Unsigned(number)) => Ok(*number),
            Some(_) => Err(kwin_error3("the capture's `", key, "` is not an unsigned integer")),
            None => Err(kwin_error3("KWin returned no `", key, "` in the capture results")),
        }
    }
}

/// What a kind of capture that cannot be read is refused with.
pub open spec fn wrong_kind(kind: Seq<char>) -> Seq<char> {
    "KWin returned a `"@ + kind + "` capture, which vshot cannot read"@
}

/// What a format that cannot be read is refused with.
pub open spec fn wrong_format(format: u32) -> Seq<char> {
    "KWin returned QImage format "@ + decimal_text(format as int)
        + ", but only 6 (ARGB32_Premultiplied) can be converted"@
}

/// Whether the kind of capture, when it is stated, is one that can be read.
pub open spec fn kind_said(results: Results) -> core::result::Result<(), ErrorView> {
    match results.value("type"@) {
        None => Ok(()),
        Some(ResultValue::Text(kind)) => if kind@ == "raw"@ {
            Ok(())
        } else {
            Err(ErrorView::KwinScreenShot(wrong_kind(kind@)))
        },
        Some(_) => Err(
            ErrorView::KwinScreenShot("the `type` of the capture is not a string"@),
        ),
    }
}

/// The layout a reply announces: everything that is needed has to be there.
pub open spec fn geometry_said(results: Results) -> core::result::Result<
    CaptureGeometry,
    ErrorView,
> {
    match kind_said(results) {
        Err(why) => Err(why),
        Ok(_) => match results.number("format"@) {
            Err(why) => Err(why),
            Ok(format) => if format != FORMAT_ARGB32_PREMULTIPLIED {
                Err(ErrorView::KwinScreenShot(wrong_format(format)))
            } else {
                match (
                    results.number("width"@),
                    results.number("height"@),
                    results.number("stride"@),
                ) {
                    (Err(why), _, _) => Err(why),
                    (Ok(_), Err(why), _) => Err(why),
                    (Ok(_), Ok(_), Err(why)) => Err(why),
                    (Ok(width), Ok(height), Ok(stride)) => if width == 0 || height == 0 {
                        Err(
                            ErrorView::KwinScreenShot(
                                "KWin returned a "@ + decimal_text(width as int) + "x"@
                                    + decimal_text(height as int) + " capture"@,
                            ),
                        )
                    } else {
                        Ok(CaptureGeometry { width, height, stride: stride as usize })
                    },
                }
            },
        },
    }
}

fn read_kind(results: &Results) -> (readable: Result<()>)
    ensures
        settles(readable, kind_said(*results)),
{
    match results.get("type") {
        None => Ok(()),
        Some(ResultValue::Text(kind)) => if same_text(kind.as_str(), "raw") {
            Ok(())
        } else {
            Err(
                kwin_error3(
                    "KWin returned a `",
                    kind.as_str(),
                    "` capture, which vshot cannot read",
                ),
            )
        },
        Some(_) => Err(kwin_error("the `type` of the capture is not a string")),
    }
}

/// Reads the layout out of a reply.
pub fn parse_results(results: &Results) -> (geometry: Result<CaptureGeometry>)
    ensures
        settles(geometry, geometry_said(*results)),
{
    if let Err(error) = read_kind(results) {
        return Err(error);
    }
    let format: u32 = match results.read_number("format") {
        Ok(format) => format,
        Err(error) => {
            return Err(error);
        },
    };
    if format != FORMAT_ARGB32_PREMULTIPLIED {
        let number = format_u64(format as u64);
        return Err(
            kwin_error3(
                "KWin returned QImage format ",
                number.as_str(),
                ", but only 6 (ARGB32_Premultiplied) can be converted",
            ),
        );
    }
    let width: u32 = match results.read_number("width") {
        Ok(width) => width,
        Err(error) => {
            return Err(error);
        },
    };
    let height: u32 = match results.read_number("height") {
        Ok(height) => height,
        Err(error) => {
            return Err(error);
        },
    };
    let stride: u32 = match results.read_number("stride") {
        Ok(stride) => stride,
        Err(error) => {
            return Err(error);
        },
    };
    if width == 0 || height == 0 {
        let (w, h) = (format_u64(width as u64), format_u64(height as u64));
        let mut text = concat3("KWin returned a ", w.as_str(), "x");
        text.append(h.as_str());
        text.append(" capture");
        return Err(VshotError::KwinScreenShot(text));
    }
    Ok(CaptureGeometry { width, height, stride: stride as usize })
}

pub const NO_SCALE: &'static str =
    "KWin returned no `scale` for the window, so the density its pixels are meant to be shown at is unknown";

/// The device pixels per logical pixel a reply announces, to the nearest whole
/// number; it has to be there, and to be one at least.
pub open spec fn scale_said(results: Results) -> core::result::Result<u32, ErrorView> {
    match results.value("scale"@) {
        None => Err(ErrorView::KwinScreenShot(NO_SCALE@)),
        Some(ResultValue::Double { bits, text }) => if ONE <= bits < INFINITY {
            Ok(at_most(rounded_number(bits), u32::MAX as int) as u32)
        } else {
            Err(
                ErrorView::KwinScreenShot(
                    "KWin announced a scale of "@ + text@
                        + " for the capture, which no screen has"@,
                ),
            )
        },
        Some(_) => Err(ErrorView::KwinScreenShot("the capture's `scale` is not a number"@)),
    }
}

/// Reads the density of a window out of a reply.
pub fn result_scale(results: &Results) -> (scale: Result<u32>)
    ensures
        settles(scale, scale_said(*results)),
{
    match results.get("scale") {
        None => Err(kwin_error(NO_SCALE)),
        Some(ResultValue::Double { bits, text }) => {
            if *bits < ONE || *bits >= INFINITY {
                return Err(
                    kwin_error3(
                        "KWin announced a scale of ",
                        text.as_str(),
                        " for the capture, which no screen has",
                    ),
                );
            }
            let rounded: u64 = round_number(*bits);
            if rounded > u32::MAX as u64 {
                Ok(u32::MAX)
            } else {
                Ok(rounded as u32)
            }
        },
        Some(_) => Err(kwin_error("the capture's `scale` is not a number")),
    }
}

// ---------------------------------------------------------------------------
// The pixels
// ---------------------------------------------------------------------------
/// What becomes of premultiplied pixels.
pub open spec fn alpha_conversion(alpha: Alpha) -> Conversion {
    match alpha {
        Alpha::Flatten => Conversion::UnpremultiplyFlatten,
        Alpha::Keep => Conversion::UnpremultiplyKeep,
    }
}

/// Why the bytes cannot be the announced pixels, if they cannot.
pub open spec fn unreadable(length: int, geometry: CaptureGeometry) -> Option<Seq<char>> {
    if geometry.width * 4 > usize::MAX {
        Some("the capture row is too large"@)
    } else if geometry.stride < geometry.width * 4 {
        Some(
            "KWin announced a stride of "@ + decimal_text(geometry.stride as int) + " for a "@
                + decimal_text(geometry.width as int) + "-pixel frame"@,
        )
    } else if geometry.stride * geometry.height > usize::MAX {
        Some("the capture frame is too large"@)
    } else if length < geometry.stride * geometry.height {
        Some(
            "KWin announced "@ + decimal_text(geometry.stride * geometry.height)
                + " bytes of pixels but sent "@ + decimal_text(length),
        )
    } else {
        None
    }
}

/// Reads the pixels: premultiplied blue, green, red and alpha become red,
/// green, blue and alpha, and the padding behind each row is dropped.
pub fn convert_premultiplied_bgra(
    bytes: &[u8],
    geometry: CaptureGeometry,
    alpha_policy: Alpha,
) -> (frame: Result<Frame>)
    requires
        geometry.width > 0,
    ensures
        match frame {
            Ok(frame) => unreadable(bytes@.len() as int, geometry) is None && shows(
                frame,
                bytes@,
                (Layout {
                    offset: 0,
                    stride: geometry.stride,
                    width: geometry.width,
                    height: geometry.height,
                    flipped: false,
                }),
                alpha_conversion(alpha_policy),
            ),
            Err(error) => unreadable(bytes@.len() as int, geometry) matches Some(why) && error@
                == ErrorView::KwinScreenShot(why),
        },
{
    let row_bytes: usize = match (geometry.width as usize).checked_mul(4) {
        Some(bytes) => bytes,
        None => {
            return Err(kwin_error("the capture row is too large"));
        },
    };
    if geometry.stride < row_bytes {
        let (s, w) = (format_u64(geometry.stride as u64), format_u64(geometry.width as u64));
        let mut text = concat3("KWin announced a stride of ", s.as_str(), " for a ");
        text.append(w.as_str());
        text.append("-pixel frame");
        return Err(VshotError::KwinScreenShot(text));
    }
    let expected: usize = match geometry.stride.checked_mul(geometry.height as usize) {
        Some(bytes) => bytes,
        None => {
            return Err(kwin_error("the capture frame is too large"));
        },
    };
    if bytes.len() < expected {
        let (e, l) = (format_u64(expected as u64), format_u64(bytes.len() as u64));
        let mut text = concat3("KWin announced ", e.as_str(), " bytes of pixels but sent ");
        text.append(l.as_str());
        return Err(VshotError::KwinScreenShot(text));
    }
    let layout = Layout {
        offset: 0,
        stride: geometry.stride,
        width: geometry.width,
        height: geometry.height,
        flipped: false,
    };
    proof {
        let (w, h, s) = (geometry.width as int, geometry.height as int, geometry.stride as int);
        assert(w * h * 4 <= s * h) by (nonlinear_arith)
            requires
                w * 4 <= s,
                0 <= h,
        ;
        if h > 0 {
            assert((h - 1) * s + w * 4 <= s * h) by (nonlinear_arith)
                requires
                    w * 4 <= s,
            ;
        }
    }
    let conversion = match alpha_policy {
        Alpha::Flatten => Conversion::UnpremultiplyFlatten,
        Alpha::Keep => Conversion::UnpremultiplyKeep,
    };
    read_frame(bytes, layout, conversion)
}

/// What the alpha of a capture means: a window keeps it, an output does not.
pub open spec fn alpha_of(shot: Shot) -> Alpha {
    match shot {
        Shot::Output { .. } => Alpha::Flatten,
        _ => Alpha::Keep,
    }
}

/// Whether a frame and a scale are what a reply and its bytes amount to.
pub open spec fn reads_as(
    shot: Shot,
    results: Results,
    bytes: Seq<u8>,
    capture: core::result::Result<(Frame, Option<u32>), VshotError>,
) -> bool {
    match geometry_said(results) {
        Err(why) => capture matches Err(error) && error@ == why,
        Ok(geometry) => {
            let scale = match shot {
                Shot::Output { .. } => Ok(None),
                _ => match scale_said(results) {
                    Ok(scale) => Ok(Some(scale)),
                    Err(why) => Err(why),
                },
            };
            match scale {
                Err(why) => capture matches Err(error) && error@ == why,
                Ok(scale) => match unreadable(bytes.len() as int, geometry) {
                    Some(why) => capture matches Err(error) && error@ == ErrorView::KwinScreenShot(
                        why,
                    ),
                    None => capture matches Ok((frame, density)) && density == scale && shows(
                        frame,
                        bytes,
                        (Layout {
                            offset: 0,
                            stride: geometry.stride,
                            width: geometry.width,
                            height: geometry.height,
                            flipped: false,
                        }),
                        alpha_conversion(alpha_of(shot)),
                    ),
                },
            }
        },
    }
}

/// The frame a reply and its bytes amount to, and for a window the density its
/// pixels are meant to be shown at.
pub fn read_capture(shot: Shot, results: &Results, bytes: &[u8]) -> (capture: Result<
    (Frame, Option<u32>),
>)
    ensures
        reads_as(shot, *results, bytes@, capture),
        capture matches Ok((_, scale)) ==> (scale is None <==> shot is Output),
{
    let geometry = match parse_results(results) {
        Ok(geometry) => geometry,
        Err(error) => {
            return Err(error);
        },
    };
    let (scale, alpha): (Option<u32>, Alpha) = match shot {
        Shot::Output { .. } => (None, Alpha::Flatten),
        _ => match result_scale(results) {
            Ok(scale) => (Some(scale), Alpha::Keep),
            Err(error) => {
                return Err(error);
            },
        },
    };
    match convert_premultiplied_bgra(bytes, geometry, alpha) {
        Ok(frame) => Ok((frame, scale)),
        Err(error) => Err(error),
    }
}

// ---------------------------------------------------------------------------
// Errors of the service
// ---------------------------------------------------------------------------
pub const HINT_BEFORE: &'static str =
    "KWin shows no permission prompt: it authorizes the ScreenShot2 interface only for a client whose desktop file declares `X-KDE-DBUS-Restricted-Interfaces=org.kde.KWin.ScreenShot2`.  This binary is `";

pub const HINT_BETWEEN: &'static str =
    "`.  Installing the package provides such a desktop file for `/usr/bin/vshot`; a build run straight out of `target/` needs its own desktop file whose `Exec=` starts with `";

pub const HINT_AFTER: &'static str =
    "` plus that key, and then `kbuildsycoca6 --noincremental`.  The compositor-side KWIN_SCREENSHOT_NO_PERMISSION_CHECKS=1 disables the check and is meant for development only.";

/// What an unauthorized capture is explained with; `executable` is the running
/// one, whose desktop file KWin looks for.
pub open spec fn authorization_hint(executable: Seq<char>) -> Seq<char> {
    HINT_BEFORE@ + executable + HINT_BETWEEN@ + executable + HINT_AFTER@
}

pub fn not_authorized_hint(executable: &str) -> (hint: String)
    ensures
        hint@ == authorization_hint(executable@),
{
    let mut hint = concat3(HINT_BEFORE, executable, HINT_BETWEEN);
    hint.append(executable);
    hint.append(HINT_AFTER);
    hint
}

/// What an error name of the service means.
pub open spec fn method_error(
    name: Seq<char>,
    detail: Option<Seq<char>>,
    target: Seq<char>,
    executable: Seq<char>,
) -> ErrorView {
    if name == "org.kde.KWin.ScreenShot2.Error.NoAuthorized"@ {
        ErrorView::ScreenshotDenied(authorization_hint(executable))
    } else if name == "org.kde.KWin.ScreenShot2.Error.InvalidScreen"@ {
        ErrorView::IncompleteTopology("KWin ScreenShot2 does not know "@ + target)
    } else if name == "org.kde.KWin.ScreenShot2.Error.InvalidWindow"@ {
        ErrorView::WindowClosed(target + " is no longer a window KWin knows"@)
    } else {
        ErrorView::KwinScreenShot(
            name + ": "@ + match detail {
                Some(detail) => detail,
                None => "no details"@,
            },
        )
    }
}

/// Turns an error name of the service into something the user can act on.
pub fn map_method_error(name: &str, detail: Option<&str>, target: &str, executable: &str) -> (error:
    VshotError)
    ensures
        error@ == method_error(
            name@,
            match detail {
                Some(detail) => Some(detail@),
                None => None,
            },
            target@,
            executable@,
        ),
{
    if same_text(name, "org.kde.KWin.ScreenShot2.Error.NoAuthorized") {
        VshotError::ScreenshotDenied(not_authorized_hint(executable))
    } else if same_text(name, "org.kde.KWin.ScreenShot2.Error.InvalidScreen") {
        VshotError::IncompleteTopology(concat2("KWin ScreenShot2 does not know ", target))
    } else if same_text(name, "org.kde.KWin.ScreenShot2.Error.InvalidWindow") {
        VshotError::WindowClosed(concat2(target, " is no longer a window KWin knows"))
    } else {
        let said = match detail {
            Some(detail) => detail,
            None => "no details",
        };
        kwin_error3(name, ": ", said)
    }
}

// ---------------------------------------------------------------------------
// Laws
// ---------------------------------------------------------------------------
/// An output's capture is opaque everywhere, including where nothing was drawn.
pub proof fn law_an_output_is_opaque(frame: Frame, bytes: Seq<u8>, layout: Layout, x: int, y: int)
    requires
        shows(frame, bytes, layout, alpha_conversion(Alpha::Flatten)),
        0 <= x < layout.width,
        0 <= y < layout.height,
    ensures
        frame.rgba(x, y)[3] == 255,
{
}

/// What a window does not cover stays transparent: the alpha comes through as
/// it arrived, and a pixel nothing was drawn into is black.
pub proof fn law_a_window_keeps_its_backdrop(
    frame: Frame,
    bytes: Seq<u8>,
    layout: Layout,
    x: int,
    y: int,
)
    requires
        shows(frame, bytes, layout, alpha_conversion(Alpha::Keep)),
        0 <= x < layout.width,
        0 <= y < layout.height,
    ensures
        frame.rgba(x, y)[3] == layout.raw(bytes, x, y)[3],
        layout.raw(bytes, x, y)[3] == 0 ==> frame.rgba(x, y) == seq![0u8, 0, 0, 0],
{
    if layout.raw(bytes, x, y)[3] == 0 {
        assert(frame.rgba(x, y) =~= seq![0u8, 0, 0, 0]);
    }
}

/// A name finds the first value that has it.
pub proof fn law_a_name_finds_its_first_value(results: Results, key: Seq<char>, at: int)
    requires
        forall|i: int| 0 <= i < at ==> (#[trigger] results.entries@[i]).0@ != key,
    ensures
        0 <= at < results.entries@.len() && results.entries@[at].0@ == key ==> results.value(key)
            == Some(results.entries@[at].1),
        at >= results.entries@.len() ==> results.value(key) is None,
{
    lemma_entry_is(results.entries@, key, 0, at);
}

proof fn lemma_entry_is(entries: Seq<(String, ResultValue)>, key: Seq<char>, from: int, at: int)
    requires
        0 <= from,
        forall|i: int| from <= i < at ==> (#[trigger] entries[i]).0@ != key,
    ensures
        from <= at < entries.len() && entries[at].0@ == key ==> entry_from(entries, key, from)
            == Some(entries[at].1),
        at >= entries.len() ==> entry_from(entries, key, from) is None,
    decreases entries.len() - from,
{
    if from < entries.len() && from < at {
        assert(entries[from].0@ != key);
        lemma_entry_is(entries, key, from + 1, at);
    }
}

/// The layout of a capture is the numbers that the reply has under those names,
/// and there is one exactly where the reply has all of them, names the one
/// format that can be read, covers something, and is of the raw kind where it
/// names a kind.
pub proof fn law_the_layout_is_what_the_reply_says(results: Results, geometry: CaptureGeometry)
    requires
        geometry.stride <= u32::MAX,
    ensures
        geometry_said(results) == Ok::<CaptureGeometry, ErrorView>(geometry) <==> {
            &&& results.value("type"@) matches Some(kind) ==> (kind matches ResultValue::Text(text)
                && text@ == "raw"@)
            &&& results.value("format"@) == Some(ResultValue::Unsigned(6))
            &&& results.value("width"@) == Some(ResultValue::Unsigned(geometry.width))
            &&& results.value("height"@) == Some(ResultValue::Unsigned(geometry.height))
            &&& results.value("stride"@) == Some(ResultValue::Unsigned(geometry.stride as u32))
            &&& geometry.width > 0
            &&& geometry.height > 0
        },
{
}

/// A capture that was read has the size the reply names; its colours are the
/// ones its bytes stand for, an output is opaque everywhere and a window keeps
/// its alpha; and only a window has a density, which is the reply's.
pub proof fn law_a_capture_shows_the_pixels_it_was_sent(
    shot: Shot,
    results: Results,
    bytes: Seq<u8>,
    frame: Frame,
    density: Option<u32>,
    x: int,
    y: int,
)
    requires
        reads_as(shot, results, bytes, Ok((frame, density))),
        0 <= x < frame.dim().width,
        0 <= y < frame.dim().height,
    ensures
        results.value("width"@) == Some(ResultValue::Unsigned(frame.dim().width)),
        results.value("height"@) == Some(ResultValue::Unsigned(frame.dim().height)),
        results.value("stride"@) matches Some(ResultValue::Unsigned(stride)) && {
            let at = y * stride + 4 * x;
            let rgba = frame.rgba(x, y);
            &&& restored_from(rgba[0], bytes[at + 2], bytes[at + 3])
            &&& restored_from(rgba[1], bytes[at + 1], bytes[at + 3])
            &&& restored_from(rgba[2], bytes[at], bytes[at + 3])
            &&& shot is Output ==> rgba[3] == 255
            &&& !(shot is Output) ==> rgba[3] == bytes[at + 3]
        },
        shot is Output ==> density is None,
        !(shot is Output) ==> (density matches Some(scale) && scale_said(results) == Ok::<
            u32,
            ErrorView,
        >(scale)),
{
    let geometry = geometry_said(results)->Ok_0;
    let layout = Layout {
        offset: 0,
        stride: geometry.stride,
        width: geometry.width,
        height: geometry.height,
        flipped: false,
    };
    law_every_pixel_keeps_its_place(frame, bytes, layout, alpha_conversion(alpha_of(shot)), x, y);
}

/// A capture that announces all it needs, and sends all it announces, is read.
pub proof fn law_a_whole_capture_is_read(
    shot: Shot,
    results: Results,
    bytes: Seq<u8>,
    geometry: CaptureGeometry,
    capture: core::result::Result<(Frame, Option<u32>), VshotError>,
)
    requires
        reads_as(shot, results, bytes, capture),
        geometry_said(results) == Ok::<CaptureGeometry, ErrorView>(geometry),
        bytes.len() <= usize::MAX,
        geometry.width * 4 <= geometry.stride,
        geometry.stride * geometry.height <= bytes.len(),
        shot is Output || scale_said(results) is Ok,
    ensures
        capture is Ok,
{
}

/// Every capture is asked for with the cursor that was asked for and at the
/// device's resolution; only a window has a decoration, and only one that is
/// named by its handle goes without its shadow.
pub proof fn law_options_are_what_was_asked_for(shot: Shot)
    ensures
        ({
            let cursor = match shot {
                Shot::Output { name, cursor } => cursor,
                Shot::ActiveWindow { cursor } => cursor,
                Shot::Window { handle, cursor } => cursor,
            };
            let options = options_of(shot);
            &&& options.len() == if shot is Output {
                2int
            } else if shot is ActiveWindow {
                3
            } else {
                4
            }
            &&& options[0] == ("include-cursor", cursor)
            &&& options[1] == ("native-resolution", true)
            &&& !(shot is Output) ==> options[2] == ("include-decoration", true)
            &&& shot is Window ==> options[3] == ("include-shadow", false)
        }),
{
}

/// A refused capture is told apart from an unknown screen and a closed window
/// by the service's own name for the error; any other error is reported by its
/// name.
pub proof fn law_an_error_is_known_by_its_name(
    name: Seq<char>,
    detail: Option<Seq<char>>,
    target: Seq<char>,
    executable: Seq<char>,
)
    ensures
        ({
            let error = method_error(name, detail, target, executable);
            &&& error is ScreenshotDenied <==> name
                == "org.kde.KWin.ScreenShot2.Error.NoAuthorized"@
            &&& error is IncompleteTopology <==> name
                == "org.kde.KWin.ScreenShot2.Error.InvalidScreen"@
            &&& error is WindowClosed <==> name == "org.kde.KWin.ScreenShot2.Error.InvalidWindow"@
            &&& error is KwinScreenShot || error is ScreenshotDenied || error is IncompleteTopology
                || error is WindowClosed
        }),
{
    reveal_strlit("org.kde.KWin.ScreenShot2.Error.NoAuthorized");
    reveal_strlit("org.kde.KWin.ScreenShot2.Error.InvalidScreen");
    reveal_strlit("org.kde.KWin.ScreenShot2.Error.InvalidWindow");
    assert("org.kde.KWin.ScreenShot2.Error.NoAuthorized"@[31] == 'N');
    assert("org.kde.KWin.ScreenShot2.Error.InvalidScreen"@[38] == 'S');
    assert("org.kde.KWin.ScreenShot2.Error.InvalidWindow"@[38] == 'W');
    assert("org.kde.KWin.ScreenShot2.Error.InvalidScreen"@[31] == 'I');
    assert("org.kde.KWin.ScreenShot2.Error.InvalidWindow"@[31] == 'I');
}

/// The density of a window is the number that the reply announces, rounded to
/// the nearest, as far as it is at least one; without such a number there is
/// none.
pub proof fn law_a_density_is_the_announced_number(results: Results)
    ensures
        scale_said(results) is Ok <==> (results.value("scale"@) matches Some(
            ResultValue::Double { bits, .. },
        ) && 0x3ff0_0000_0000_0000 <= bits < 0x7ff0_0000_0000_0000),
        scale_said(results) matches Ok(scale) ==> (results.value("scale"@) matches Some(
            ResultValue::Double { bits, .. },
        ) && (scale == rounded_number(bits) || scale == 0xffff_ffff && rounded_number(bits)
            > 0xffff_ffff)),
{
    if let Some(ResultValue::Double { bits, .. }) = results.value("scale"@) {
        crate::binary64::law_a_number_is_rounded_to_the_nearest_integer(bits);
    }
}

/// An interface is offered exactly where the introspection data names it, in
/// quotes and as a whole.
pub proof fn law_an_interface_is_named_in_quotes(
    before: Seq<char>,
    interface: Seq<char>,
    behind: Seq<char>,
)
    ensures
        declares(before + ("name=\""@ + interface + "\""@) + behind, interface),
{
    let part = "name=\""@ + interface + "\""@;
    assert((before + part + behind).subrange(before.len() as int, (before.len() + part.len()) as int)
        =~= part);
    assert(crate::text::occurs_at(before + part + behind, part, before.len() as int));
}

} // verus!
