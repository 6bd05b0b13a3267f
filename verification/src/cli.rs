//! What a command line asks for.
//!
//! The flags arrive parsed; this is the part that decides what they mean
//! together, what a flag that was not given falls back to, and which
//! combinations make no sense.

use vstd::prelude::*;

use crate::config::{
    compression_default, remembered_compression, CliDefaults, LongDefaults, RecordDefaults,
    ReplayDefaults,
};
use crate::error::{settles, ErrorView, Result, VshotError};
use crate::geometry::{named_rect, not_a_rect, parse_geometry, Rect};
use crate::inject::Prefer;
use crate::longshot::{
    LongShotOptions, DEFAULT_IGNORE_TOP, DEFAULT_MAX_FRAMES, DEFAULT_MAX_HEIGHT, DEFAULT_NOTCHES,
    DEFAULT_TIMEOUT,
};
use crate::model::{compression_named, unknown_compression, PngCompression};
use crate::path::FilePath;
use crate::pin::{control_flags, pin_plan, PinInvocation};
use crate::record;
use crate::record::{
    default_encoder, default_encoder_backend, default_follow, default_fps, default_mic,
    default_portal, default_replay_encoder, default_replay_encoder_backend, default_replay_fps,
    default_replay_gop, default_replay_portal, default_replay_save_dir, default_replay_window,
    microphone, microphone_named, remembered_backend, remembered_codec,
    remembered_directory, remembered_follow, remembered_mic, remembered_u32, remembered_u64,
    EncoderBackend, MicChoice, RecordPlan, RecordRequest, RecordTarget, RegionTarget, ReplayPlan,
    ReplayRequest, VideoCodec, MAX_FPS, MAX_REPLAY_GOP, MAX_REPLAY_WINDOW, RECORD_FPS, REPLAY_FPS,
    REPLAY_GOP, REPLAY_WINDOW,
};
use crate::text::{concat3, trim, trimmed};

verus! {

// ---------------------------------------------------------------------------
// The command line
// ---------------------------------------------------------------------------
/// A parsed command line.
#[derive(Clone, Debug)]
pub struct Cli {
    pub command: Command,
    /// Draw the compositor cursor into the capture.
    pub cursor: bool,
    /// Write the result to this file; `-` is standard output.
    pub output: Option<FilePath>,
    /// Copy the result to the clipboard.
    pub clipboard: bool,
    /// Pin the captured image on screen.
    pub pin: bool,
    /// PNG compression level by name.
    pub png_compression: Option<String>,
}

/// A subcommand with its own flags.
#[derive(Clone, Debug)]
#[allow(inconsistent_fields)]
pub enum Command {
    /// Select a region from the frozen desktop, or take a fixed one.
    Region { geometry: Option<String>, interactive: bool },
    /// Capture one monitor by name, or `current`.
    Monitor { name: Option<String> },
    /// Capture the complete desktop.
    All,
    /// Capture the focused window, or pick one.
    Window { target: WindowTarget },
    /// Capture a region that scrolls.
    Long {
        geometry: Option<String>,
        notches: Option<u32>,
        max_height: Option<u32>,
        max_frames: Option<u32>,
        timeout: Option<u64>,
        ignore_top: Option<u32>,
        inject: Option<String>,
    },
    /// Manage pinned images.
    Pin {
        files: Vec<FilePath>,
        toggle: bool,
        show: bool,
        hide: bool,
        close_all: bool,
        quit: bool,
        list: bool,
        density: Option<u32>,
        apply: Option<FilePath>,
    },
    /// Edit the remembered settings in a window.
    Settings,
    /// Record the screen.
    Record {
        target: RecordTargetCommand,
        fps: Option<u32>,
        duration: Option<u64>,
        /// A blank name is the session's default source.
        mic: Option<String>,
        no_mic: bool,
        app_audio: bool,
        follow: Vec<String>,
        no_follow: bool,
        encoder: Option<String>,
        encoder_backend: Option<String>,
        portal: bool,
        no_portal: bool,
    },
    /// Keep a rolling window of the screen in memory.
    Replay {
        action: ReplayCommandLine,
        window: Option<u64>,
        fps: Option<u32>,
        gop: Option<u64>,
        encoder: Option<String>,
        encoder_backend: Option<String>,
        mic: Option<String>,
        no_mic: bool,
        app_audio: bool,
        follow: Vec<String>,
        no_follow: bool,
        save_dir: Option<FilePath>,
        background: bool,
    },
    /// Read the text out of a region of the screen.
    Ocr { geometry: Option<String>, interactive: bool, input: Option<FilePath> },
}

/// The flags of `record`, without what is recorded.
#[derive(Clone, Debug, Default)]
pub struct RecordFlags {
    pub fps: Option<u32>,
    pub duration: Option<u64>,
    pub mic: Option<String>,
    pub no_mic: bool,
    pub app_audio: bool,
    pub follow: Vec<String>,
    pub no_follow: bool,
    pub encoder: Option<String>,
    pub encoder_backend: Option<String>,
    pub portal: bool,
    pub no_portal: bool,
}

/// The flags of `replay`, without what it is to do.
#[derive(Clone, Debug, Default)]
pub struct ReplayFlags {
    pub window: Option<u64>,
    pub fps: Option<u32>,
    pub gop: Option<u64>,
    pub encoder: Option<String>,
    pub encoder_backend: Option<String>,
    pub mic: Option<String>,
    pub no_mic: bool,
    pub app_audio: bool,
    pub follow: Vec<String>,
    pub no_follow: bool,
    pub save_dir: Option<FilePath>,
    pub background: bool,
}

/// What `record` records, or one of its two read-only shapes.
#[derive(Clone, Debug)]
#[allow(inconsistent_fields)]
pub enum RecordTargetCommand {
    Monitor { name: String },
    All,
    Region { geometry: Option<String>, interactive: bool },
    Window { name: Option<String>, pick: bool },
    /// List the audio inputs.
    Mics,
    /// Stop the recording that is running.
    Stop,
}

/// What `replay` was asked to do.
#[derive(Clone, Debug)]
pub enum ReplayCommandLine {
    Start { target: ReplayTargetCommand },
    Save { path: Option<FilePath>, seconds: Option<u64> },
    Status,
    Stop,
}

/// What `replay start` keeps in the ring.
#[derive(Clone, Debug)]
#[allow(inconsistent_fields)]
pub enum ReplayTargetCommand {
    Monitor { name: String },
    All,
    Region { geometry: Option<String>, interactive: bool },
    Window { name: Option<String>, pick: bool },
}

/// Which window is captured.
#[derive(Clone, Copy, Debug, PartialEq, Eq)]
pub enum WindowTarget {
    /// The focused one.
    Active { pixel: bool, no_blend: bool },
    /// The one that is clicked.
    Pick { pixel: bool, no_blend: bool },
}

// ---------------------------------------------------------------------------
// What it asks for
// ---------------------------------------------------------------------------
/// Where a capture goes.
#[derive(Clone, Debug, Eq, PartialEq)]
pub enum Destination {
    File(FilePath),
    Stdout,
    Clipboard,
    Pin,
}

/// What to capture, and with which knobs.
#[derive(Clone, Debug, PartialEq, Eq)]
pub enum CaptureTarget {
    RegionFixed(Rect),
    RegionInteractive,
    Monitor(String),
    All,
    ActiveWindow {
        /// Detect the window from pixels instead of compositor metadata.
        pixel_detect: bool,
        /// Take niri's own window render as it is.
        no_blend: bool,
    },
    WindowPick {
        /// Take the candidates from the pixels instead of the window list.
        pixel_detect: bool,
        no_blend: bool,
    },
    LongShot {
        /// Fixed region; `None` asks the user to pick one.
        region: Option<Rect>,
        options: LongShotOptions,
        inject: Prefer,
    },
}

/// A capture.
#[derive(Clone, Debug, PartialEq, Eq)]
pub struct Request {
    pub target: CaptureTarget,
    pub destination: Destination,
    pub cursor: bool,
    pub compression: PngCompression,
}

/// What `vshot` was asked to do.
#[derive(Clone, Debug, PartialEq, Eq)]
pub enum Action {
    Capture(Request),
    Pin(PinInvocation),
    /// Render one pin-edit session and write the result back.
    PinApply(FilePath),
    /// Show the settings window.
    Settings,
    /// Read the text out of an image.
    Ocr { source: OcrSource, destination: OcrDestination },
    Record(RecordAction),
    Replay(ReplayAction),
}

/// What `vshot record` was asked to do.
#[derive(Clone, Debug, PartialEq, Eq)]
pub enum RecordAction {
    Start(RecordRequest),
    Mics,
    Stop,
}

/// What `vshot replay` was asked to do.
#[derive(Clone, Debug, PartialEq, Eq)]
pub enum ReplayAction {
    Start { request: Box<ReplayRequest>, background: bool },
    Save { path: Option<FilePath>, seconds: Option<u64> },
    Status,
    Stop,
}

/// Where `vshot ocr` gets its image.
#[derive(Clone, Debug, PartialEq, Eq)]
pub enum OcrSource {
    /// A region of the frozen screen, framed interactively.
    Screen,
    /// A fixed region of the frozen screen.
    Geometry(Rect),
    /// An image file.
    File(FilePath),
}

/// Where recognized text goes.
#[derive(Clone, Copy, Debug, PartialEq, Eq)]
pub enum OcrDestination {
    Stdout,
    Clipboard,
}

// ---------------------------------------------------------------------------
// The same, as plain values
// ---------------------------------------------------------------------------
/// What a [`CaptureTarget`] says.
pub enum TargetPlan {
    RegionFixed(Rect),
    RegionInteractive,
    Monitor(Seq<char>),
    All,
    ActiveWindow { pixel_detect: bool, no_blend: bool },
    WindowPick { pixel_detect: bool, no_blend: bool },
    LongShot { region: Option<Rect>, options: LongShotOptions, inject: Prefer },
}

impl View for CaptureTarget {
    type V = TargetPlan;

    open spec fn view(&self) -> TargetPlan {
        match *self {
            CaptureTarget::RegionFixed(rect) => TargetPlan::RegionFixed(rect),
            CaptureTarget::RegionInteractive => TargetPlan::RegionInteractive,
            CaptureTarget::Monitor(name) => TargetPlan::Monitor(name@),
            CaptureTarget::All => TargetPlan::All,
            CaptureTarget::ActiveWindow { pixel_detect, no_blend } => TargetPlan::ActiveWindow {
                pixel_detect,
                no_blend,
            },
            CaptureTarget::WindowPick { pixel_detect, no_blend } => TargetPlan::WindowPick {
                pixel_detect,
                no_blend,
            },
            CaptureTarget::LongShot { region, options, inject } => TargetPlan::LongShot {
                region,
                options,
                inject,
            },
        }
    }
}

/// What a [`Request`] says.
pub struct RequestPlan {
    pub target: TargetPlan,
    pub destination: Destination,
    pub cursor: bool,
    pub compression: PngCompression,
}

impl View for Request {
    type V = RequestPlan;

    open spec fn view(&self) -> RequestPlan {
        RequestPlan {
            target: self.target@,
            destination: self.destination,
            cursor: self.cursor,
            compression: self.compression,
        }
    }
}

/// What an [`Action`] says.
pub enum ActionPlan {
    Capture(RequestPlan),
    Pin(PinInvocation),
    PinApply(FilePath),
    Settings,
    Ocr { source: OcrSource, destination: OcrDestination },
    RecordStart(RecordPlan),
    RecordMics,
    RecordStop,
    ReplayStart { request: ReplayPlan, background: bool },
    ReplaySave { path: Option<FilePath>, seconds: Option<u64> },
    ReplayStatus,
    ReplayStop,
}

impl View for Action {
    type V = ActionPlan;

    open spec fn view(&self) -> ActionPlan {
        match *self {
            Action::Capture(request) => ActionPlan::Capture(request@),
            Action::Pin(invocation) => ActionPlan::Pin(invocation),
            Action::PinApply(session) => ActionPlan::PinApply(session),
            Action::Settings => ActionPlan::Settings,
            Action::Ocr { source, destination } => ActionPlan::Ocr { source, destination },
            Action::Record(RecordAction::Start(request)) => ActionPlan::RecordStart(request@),
            Action::Record(RecordAction::Mics) => ActionPlan::RecordMics,
            Action::Record(RecordAction::Stop) => ActionPlan::RecordStop,
            Action::Replay(ReplayAction::Start { request, background }) => ActionPlan::ReplayStart {
                request: (*request)@,
                background,
            },
            Action::Replay(ReplayAction::Save { path, seconds }) => ActionPlan::ReplaySave {
                path,
                seconds,
            },
            Action::Replay(ReplayAction::Status) => ActionPlan::ReplayStatus,
            Action::Replay(ReplayAction::Stop) => ActionPlan::ReplayStop,
        }
    }
}

/// Whether an action is what was to come out.
pub open spec fn settles_action(
    result: core::result::Result<Action, VshotError>,
    outcome: core::result::Result<ActionPlan, ErrorView>,
) -> bool {
    match result {
        Ok(action) => outcome == Ok::<ActionPlan, ErrorView>(action@),
        Err(error) => outcome == Err::<ActionPlan, ErrorView>(error@),
    }
}

fn refusal(text: &str) -> (error: VshotError)
    ensures
        error@ == ErrorView::InvalidDestination(text@),
{
    VshotError::InvalidDestination(text.to_owned())
}

// ---------------------------------------------------------------------------
// What is said when it makes no sense
// ---------------------------------------------------------------------------
pub const RECORD_HAS_A_FILE: &'static str =
    "--clipboard and --pin do not apply to the record subcommand; a recording is written to a file";

pub const STOP_TAKES_NOTHING: &'static str =
    "`record stop` takes no options: it signals the recording that is already running";

pub const MICS_TAKES_NOTHING: &'static str =
    "`record mics` takes no options: it lists the audio inputs a recording could take";

pub const PORTAL_IS_ONE_STREAM: &'static str =
    "`--portal` records one stream, and the compositor chooses which screen it is; record a single screen instead (`vshot record monitor --portal`)";

pub const PORTAL_HAS_NO_RECTANGLE: &'static str =
    "`--portal` records a whole screen or a whole window, not a rectangle of one; drop --portal to record a region, or record a screen instead";

pub const APP_AUDIO_NEEDS_A_WINDOW: &'static str =
    "`--app-audio` records the sound of one window's application, so it needs a window: `vshot record window --app-audio`";

pub const FOLLOW_NEEDS_A_WINDOW: &'static str =
    "`--follow` moves a window recording between windows, so it needs a window: `vshot record window --follow NAME`";

pub const PORTAL_LEARNS_NO_PROCESS: &'static str =
    "`--app-audio` needs the window's process, which a portal recording does not learn; drop --portal to record a window's own audio";

pub const EMPTY_MONITOR: &'static str = "monitor name cannot be empty";

pub const EMPTY_WINDOW: &'static str = "the window name cannot be empty";

pub const NAME_OR_PICK: &'static str =
    "`record window` takes a window name or `--pick`, not both";

pub const FOLLOW_TAKES_NO_WINDOW: &'static str =
    "`--follow` names the windows to move between, so it takes no window name or `--pick`: the focus decides which of them is recorded";

pub const REPLAY_HAS_NO_DESTINATION: &'static str =
    "--clipboard and --pin do not apply to the replay subcommand";

pub const SAVE_TAKES_A_PATH: &'static str =
    "`replay save` takes a PATH argument, not --output or --background";

pub const STATUS_TAKES_NOTHING: &'static str = "`replay status` takes no options";

pub const REPLAY_STOP_TAKES_NOTHING: &'static str = "`replay stop` takes no options";

pub const REPLAY_NAME_OR_PICK: &'static str =
    "`replay start window` takes a window name or `--pick`, not both";

pub const REPLAY_APP_AUDIO_NEEDS_A_WINDOW: &'static str =
    "`--app-audio` keeps one window's application's audio, so it needs a window: `vshot replay start window --app-audio`";

pub const REPLAY_PORTAL_LEARNS_NO_PROCESS: &'static str =
    "`--app-audio` needs the window's process, which a portal replay does not learn; drop --portal";

pub const REPLAY_FOLLOW_NEEDS_A_WINDOW: &'static str =
    "`--follow` moves a window replay between windows, so it needs a window: `vshot replay start window --follow NAME`";

pub const REPLAY_FOLLOW_TAKES_NO_WINDOW: &'static str =
    "`--follow` names the windows to move between, so it takes no window name or `--pick`: the focus decides which of them is replayed";

pub const SETTINGS_HAS_NO_DESTINATION: &'static str =
    "--output, --clipboard and --pin do not apply to the settings subcommand";

pub const OCR_GIVES_TEXT: &'static str =
    "--output and --pin do not apply to the ocr subcommand; the text goes to stdout, or to the clipboard with --clipboard";

pub const PIN_HAS_NO_DESTINATION: &'static str =
    "--output and --pin do not apply to the pin subcommand";

pub const ONE_DESTINATION: &'static str =
    "--output, --clipboard and --pin are mutually exclusive";

pub const PIN_IS_NO_TARGET: &'static str = "the pin subcommand is not a capture target";

pub const SETTINGS_IS_NO_TARGET: &'static str = "the settings subcommand is not a capture target";

pub const OCR_IS_NO_TARGET: &'static str = "the ocr subcommand is not a capture target";

pub const RECORD_IS_NO_TARGET: &'static str =
    "the record subcommand is not a screenshot capture target";

pub const REPLAY_IS_NO_TARGET: &'static str =
    "the replay subcommand is not a screenshot capture target";

/// What an unknown codec is refused with.
pub open spec fn unknown_codec(word: Seq<char>) -> Seq<char> {
    "unknown encoder `"@ + word + "`: pick h264, hevc or av1"@
}

/// What an unknown encoder is refused with.
pub open spec fn unknown_backend(word: Seq<char>) -> Seq<char> {
    "unknown encoder backend `"@ + word + "`: pick auto, vaapi, vulkan or nvenc"@
}

// ---------------------------------------------------------------------------
// Pieces that several commands share
// ---------------------------------------------------------------------------
/// Whether a name says nothing.
pub open spec fn blank(name: Seq<char>) -> bool {
    trimmed(name).len() == 0
}

fn is_blank(name: &String) -> (empty: bool)
    ensures
        empty == blank(name@),
{
    trim(name.as_str()).as_str().is_empty()
}

/// The output a name stands for.
pub open spec fn chosen_monitor(name: String) -> core::result::Result<RecordTarget, ErrorView> {
    if blank(name@) {
        Err(ErrorView::InvalidDestination(EMPTY_MONITOR@))
    } else {
        Ok(RecordTarget::Monitor(name))
    }
}

fn choose_monitor(name: String) -> (target: Result<RecordTarget>)
    ensures
        settles(target, chosen_monitor(name)),
{
    if is_blank(&name) {
        Err(refusal(EMPTY_MONITOR))
    } else {
        Ok(RecordTarget::Monitor(name))
    }
}

/// The rectangle a `--geometry` stands for.
pub open spec fn fixed_rect(geometry: String) -> core::result::Result<Rect, ErrorView> {
    match named_rect(geometry@) {
        Some(rect) => Ok(rect),
        None => Err(ErrorView::InvalidGeometry(not_a_rect(geometry@))),
    }
}

fn fix_rect(geometry: &String) -> (rect: Result<Rect>)
    ensures
        settles(rect, fixed_rect(*geometry)),
{
    parse_geometry(geometry.as_str())
}

/// The rectangle that is recorded: a fixed one, or one that is picked.
pub open spec fn chosen_region(geometry: Option<String>) -> core::result::Result<
    RecordTarget,
    ErrorView,
> {
    match geometry {
        Some(geometry) => match fixed_rect(geometry) {
            Ok(rect) => Ok(RecordTarget::Region(RegionTarget::Fixed(rect))),
            Err(why) => Err(why),
        },
        None => Ok(RecordTarget::Region(RegionTarget::Pick)),
    }
}

fn choose_region(geometry: Option<String>) -> (target: Result<RecordTarget>)
    ensures
        settles(target, chosen_region(geometry)),
{
    match geometry {
        Some(geometry) => match fix_rect(&geometry) {
            Ok(rect) => Ok(RecordTarget::Region(RegionTarget::Fixed(rect))),
            Err(error) => Err(error),
        },
        None => Ok(RecordTarget::Region(RegionTarget::Pick)),
    }
}

/// The window that is recorded: picked, named, or the focused one.
pub open spec fn chosen_window(name: Option<String>, pick: bool) -> core::result::Result<
    RecordTarget,
    ErrorView,
> {
    if pick {
        Ok(RecordTarget::Window(record::WindowTarget::Pick))
    } else {
        match name {
            Some(filter) => if blank(filter@) {
                Err(ErrorView::InvalidDestination(EMPTY_WINDOW@))
            } else {
                Ok(RecordTarget::Window(record::WindowTarget::Filter(filter)))
            },
            None => Ok(RecordTarget::Window(record::WindowTarget::Active)),
        }
    }
}

fn choose_window(name: Option<String>, pick: bool) -> (target: Result<RecordTarget>)
    ensures
        settles(target, chosen_window(name, pick)),
{
    if pick {
        return Ok(RecordTarget::Window(record::WindowTarget::Pick));
    }
    match name {
        Some(filter) => if is_blank(&filter) {
            Err(refusal(EMPTY_WINDOW))
        } else {
            Ok(RecordTarget::Window(record::WindowTarget::Filter(filter)))
        },
        None => Ok(RecordTarget::Window(record::WindowTarget::Active)),
    }
}

/// Whether the target is a window, whichever it is.
pub open spec fn is_window(target: RecordTarget) -> bool {
    target is Window
}

/// Whether the target is the focused window.
pub open spec fn is_bare_window(target: RecordTarget) -> bool {
    target matches RecordTarget::Window(window) && window is Active
}

/// The windows to follow: the list that was given, or the remembered one for a
/// plain window; `--no-follow` clears both.
pub open spec fn followed(
    no_follow: bool,
    given: Seq<String>,
    target: RecordTarget,
    remembered: Option<Vec<String>>,
) -> Seq<String> {
    if no_follow {
        Seq::empty()
    } else if given.len() > 0 {
        given
    } else if is_bare_window(target) {
        remembered_follow(remembered)
    } else {
        Seq::empty()
    }
}

fn follow_list(
    no_follow: bool,
    given: Vec<String>,
    target: &RecordTarget,
    remembered: Option<Vec<String>>,
) -> (windows: Vec<String>)
    ensures
        windows@ == followed(no_follow, given@, *target, remembered),
{
    if no_follow {
        return Vec::new();
    }
    if given.len() > 0 {
        return given;
    }
    match target {
        RecordTarget::Window(record::WindowTarget::Active) => default_follow(remembered),
        _ => Vec::new(),
    }
}

/// The codec: the one that was asked for, or what it falls back to.
pub open spec fn chosen_codec(
    word: Option<String>,
    fallback: VideoCodec,
) -> core::result::Result<VideoCodec, ErrorView> {
    match word {
        Some(word) => match VideoCodec::named(word@) {
            Some(codec) => Ok(codec),
            None => Err(ErrorView::InvalidDestination(unknown_codec(word@))),
        },
        None => Ok(fallback),
    }
}

fn choose_codec(word: &Option<String>, fallback: VideoCodec) -> (codec: Result<VideoCodec>)
    ensures
        settles(codec, chosen_codec(*word, fallback)),
{
    match word {
        Some(word) => match VideoCodec::parse(word.as_str()) {
            Some(codec) => Ok(codec),
            None => Err(
                VshotError::InvalidDestination(
                    concat3("unknown encoder `", word.as_str(), "`: pick h264, hevc or av1"),
                ),
            ),
        },
        None => Ok(fallback),
    }
}

/// The encoder: the one that was asked for, or what it falls back to.
pub open spec fn chosen_backend(
    word: Option<String>,
    fallback: EncoderBackend,
) -> core::result::Result<EncoderBackend, ErrorView> {
    match word {
        Some(word) => match EncoderBackend::named(word@) {
            Some(backend) => Ok(backend),
            None => Err(ErrorView::InvalidDestination(unknown_backend(word@))),
        },
        None => Ok(fallback),
    }
}

fn choose_backend(word: &Option<String>, fallback: EncoderBackend) -> (backend: Result<
    EncoderBackend,
>)
    ensures
        settles(backend, chosen_backend(*word, fallback)),
{
    match word {
        Some(word) => match EncoderBackend::parse(word.as_str()) {
            Some(backend) => Ok(backend),
            None => Err(
                VshotError::InvalidDestination(
                    concat3(
                        "unknown encoder backend `",
                        word.as_str(),
                        "`: pick auto, vaapi, vulkan or nvenc",
                    ),
                ),
            ),
        },
        None => Ok(fallback),
    }
}

/// The microphone: `--no-mic` is none, `--mic` the one it names, and neither
/// the remembered one.
pub open spec fn chosen_mic(no_mic: bool, mic: Option<String>, remembered: Option<String>) -> Option<
    MicChoice,
> {
    if no_mic {
        None
    } else {
        match mic {
            Some(name) => Some(microphone(name)),
            None => remembered_mic(remembered),
        }
    }
}

fn choose_mic(no_mic: bool, mic: Option<String>, remembered: Option<String>) -> (choice: Option<
    MicChoice,
>)
    ensures
        choice == chosen_mic(no_mic, mic, remembered),
{
    if no_mic {
        return None;
    }
    match mic {
        Some(name) => Some(microphone_named(name)),
        None => default_mic(remembered),
    }
}

// ---------------------------------------------------------------------------
// Recording
// ---------------------------------------------------------------------------
/// Where the global flags send a result.
#[derive(Clone, Debug)]
pub struct Globals {
    pub cursor: bool,
    pub output: Option<FilePath>,
    pub clipboard: bool,
    pub pin: bool,
}

/// Whether any option of a recording was given.
pub open spec fn option_given(output: Option<FilePath>, flags: RecordFlags) -> bool {
    ||| output is Some
    ||| flags.fps is Some
    ||| flags.duration is Some
    ||| flags.encoder is Some
    ||| flags.encoder_backend is Some
    ||| flags.portal
    ||| flags.no_portal
    ||| flags.mic is Some
    ||| flags.no_mic
    ||| flags.app_audio
    ||| flags.follow@.len() > 0
    ||| flags.no_follow
}

fn has_option(output: &Option<FilePath>, flags: &RecordFlags) -> (given: bool)
    ensures
        given == option_given(*output, *flags),
{
    output.is_some() || flags.fps.is_some() || flags.duration.is_some() || flags.encoder.is_some()
        || flags.encoder_backend.is_some() || flags.portal || flags.no_portal || flags.mic.is_some()
        || flags.no_mic || flags.app_audio || flags.follow.len() > 0 || flags.no_follow
}

/// Whether a recording goes through the portal: `--no-portal`, then
/// `--portal`, then what is remembered.
pub open spec fn through_portal(flags: RecordFlags, defaults: RecordDefaults) -> bool {
    if flags.no_portal {
        false
    } else {
        flags.portal || defaults.portal == Some(true)
    }
}

/// What cannot be recorded with these flags, if anything: the portal offers
/// neither the whole desktop nor a rectangle, and the sound of an application
/// and the windows to follow both need a window.
pub open spec fn record_refusal(
    target: RecordTargetCommand,
    flags: RecordFlags,
    portal: bool,
) -> Option<Seq<char>> {
    if portal && target is All {
        Some(PORTAL_IS_ONE_STREAM@)
    } else if portal && target is Region {
        Some(PORTAL_HAS_NO_RECTANGLE@)
    } else if flags.app_audio && !(target is Window) {
        Some(APP_AUDIO_NEEDS_A_WINDOW@)
    } else if flags.follow@.len() > 0 && !(target is Window) {
        Some(FOLLOW_NEEDS_A_WINDOW@)
    } else if flags.app_audio && portal {
        Some(PORTAL_LEARNS_NO_PROCESS@)
    } else {
        None
    }
}

fn refuse_record(target: &RecordTargetCommand, flags: &RecordFlags, portal: bool) -> (refused:
    Option<&'static str>)
    ensures
        match refused {
            Some(text) => record_refusal(*target, *flags, portal) == Some(text@),
            None => record_refusal(*target, *flags, portal) is None,
        },
{
    let window = match target {
        RecordTargetCommand::Window { .. } => true,
        _ => false,
    };
    if portal {
        match target {
            RecordTargetCommand::All => {
                return Some(PORTAL_IS_ONE_STREAM);
            },
            RecordTargetCommand::Region { .. } => {
                return Some(PORTAL_HAS_NO_RECTANGLE);
            },
            _ => {},
        }
    }
    if flags.app_audio && !window {
        Some(APP_AUDIO_NEEDS_A_WINDOW)
    } else if flags.follow.len() > 0 && !window {
        Some(FOLLOW_NEEDS_A_WINDOW)
    } else if flags.app_audio && portal {
        Some(PORTAL_LEARNS_NO_PROCESS)
    } else {
        None
    }
}

/// What is recorded, when it is anything: neither of the read-only shapes is.
pub open spec fn recorded(target: RecordTargetCommand, follows: bool) -> core::result::Result<
    RecordTarget,
    ErrorView,
> {
    match target {
        RecordTargetCommand::Monitor { name } => chosen_monitor(name),
        RecordTargetCommand::All => Ok(RecordTarget::All),
        RecordTargetCommand::Region { geometry, interactive } => chosen_region(geometry),
        RecordTargetCommand::Window { name, pick } => if pick && name is Some {
            Err(ErrorView::InvalidDestination(NAME_OR_PICK@))
        } else if follows && (name is Some || pick) {
            Err(ErrorView::InvalidDestination(FOLLOW_TAKES_NO_WINDOW@))
        } else {
            chosen_window(name, pick)
        },
        RecordTargetCommand::Mics => Err(ErrorView::InvalidDestination(MICS_TAKES_NOTHING@)),
        RecordTargetCommand::Stop => Err(ErrorView::InvalidDestination(STOP_TAKES_NOTHING@)),
    }
}

fn choose_recorded(target: RecordTargetCommand, follows: bool) -> (chosen: Result<RecordTarget>)
    ensures
        settles(chosen, recorded(target, follows)),
{
    match target {
        RecordTargetCommand::Monitor { name } => choose_monitor(name),
        RecordTargetCommand::All => Ok(RecordTarget::All),
        RecordTargetCommand::Region { geometry, interactive: _ } => choose_region(geometry),
        RecordTargetCommand::Window { name, pick } => {
            if pick && name.is_some() {
                return Err(refusal(NAME_OR_PICK));
            }
            if follows && (name.is_some() || pick) {
                return Err(refusal(FOLLOW_TAKES_NO_WINDOW));
            }
            choose_window(name, pick)
        },
        RecordTargetCommand::Mics => Err(refusal(MICS_TAKES_NOTHING)),
        RecordTargetCommand::Stop => Err(refusal(STOP_TAKES_NOTHING)),
    }
}

/// The recording that `record` starts.
pub open spec fn record_plan(
    globals: Globals,
    target: RecordTargetCommand,
    flags: RecordFlags,
    defaults: RecordDefaults,
) -> core::result::Result<RecordPlan, ErrorView> {
    let portal = through_portal(flags, defaults);
    match record_refusal(target, flags, portal) {
        Some(said) => Err(ErrorView::InvalidDestination(said)),
        None => match recorded(target, flags.follow@.len() > 0) {
            Err(why) => Err(why),
            Ok(target) => match chosen_codec(flags.encoder, remembered_codec(defaults.encoder)) {
                Err(why) => Err(why),
                Ok(encoder) => match chosen_backend(
                    flags.encoder_backend,
                    remembered_backend(defaults.encoder_backend),
                ) {
                    Err(why) => Err(why),
                    Ok(encoder_backend) => Ok(
                        RecordPlan {
                            target,
                            output: globals.output,
                            fps: match flags.fps {
                                Some(fps) => fps,
                                None => remembered_u32(defaults.fps, MAX_FPS, RECORD_FPS),
                            },
                            cursor: globals.cursor,
                            duration: flags.duration,
                            encoder,
                            encoder_backend,
                            portal,
                            mic: chosen_mic(flags.no_mic, flags.mic, defaults.mic),
                            app_audio: flags.app_audio,
                            follow: followed(
                                flags.no_follow,
                                flags.follow@,
                                target,
                                defaults.follow,
                            ),
                        },
                    ),
                },
            },
        },
    }
}

/// What `record` is asked to do.
pub open spec fn record_action(
    globals: Globals,
    target: RecordTargetCommand,
    flags: RecordFlags,
    defaults: RecordDefaults,
) -> core::result::Result<ActionPlan, ErrorView> {
    if globals.pin || globals.clipboard {
        Err(ErrorView::InvalidDestination(RECORD_HAS_A_FILE@))
    } else if target is Stop {
        if option_given(globals.output, flags) {
            Err(ErrorView::InvalidDestination(STOP_TAKES_NOTHING@))
        } else {
            Ok(ActionPlan::RecordStop)
        }
    } else if target is Mics {
        if option_given(globals.output, flags) {
            Err(ErrorView::InvalidDestination(MICS_TAKES_NOTHING@))
        } else {
            Ok(ActionPlan::RecordMics)
        }
    } else {
        match record_plan(globals, target, flags, defaults) {
            Ok(plan) => Ok(ActionPlan::RecordStart(plan)),
            Err(why) => Err(why),
        }
    }
}

fn plan_recording(
    globals: Globals,
    target: RecordTargetCommand,
    flags: RecordFlags,
    defaults: RecordDefaults,
) -> (request: Result<RecordRequest>)
    ensures
        match request {
            Ok(request) => record_plan(globals, target, flags, defaults) == Ok::<
                RecordPlan,
                ErrorView,
            >(request@),
            Err(error) => record_plan(globals, target, flags, defaults) == Err::<RecordPlan, ErrorView>(error@),
        },
{
    let portal = if flags.no_portal {
        false
    } else {
        flags.portal || default_portal(&defaults)
    };
    if let Some(said) = refuse_record(&target, &flags, portal) {
        return Err(refusal(said));
    }
    let target = match choose_recorded(target, flags.follow.len() > 0) {
        Ok(target) => target,
        Err(error) => {
            return Err(error);
        },
    };
    let encoder = match choose_codec(&flags.encoder, default_encoder(&defaults)) {
        Ok(encoder) => encoder,
        Err(error) => {
            return Err(error);
        },
    };
    let encoder_backend = match choose_backend(
        &flags.encoder_backend,
        default_encoder_backend(&defaults),
    ) {
        Ok(backend) => backend,
        Err(error) => {
            return Err(error);
        },
    };
    let fps: u32 = match flags.fps {
        Some(fps) => fps,
        None => default_fps(&defaults),
    };
    let mic = choose_mic(flags.no_mic, flags.mic, defaults.mic);
    let follow = follow_list(flags.no_follow, flags.follow, &target, defaults.follow);
    Ok(
        RecordRequest {
            target,
            output: globals.output,
            fps,
            cursor: globals.cursor,
            duration: flags.duration,
            encoder,
            encoder_backend,
            portal,
            mic,
            app_audio: flags.app_audio,
            follow,
        },
    )
}

fn parse_record(
    globals: Globals,
    target: RecordTargetCommand,
    flags: RecordFlags,
    defaults: RecordDefaults,
) -> (action: Result<Action>)
    ensures
        settles_action(action, record_action(globals, target, flags, defaults)),
{
    // A recording is a file, not an image.
    if globals.pin || globals.clipboard {
        return Err(refusal(RECORD_HAS_A_FILE));
    }
    match target {
        RecordTargetCommand::Stop => {
            if has_option(&globals.output, &flags) {
                return Err(refusal(STOP_TAKES_NOTHING));
            }
            return Ok(Action::Record(RecordAction::Stop));
        },
        RecordTargetCommand::Mics => {
            if has_option(&globals.output, &flags) {
                return Err(refusal(MICS_TAKES_NOTHING));
            }
            return Ok(Action::Record(RecordAction::Mics));
        },
        _ => {},
    }
    match plan_recording(globals, target, flags, defaults) {
        Ok(request) => Ok(Action::Record(RecordAction::Start(request))),
        Err(error) => Err(error),
    }
}

// ---------------------------------------------------------------------------
// Replaying
// ---------------------------------------------------------------------------
/// What the ring keeps.
pub open spec fn replayed(target: ReplayTargetCommand) -> core::result::Result<
    RecordTarget,
    ErrorView,
> {
    match target {
        ReplayTargetCommand::Monitor { name } => chosen_monitor(name),
        ReplayTargetCommand::All => Ok(RecordTarget::All),
        ReplayTargetCommand::Region { geometry, interactive } => chosen_region(geometry),
        ReplayTargetCommand::Window { name, pick } => if pick && name is Some {
            Err(ErrorView::InvalidDestination(REPLAY_NAME_OR_PICK@))
        } else {
            chosen_window(name, pick)
        },
    }
}

fn choose_replayed(target: ReplayTargetCommand) -> (chosen: Result<RecordTarget>)
    ensures
        settles(chosen, replayed(target)),
{
    match target {
        ReplayTargetCommand::Monitor { name } => choose_monitor(name),
        ReplayTargetCommand::All => Ok(RecordTarget::All),
        ReplayTargetCommand::Region { geometry, interactive: _ } => choose_region(geometry),
        ReplayTargetCommand::Window { name, pick } => {
            if pick && name.is_some() {
                return Err(refusal(REPLAY_NAME_OR_PICK));
            }
            choose_window(name, pick)
        },
    }
}

/// What cannot be replayed with these flags, if anything.
pub open spec fn replay_refusal(
    target: RecordTarget,
    flags: ReplayFlags,
    defaults: ReplayDefaults,
) -> Option<Seq<char>> {
    let windows = followed(flags.no_follow, flags.follow@, target, defaults.follow);
    if flags.app_audio && !is_window(target) {
        Some(REPLAY_APP_AUDIO_NEEDS_A_WINDOW@)
    } else if flags.app_audio && defaults.portal == Some(true) {
        Some(REPLAY_PORTAL_LEARNS_NO_PROCESS@)
    } else if flags.follow@.len() > 0 && !is_window(target) {
        Some(REPLAY_FOLLOW_NEEDS_A_WINDOW@)
    } else if windows.len() > 0 && is_window(target) && !is_bare_window(target) {
        Some(REPLAY_FOLLOW_TAKES_NO_WINDOW@)
    } else {
        None
    }
}

/// The session that `replay start` starts.
pub open spec fn replay_plan(
    cursor: bool,
    target: ReplayTargetCommand,
    flags: ReplayFlags,
    defaults: ReplayDefaults,
) -> core::result::Result<ReplayPlan, ErrorView> {
    match replayed(target) {
        Err(why) => Err(why),
        Ok(target) => match chosen_codec(flags.encoder, remembered_codec(defaults.encoder)) {
            Err(why) => Err(why),
            Ok(encoder) => match chosen_backend(
                flags.encoder_backend,
                remembered_backend(defaults.encoder_backend),
            ) {
                Err(why) => Err(why),
                Ok(encoder_backend) => match replay_refusal(target, flags, defaults) {
                    Some(said) => Err(ErrorView::InvalidDestination(said)),
                    None => Ok(
                        ReplayPlan {
                            target,
                            window: match flags.window {
                                Some(window) => window,
                                None => remembered_u64(
                                    defaults.window,
                                    MAX_REPLAY_WINDOW,
                                    REPLAY_WINDOW,
                                ),
                            },
                            fps: match flags.fps {
                                Some(fps) => fps,
                                None => remembered_u32(defaults.fps, MAX_FPS, REPLAY_FPS),
                            },
                            encoder,
                            encoder_backend,
                            cursor,
                            mic: chosen_mic(flags.no_mic, flags.mic, defaults.mic),
                            app_audio: flags.app_audio,
                            follow: followed(
                                flags.no_follow,
                                flags.follow@,
                                target,
                                defaults.follow,
                            ),
                            portal: defaults.portal == Some(true),
                            save_dir: match flags.save_dir {
                                Some(directory) => Some(directory@),
                                None => remembered_directory(defaults.save_dir),
                            },
                            gop_secs: match flags.gop {
                                Some(gop) => gop,
                                None => remembered_u64(defaults.gop, MAX_REPLAY_GOP, REPLAY_GOP),
                            },
                        },
                    ),
                },
            },
        },
    }
}

/// What `replay` is asked to do.
pub open spec fn replay_action(
    globals: Globals,
    action: ReplayCommandLine,
    flags: ReplayFlags,
    defaults: ReplayDefaults,
) -> core::result::Result<ActionPlan, ErrorView> {
    let option = globals.output is Some || flags.background;
    if globals.pin || globals.clipboard {
        Err(ErrorView::InvalidDestination(REPLAY_HAS_NO_DESTINATION@))
    } else {
        match action {
            ReplayCommandLine::Save { path, seconds } => if option {
                Err(ErrorView::InvalidDestination(SAVE_TAKES_A_PATH@))
            } else {
                Ok(ActionPlan::ReplaySave { path, seconds })
            },
            ReplayCommandLine::Status => if option {
                Err(ErrorView::InvalidDestination(STATUS_TAKES_NOTHING@))
            } else {
                Ok(ActionPlan::ReplayStatus)
            },
            ReplayCommandLine::Stop => if option {
                Err(ErrorView::InvalidDestination(REPLAY_STOP_TAKES_NOTHING@))
            } else {
                Ok(ActionPlan::ReplayStop)
            },
            ReplayCommandLine::Start { target } => match replay_plan(
                globals.cursor,
                target,
                flags,
                defaults,
            ) {
                Ok(request) => Ok(
                    ActionPlan::ReplayStart { request, background: flags.background },
                ),
                Err(why) => Err(why),
            },
        }
    }
}

fn plan_replay(
    cursor: bool,
    target: ReplayTargetCommand,
    flags: ReplayFlags,
    defaults: ReplayDefaults,
) -> (request: Result<ReplayRequest>)
    ensures
        match request {
            Ok(request) => replay_plan(cursor, target, flags, defaults) == Ok::<
                ReplayPlan,
                ErrorView,
            >(request@),
            Err(error) => replay_plan(cursor, target, flags, defaults) == Err::<ReplayPlan, ErrorView>(error@),
        },
{
    let target = match choose_replayed(target) {
        Ok(target) => target,
        Err(error) => {
            return Err(error);
        },
    };
    let encoder = match choose_codec(&flags.encoder, default_replay_encoder(&defaults)) {
        Ok(encoder) => encoder,
        Err(error) => {
            return Err(error);
        },
    };
    let encoder_backend = match choose_backend(
        &flags.encoder_backend,
        default_replay_encoder_backend(&defaults),
    ) {
        Ok(backend) => backend,
        Err(error) => {
            return Err(error);
        },
    };
    let (window_target, bare_window) = match &target {
        RecordTarget::Window(record::WindowTarget::Active) => (true, true),
        RecordTarget::Window(_) => (true, false),
        _ => (false, false),
    };
    let portal = default_replay_portal(&defaults);
    if flags.app_audio && !window_target {
        return Err(refusal(REPLAY_APP_AUDIO_NEEDS_A_WINDOW));
    }
    if flags.app_audio && portal {
        return Err(refusal(REPLAY_PORTAL_LEARNS_NO_PROCESS));
    }
    if flags.follow.len() > 0 && !window_target {
        return Err(refusal(REPLAY_FOLLOW_NEEDS_A_WINDOW));
    }
    let window: u64 = match flags.window {
        Some(window) => window,
        None => default_replay_window(&defaults),
    };
    let fps: u32 = match flags.fps {
        Some(fps) => fps,
        None => default_replay_fps(&defaults),
    };
    let gop_secs: u64 = match flags.gop {
        Some(gop) => gop,
        None => default_replay_gop(&defaults),
    };
    let save_dir = match flags.save_dir {
        Some(directory) => Some(directory),
        None => default_replay_save_dir(&defaults),
    };
    let mic = choose_mic(flags.no_mic, flags.mic, defaults.mic);
    let follow = follow_list(flags.no_follow, flags.follow, &target, defaults.follow);
    if follow.len() > 0 && window_target && !bare_window {
        return Err(refusal(REPLAY_FOLLOW_TAKES_NO_WINDOW));
    }
    Ok(
        ReplayRequest {
            target,
            window,
            fps,
            encoder,
            encoder_backend,
            cursor,
            mic,
            app_audio: flags.app_audio,
            follow,
            portal,
            save_dir,
            gop_secs,
        },
    )
}

fn parse_replay(
    globals: Globals,
    action: ReplayCommandLine,
    flags: ReplayFlags,
    defaults: ReplayDefaults,
) -> (parsed: Result<Action>)
    ensures
        settles_action(parsed, replay_action(globals, action, flags, defaults)),
{
    if globals.pin || globals.clipboard {
        return Err(refusal(REPLAY_HAS_NO_DESTINATION));
    }
    let option = globals.output.is_some() || flags.background;
    match action {
        ReplayCommandLine::Save { path, seconds } => {
            if option {
                return Err(refusal(SAVE_TAKES_A_PATH));
            }
            Ok(Action::Replay(ReplayAction::Save { path, seconds }))
        },
        ReplayCommandLine::Status => {
            if option {
                return Err(refusal(STATUS_TAKES_NOTHING));
            }
            Ok(Action::Replay(ReplayAction::Status))
        },
        ReplayCommandLine::Stop => {
            if option {
                return Err(refusal(REPLAY_STOP_TAKES_NOTHING));
            }
            Ok(Action::Replay(ReplayAction::Stop))
        },
        ReplayCommandLine::Start { target } => {
            let background = flags.background;
            match plan_replay(globals.cursor, target, flags, defaults) {
                Ok(request) => Ok(
                    Action::Replay(ReplayAction::Start { request: Box::new(request), background }),
                ),
                Err(error) => Err(error),
            }
        },
    }
}

// ---------------------------------------------------------------------------
// Capturing
// ---------------------------------------------------------------------------
/// Where a capture goes: exactly one of the three.
pub open spec fn chosen_destination(
    output: Option<FilePath>,
    clipboard: bool,
    pin: bool,
) -> core::result::Result<Destination, ErrorView> {
    match (output, clipboard, pin) {
        (Some(path), false, false) => if path.dash() {
            Ok(Destination::Stdout)
        } else {
            Ok(Destination::File(path))
        },
        (None, true, false) => Ok(Destination::Clipboard),
        (None, false, true) => Ok(Destination::Pin),
        (None, false, false) => Err(ErrorView::MissingDestination),
        _ => Err(ErrorView::InvalidDestination(ONE_DESTINATION@)),
    }
}

fn choose_destination(output: Option<FilePath>, clipboard: bool, pin: bool) -> (destination: Result<
    Destination,
>)
    ensures
        settles(destination, chosen_destination(output, clipboard, pin)),
{
    match (output, clipboard, pin) {
        (Some(path), false, false) => if path.is_dash() {
            Ok(Destination::Stdout)
        } else {
            Ok(Destination::File(path))
        },
        (None, true, false) => Ok(Destination::Clipboard),
        (None, false, true) => Ok(Destination::Pin),
        (None, false, false) => Err(VshotError::MissingDestination),
        _ => Err(refusal(ONE_DESTINATION)),
    }
}

/// The compression: the flag, then what is remembered, then the built-in one.
pub open spec fn chosen_compression(flag: Option<String>, remembered: Option<String>) -> core::result::Result<
    PngCompression,
    ErrorView,
> {
    match flag {
        Some(name) => match compression_named(name@) {
            Some(compression) => Ok(compression),
            None => Err(ErrorView::InvalidDestination(unknown_compression(name@))),
        },
        None => match remembered_compression(remembered) {
            Some(compression) => Ok(compression),
            None => Ok(PngCompression::Fast),
        },
    }
}

fn choose_compression(flag: &Option<String>, defaults: &CliDefaults) -> (compression: Result<
    PngCompression,
>)
    ensures
        settles(compression, chosen_compression(*flag, defaults.png_compression)),
{
    match flag {
        Some(name) => PngCompression::parse(name.as_str()),
        None => match compression_default(defaults) {
            Some(compression) => Ok(compression),
            None => Ok(PngCompression::default()),
        },
    }
}

/// The first of the three that is there.
pub open spec fn first_of<T>(flag: Option<T>, remembered: Option<T>, built_in: T) -> T {
    match flag {
        Some(value) => value,
        None => match remembered {
            Some(value) => value,
            None => built_in,
        },
    }
}

fn first_value<T>(flag: Option<T>, remembered: Option<T>, built_in: T) -> (value: T)
    ensures
        value == first_of(flag, remembered, built_in),
{
    match flag {
        Some(value) => value,
        None => match remembered {
            Some(value) => value,
            None => built_in,
        },
    }
}

/// The output a capture of one monitor is aimed at: the one that is named, then
/// the one that is remembered, then the one under the pointer.  A remembered
/// name that is blank counts as none.
pub open spec fn captured_monitor(name: Option<String>, remembered: Option<String>) -> core::result::Result<
    Seq<char>,
    ErrorView,
> {
    match name {
        Some(name) => if blank(name@) {
            Err(ErrorView::InvalidDestination(EMPTY_MONITOR@))
        } else {
            Ok(name@)
        },
        None => match remembered {
            Some(name) => if blank(name@) {
                Ok("current"@)
            } else {
                Ok(name@)
            },
            None => Ok("current"@),
        },
    }
}

fn pick_monitor(name: Option<String>, remembered: Option<String>) -> (monitor: Result<String>)
    ensures
        match monitor {
            Ok(monitor) => captured_monitor(name, remembered) == Ok::<Seq<char>, ErrorView>(monitor@),
            Err(error) => captured_monitor(name, remembered) == Err::<Seq<char>, ErrorView>(error@),
        },
{
    match name {
        Some(name) => if is_blank(&name) {
            Err(refusal(EMPTY_MONITOR))
        } else {
            Ok(name)
        },
        None => match remembered {
            Some(name) => if is_blank(&name) {
                Ok("current".to_owned())
            } else {
                Ok(name)
            },
            None => Ok("current".to_owned()),
        },
    }
}

/// The wheel backend: the flag, then what is remembered, then whichever works.
/// A remembered name that no backend has counts as none.
pub open spec fn chosen_wheel(flag: Option<String>, remembered: Option<String>) -> core::result::Result<
    Prefer,
    ErrorView,
> {
    match flag {
        Some(name) => match Prefer::named(name@) {
            Some(wheel) => Ok(wheel),
            None => Err(ErrorView::InvalidDestination(Prefer::unknown(name@))),
        },
        None => match remembered {
            Some(name) => match Prefer::named(name@) {
                Some(wheel) => Ok(wheel),
                None => Ok(Prefer::Auto),
            },
            None => Ok(Prefer::Auto),
        },
    }
}

fn choose_wheel(flag: Option<String>, remembered: Option<String>) -> (wheel: Result<Prefer>)
    ensures
        settles(wheel, chosen_wheel(flag, remembered)),
{
    match flag {
        Some(name) => Prefer::parse(name.as_str()),
        None => match remembered {
            Some(name) => match Prefer::parse(name.as_str()) {
                Ok(wheel) => Ok(wheel),
                Err(_) => Ok(Prefer::Auto),
            },
            None => Ok(Prefer::Auto),
        },
    }
}

/// The knobs of a scrolling capture, each of them the flag, then what is
/// remembered, then the built-in value.
pub open spec fn long_options(
    notches: Option<u32>,
    max_height: Option<u32>,
    max_frames: Option<u32>,
    timeout: Option<u64>,
    ignore_top: Option<u32>,
    defaults: LongDefaults,
) -> LongShotOptions {
    LongShotOptions {
        notches: first_of(notches, defaults.notches, DEFAULT_NOTCHES),
        max_height: first_of(max_height, defaults.max_height, DEFAULT_MAX_HEIGHT),
        max_frames: first_of(max_frames, defaults.max_frames, DEFAULT_MAX_FRAMES),
        timeout: first_of(timeout, defaults.timeout, DEFAULT_TIMEOUT),
        ignore_top: first_of(ignore_top, defaults.ignore_top, DEFAULT_IGNORE_TOP),
    }
}

/// A fixed region that may have been given.
pub open spec fn maybe_fixed(geometry: Option<String>) -> core::result::Result<
    Option<Rect>,
    ErrorView,
> {
    match geometry {
        Some(geometry) => match fixed_rect(geometry) {
            Ok(rect) => Ok(Some(rect)),
            Err(why) => Err(why),
        },
        None => Ok(None),
    }
}

fn maybe_fix(geometry: &Option<String>) -> (rect: Result<Option<Rect>>)
    ensures
        settles(rect, maybe_fixed(*geometry)),
{
    match geometry {
        Some(geometry) => match fix_rect(geometry) {
            Ok(rect) => Ok(Some(rect)),
            Err(error) => Err(error),
        },
        None => Ok(None),
    }
}

/// What a capture command captures; the other commands capture nothing.
pub open spec fn capture_target(
    command: Command,
    monitor: Option<String>,
    long: LongDefaults,
) -> core::result::Result<TargetPlan, ErrorView> {
    match command {
        Command::Region { geometry, interactive } => match (geometry, interactive) {
            (Some(geometry), false) => match fixed_rect(geometry) {
                Ok(rect) => Ok(TargetPlan::RegionFixed(rect)),
                Err(why) => Err(why),
            },
            (None, _) => Ok(TargetPlan::RegionInteractive),
            (Some(_), true) => Err(ErrorView::ConflictingRegionSelection),
        },
        Command::Monitor { name } => match captured_monitor(name, monitor) {
            Ok(name) => Ok(TargetPlan::Monitor(name)),
            Err(why) => Err(why),
        },
        Command::All => Ok(TargetPlan::All),
        Command::Window { target: WindowTarget::Active { pixel, no_blend } } => Ok(
            TargetPlan::ActiveWindow { pixel_detect: pixel, no_blend },
        ),
        Command::Window { target: WindowTarget::Pick { pixel, no_blend } } => Ok(
            TargetPlan::WindowPick { pixel_detect: pixel, no_blend },
        ),
        Command::Long {
            geometry,
            notches,
            max_height,
            max_frames,
            timeout,
            ignore_top,
            inject,
        } => match maybe_fixed(geometry) {
            Err(why) => Err(why),
            Ok(region) => match chosen_wheel(inject, long.inject) {
                Err(why) => Err(why),
                Ok(inject) => Ok(
                    TargetPlan::LongShot {
                        region,
                        options: long_options(
                            notches,
                            max_height,
                            max_frames,
                            timeout,
                            ignore_top,
                            long,
                        ),
                        inject,
                    },
                ),
            },
        },
        Command::Pin { .. } => Err(ErrorView::InvalidDestination(PIN_IS_NO_TARGET@)),
        Command::Settings => Err(ErrorView::InvalidDestination(SETTINGS_IS_NO_TARGET@)),
        Command::Ocr { .. } => Err(ErrorView::InvalidDestination(OCR_IS_NO_TARGET@)),
        Command::Record { .. } => Err(ErrorView::InvalidDestination(RECORD_IS_NO_TARGET@)),
        Command::Replay { .. } => Err(ErrorView::InvalidDestination(REPLAY_IS_NO_TARGET@)),
    }
}

fn choose_target(command: Command, monitor: Option<String>, long: LongDefaults) -> (target: Result<
    CaptureTarget,
>)
    ensures
        match target {
            Ok(target) => capture_target(command, monitor, long) == Ok::<TargetPlan, ErrorView>(
                target@,
            ),
            Err(error) => capture_target(command, monitor, long) == Err::<TargetPlan, ErrorView>(error@),
        },
{
    match command {
        Command::Region { geometry, interactive } => match (geometry, interactive) {
            (Some(geometry), false) => match fix_rect(&geometry) {
                Ok(rect) => Ok(CaptureTarget::RegionFixed(rect)),
                Err(error) => Err(error),
            },
            (None, _) => Ok(CaptureTarget::RegionInteractive),
            (Some(_), true) => Err(VshotError::ConflictingRegionSelection),
        },
        Command::Monitor { name } => match pick_monitor(name, monitor) {
            Ok(name) => Ok(CaptureTarget::Monitor(name)),
            Err(error) => Err(error),
        },
        Command::All => Ok(CaptureTarget::All),
        Command::Window { target } => match target {
            WindowTarget::Active { pixel, no_blend } => Ok(
                CaptureTarget::ActiveWindow { pixel_detect: pixel, no_blend },
            ),
            WindowTarget::Pick { pixel, no_blend } => Ok(
                CaptureTarget::WindowPick { pixel_detect: pixel, no_blend },
            ),
        },
        Command::Long {
            geometry,
            notches,
            max_height,
            max_frames,
            timeout,
            ignore_top,
            inject,
        } => {
            let region = match maybe_fix(&geometry) {
                Ok(region) => region,
                Err(error) => {
                    return Err(error);
                },
            };
            let options = LongShotOptions {
                notches: first_value(notches, long.notches, DEFAULT_NOTCHES),
                max_height: first_value(max_height, long.max_height, DEFAULT_MAX_HEIGHT),
                max_frames: first_value(max_frames, long.max_frames, DEFAULT_MAX_FRAMES),
                timeout: first_value(timeout, long.timeout, DEFAULT_TIMEOUT),
                ignore_top: first_value(ignore_top, long.ignore_top, DEFAULT_IGNORE_TOP),
            };
            match choose_wheel(inject, long.inject) {
                Ok(inject) => Ok(CaptureTarget::LongShot { region, options, inject }),
                Err(error) => Err(error),
            }
        },
        Command::Pin { .. } => Err(refusal(PIN_IS_NO_TARGET)),
        Command::Settings => Err(refusal(SETTINGS_IS_NO_TARGET)),
        Command::Ocr { .. } => Err(refusal(OCR_IS_NO_TARGET)),
        Command::Record { .. } => Err(refusal(RECORD_IS_NO_TARGET)),
        Command::Replay { .. } => Err(refusal(REPLAY_IS_NO_TARGET)),
    }
}

/// The source `ocr` reads: a file before a region, a fixed region before one
/// that is framed.
pub open spec fn ocr_source(geometry: Option<String>, input: Option<FilePath>) -> core::result::Result<
    OcrSource,
    ErrorView,
> {
    match (input, geometry) {
        (Some(path), _) => Ok(OcrSource::File(path)),
        (None, Some(geometry)) => match fixed_rect(geometry) {
            Ok(rect) => Ok(OcrSource::Geometry(rect)),
            Err(why) => Err(why),
        },
        (None, None) => Ok(OcrSource::Screen),
    }
}

fn choose_source(geometry: Option<String>, input: Option<FilePath>) -> (source: Result<OcrSource>)
    ensures
        settles(source, ocr_source(geometry, input)),
{
    match (input, geometry) {
        (Some(path), _) => Ok(OcrSource::File(path)),
        (None, Some(geometry)) => match fix_rect(&geometry) {
            Ok(rect) => Ok(OcrSource::Geometry(rect)),
            Err(error) => Err(error),
        },
        (None, None) => Ok(OcrSource::Screen),
    }
}

// ---------------------------------------------------------------------------
// The whole command line
// ---------------------------------------------------------------------------
impl Cli {
    pub open spec fn globals(self) -> Globals {
        Globals {
            cursor: self.cursor,
            output: self.output,
            clipboard: self.clipboard,
            pin: self.pin,
        }
    }

    /// The capture the command line asks for.
    pub open spec fn request(self, defaults: CliDefaults) -> core::result::Result<
        RequestPlan,
        ErrorView,
    > {
        match chosen_compression(self.png_compression, defaults.png_compression) {
            Err(why) => Err(why),
            Ok(compression) => match chosen_destination(self.output, self.clipboard, self.pin) {
                Err(why) => Err(why),
                Ok(destination) => match capture_target(
                    self.command,
                    defaults.monitor,
                    defaults.long,
                ) {
                    Err(why) => Err(why),
                    Ok(target) => Ok(
                        RequestPlan { target, destination, cursor: self.cursor, compression },
                    ),
                },
            },
        }
    }

    /// What the command line asks for.
    pub open spec fn action(self, defaults: CliDefaults) -> core::result::Result<
        ActionPlan,
        ErrorView,
    > {
        match self.command {
            Command::Record {
                target,
                fps,
                duration,
                mic,
                no_mic,
                app_audio,
                follow,
                no_follow,
                encoder,
                encoder_backend,
                portal,
                no_portal,
            } => record_action(
                self.globals(),
                target,
                RecordFlags {
                    fps,
                    duration,
                    mic,
                    no_mic,
                    app_audio,
                    follow,
                    no_follow,
                    encoder,
                    encoder_backend,
                    portal,
                    no_portal,
                },
                defaults.record,
            ),
            Command::Replay {
                action,
                window,
                fps,
                gop,
                encoder,
                encoder_backend,
                mic,
                no_mic,
                app_audio,
                follow,
                no_follow,
                save_dir,
                background,
            } => replay_action(
                self.globals(),
                action,
                ReplayFlags {
                    window,
                    fps,
                    gop,
                    encoder,
                    encoder_backend,
                    mic,
                    no_mic,
                    app_audio,
                    follow,
                    no_follow,
                    save_dir,
                    background,
                },
                defaults.replay,
            ),
            Command::Settings => if self.output is Some || self.pin || self.clipboard {
                Err(ErrorView::InvalidDestination(SETTINGS_HAS_NO_DESTINATION@))
            } else {
                Ok(ActionPlan::Settings)
            },
            Command::Ocr { geometry, interactive, input } => if self.output is Some || self.pin {
                Err(ErrorView::InvalidDestination(OCR_GIVES_TEXT@))
            } else {
                match ocr_source(geometry, input) {
                    Err(why) => Err(why),
                    Ok(source) => Ok(
                        ActionPlan::Ocr {
                            source,
                            destination: if self.clipboard {
                                OcrDestination::Clipboard
                            } else {
                                OcrDestination::Stdout
                            },
                        },
                    ),
                }
            },
            Command::Pin {
                files,
                toggle,
                show,
                hide,
                close_all,
                quit,
                list,
                density,
                apply,
            } => if self.output is Some || self.pin {
                Err(ErrorView::InvalidDestination(PIN_HAS_NO_DESTINATION@))
            } else {
                match apply {
                    Some(session) => Ok(ActionPlan::PinApply(session)),
                    None => match pin_plan(
                        files,
                        self.clipboard,
                        control_flags(toggle, show, hide, close_all, quit, list),
                        density,
                    ) {
                        Ok(invocation) => Ok(ActionPlan::Pin(invocation)),
                        Err(said) => Err(ErrorView::InvalidDestination(said)),
                    },
                }
            },
            _ => match self.request(defaults) {
                Ok(request) => Ok(ActionPlan::Capture(request)),
                Err(why) => Err(why),
            },
        }
    }

    /// Splits the command line into the things `vshot` can do: capture to a
    /// destination, record, replay, read text, drive the pin daemon, render a
    /// pin-edit session, or show the settings window.
    pub fn parse_action(self, defaults: CliDefaults) -> (action: Result<Action>)
        ensures
            settles_action(action, self.action(defaults)),
    {
        let Cli { command, cursor, output, clipboard, pin, png_compression } = self;
        match command {
            Command::Record {
                target,
                fps,
                duration,
                mic,
                no_mic,
                app_audio,
                follow,
                no_follow,
                encoder,
                encoder_backend,
                portal,
                no_portal,
            } => parse_record(
                Globals { cursor, output, clipboard, pin },
                target,
                RecordFlags {
                    fps,
                    duration,
                    mic,
                    no_mic,
                    app_audio,
                    follow,
                    no_follow,
                    encoder,
                    encoder_backend,
                    portal,
                    no_portal,
                },
                defaults.record,
            ),
            Command::Replay {
                action,
                window,
                fps,
                gop,
                encoder,
                encoder_backend,
                mic,
                no_mic,
                app_audio,
                follow,
                no_follow,
                save_dir,
                background,
            } => parse_replay(
                Globals { cursor, output, clipboard, pin },
                action,
                ReplayFlags {
                    window,
                    fps,
                    gop,
                    encoder,
                    encoder_backend,
                    mic,
                    no_mic,
                    app_audio,
                    follow,
                    no_follow,
                    save_dir,
                    background,
                },
                defaults.replay,
            ),
            Command::Settings => {
                if output.is_some() || pin || clipboard {
                    return Err(refusal(SETTINGS_HAS_NO_DESTINATION));
                }
                Ok(Action::Settings)
            },
            Command::Ocr { geometry, interactive: _, input } => {
                // The text is the whole result, so `--output` would write an
                // image and `--pin` has nothing to pin.
                if output.is_some() || pin {
                    return Err(refusal(OCR_GIVES_TEXT));
                }
                match choose_source(geometry, input) {
                    Ok(source) => {
                        let destination = if clipboard {
                            OcrDestination::Clipboard
                        } else {
                            OcrDestination::Stdout
                        };
                        Ok(Action::Ocr { source, destination })
                    },
                    Err(error) => Err(error),
                }
            },
            Command::Pin {
                files,
                toggle,
                show,
                hide,
                close_all,
                quit,
                list,
                density,
                apply,
            } => {
                // Here `--clipboard` is the source of the image.
                if output.is_some() || pin {
                    return Err(refusal(PIN_HAS_NO_DESTINATION));
                }
                if let Some(session) = apply {
                    return Ok(Action::PinApply(session));
                }
                match PinInvocation::build(
                    files,
                    clipboard,
                    toggle,
                    show,
                    hide,
                    close_all,
                    quit,
                    list,
                    density,
                ) {
                    Ok(invocation) => Ok(Action::Pin(invocation)),
                    Err(error) => Err(error),
                }
            },
            command => match (Cli { command, cursor, output, clipboard, pin, png_compression }).parse_request(
                defaults,
            ) {
                Ok(request) => Ok(Action::Capture(request)),
                Err(error) => Err(error),
            },
        }
    }

    /// The capture the command line asks for.
    pub fn parse_request(self, defaults: CliDefaults) -> (request: Result<Request>)
        ensures
            match request {
                Ok(request) => self.request(defaults) == Ok::<RequestPlan, ErrorView>(request@),
                Err(error) => self.request(defaults) == Err::<RequestPlan, ErrorView>(error@),
            },
    {
        let compression = match choose_compression(&self.png_compression, &defaults) {
            Ok(compression) => compression,
            Err(error) => {
                return Err(error);
            },
        };
        let destination = match choose_destination(self.output, self.clipboard, self.pin) {
            Ok(destination) => destination,
            Err(error) => {
                return Err(error);
            },
        };
        match choose_target(self.command, defaults.monitor, defaults.long) {
            Ok(target) => Ok(Request { target, destination, cursor: self.cursor, compression }),
            Err(error) => Err(error),
        }
    }
}

// ---------------------------------------------------------------------------
// Laws
// ---------------------------------------------------------------------------
/// How many of the three destinations were given.
pub open spec fn destinations_given(cli: Cli) -> int {
    (if cli.output is Some {
        1int
    } else {
        0
    }) + (if cli.clipboard {
        1int
    } else {
        0
    }) + (if cli.pin {
        1int
    } else {
        0
    })
}

/// A capture goes to exactly one destination: without one, or with more than
/// one, there is no capture.
pub proof fn law_a_capture_has_exactly_one_destination(cli: Cli, defaults: CliDefaults)
    ensures
        cli.request(defaults) is Ok ==> destinations_given(cli) == 1,
        chosen_destination(cli.output, cli.clipboard, cli.pin) is Ok <==> destinations_given(cli)
            == 1,
        destinations_given(cli) == 0 <==> chosen_destination(cli.output, cli.clipboard, cli.pin)
            == Err::<Destination, ErrorView>(ErrorView::MissingDestination),
{
}

/// A recording whose every setting was given as a flag is the same whatever is
/// remembered.
pub proof fn law_flags_win_over_what_record_remembers(
    globals: Globals,
    target: RecordTargetCommand,
    flags: RecordFlags,
    a: RecordDefaults,
    b: RecordDefaults,
)
    requires
        flags.fps is Some,
        flags.encoder is Some,
        flags.encoder_backend is Some,
        flags.portal || flags.no_portal,
        flags.mic is Some || flags.no_mic,
        flags.follow@.len() > 0 || flags.no_follow,
    ensures
        record_action(globals, target, flags, a) == record_action(globals, target, flags, b),
{
    assert(through_portal(flags, a) == through_portal(flags, b));
}

/// A replay whose every setting was given as a flag is the same whatever is
/// remembered; only the portal has no flag of its own.
pub proof fn law_flags_win_over_what_replay_remembers(
    globals: Globals,
    action: ReplayCommandLine,
    flags: ReplayFlags,
    a: ReplayDefaults,
    b: ReplayDefaults,
)
    requires
        flags.window is Some,
        flags.fps is Some,
        flags.gop is Some,
        flags.encoder is Some,
        flags.encoder_backend is Some,
        flags.mic is Some || flags.no_mic,
        flags.follow@.len() > 0 || flags.no_follow,
        flags.save_dir is Some,
        a.portal == b.portal,
    ensures
        replay_action(globals, action, flags, a) == replay_action(globals, action, flags, b),
{
}

/// A scrolling capture whose every knob was given as a flag is the same
/// whatever is remembered.
pub proof fn law_flags_win_over_what_long_remembers(cli: Cli, a: CliDefaults, b: CliDefaults)
    requires
        cli.png_compression is Some,
        cli.command matches Command::Long {
            geometry,
            notches,
            max_height,
            max_frames,
            timeout,
            ignore_top,
            inject,
        } && notches is Some && max_height is Some && max_frames is Some && timeout is Some
            && ignore_top is Some && inject is Some,
    ensures
        cli.action(a) == cli.action(b),
{
}

/// A monitor that is named is the one that is captured, whatever is
/// remembered.
pub proof fn law_a_named_monitor_wins_over_the_remembered_one(
    cli: Cli,
    a: CliDefaults,
    b: CliDefaults,
)
    requires
        cli.png_compression is Some,
        cli.command matches Command::Monitor { name } && name is Some,
    ensures
        cli.action(a) == cli.action(b),
{
}

/// Nothing that is remembered can fail a capture: one that is refused is
/// refused in the same words whatever is remembered.
pub proof fn law_nothing_remembered_fails_a_capture(cli: Cli, a: CliDefaults, b: CliDefaults)
    ensures
        cli.request(a) is Ok <==> cli.request(b) is Ok,
        cli.request(a) is Err ==> cli.request(a) == cli.request(b),
{
}

/// `--no-portal` and `--no-mic` turn off what is remembered.
pub proof fn law_a_refusal_turns_off_what_is_remembered(
    globals: Globals,
    target: RecordTargetCommand,
    flags: RecordFlags,
    defaults: RecordDefaults,
)
    ensures
        record_action(globals, target, flags, defaults) matches Ok(ActionPlan::RecordStart(plan))
            ==> {
            &&& flags.no_portal ==> !plan.portal
            &&& flags.no_mic ==> plan.mic is None
            &&& flags.no_follow ==> plan.follow.len() == 0
        },
{
}

/// The windows that are remembered to be followed reach a plain `window` and
/// nothing else: any other recording is the same without them.
pub proof fn law_a_remembered_follow_reaches_only_a_plain_window(
    globals: Globals,
    target: RecordTargetCommand,
    flags: RecordFlags,
    defaults: RecordDefaults,
    follow: Option<Vec<String>>,
)
    requires
        !(target matches RecordTargetCommand::Window { name, pick } && name is None && !pick),
    ensures
        record_action(globals, target, flags, defaults) == record_action(
            globals,
            target,
            flags,
            (RecordDefaults { follow, ..defaults }),
        ),
{
    let without = RecordDefaults { follow, ..defaults };
    assert(through_portal(flags, defaults) == through_portal(flags, without));
}

/// The same for a replay.
pub proof fn law_a_remembered_follow_reaches_only_a_plain_replayed_window(
    globals: Globals,
    target: ReplayTargetCommand,
    flags: ReplayFlags,
    defaults: ReplayDefaults,
    follow: Option<Vec<String>>,
)
    requires
        !(target matches ReplayTargetCommand::Window { name, pick } && name is None && !pick),
    ensures
        replay_action(globals, ReplayCommandLine::Start { target }, flags, defaults)
            == replay_action(
            globals,
            ReplayCommandLine::Start { target },
            flags,
            (ReplayDefaults { follow, ..defaults }),
        ),
{
}

/// The portal hands over a screen or a window, never the whole desktop and
/// never a rectangle, and never the sound of an application.
pub proof fn law_the_portal_records_a_screen_or_a_window(
    globals: Globals,
    target: RecordTargetCommand,
    flags: RecordFlags,
    defaults: RecordDefaults,
)
    ensures
        record_action(globals, target, flags, defaults) matches Ok(ActionPlan::RecordStart(plan))
            ==> plan.portal ==> (plan.target is Monitor || plan.target is Window)
            && !plan.app_audio,
{
}

/// Only a window has an application whose sound can be recorded, and only the
/// focused window is followed.
pub proof fn law_sound_and_following_need_a_window(
    globals: Globals,
    target: RecordTargetCommand,
    flags: RecordFlags,
    defaults: RecordDefaults,
)
    ensures
        record_action(globals, target, flags, defaults) matches Ok(ActionPlan::RecordStart(plan))
            ==> {
            &&& plan.app_audio ==> plan.target is Window
            &&& plan.follow.len() > 0 ==> is_bare_window(plan.target)
        },
{
}

/// The same for a replay.
pub proof fn law_replayed_sound_and_following_need_a_window(
    globals: Globals,
    action: ReplayCommandLine,
    flags: ReplayFlags,
    defaults: ReplayDefaults,
)
    ensures
        replay_action(globals, action, flags, defaults) matches Ok(
            ActionPlan::ReplayStart { request, background },
        ) ==> {
            &&& request.app_audio ==> request.target is Window && !request.portal
            &&& request.follow.len() > 0 ==> is_bare_window(request.target)
        },
{
}

/// The two shapes of `record` that record nothing take no options at all.
pub proof fn law_the_read_only_shapes_take_no_options(
    globals: Globals,
    target: RecordTargetCommand,
    flags: RecordFlags,
    defaults: RecordDefaults,
)
    requires
        target is Stop || target is Mics,
    ensures
        record_action(globals, target, flags, defaults) is Ok <==> !globals.pin
            && !globals.clipboard && !option_given(globals.output, flags),
{
}

} // verus!
