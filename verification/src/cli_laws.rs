//! What a command line becomes, flag by flag: each law reads the finished
//! request and says which flag, which remembered value or which built-in one
//! every part of it is.

use vstd::prelude::*;
use vstd::utf8::encode_utf8;

use crate::cli::{
    settles_action, Action, CaptureTarget, Cli, Command, Destination, OcrSource, RecordAction,
    RecordTargetCommand, ReplayAction, ReplayCommandLine, ReplayTargetCommand, Request,
    WindowTarget, APP_AUDIO_NEEDS_A_WINDOW, EMPTY_MONITOR, EMPTY_WINDOW, FOLLOW_NEEDS_A_WINDOW,
    FOLLOW_TAKES_NO_WINDOW, MICS_TAKES_NOTHING, NAME_OR_PICK, OCR_GIVES_TEXT, ONE_DESTINATION,
    PIN_HAS_NO_DESTINATION, PORTAL_HAS_NO_RECTANGLE, PORTAL_IS_ONE_STREAM, PORTAL_LEARNS_NO_PROCESS,
    RECORD_HAS_A_FILE, REPLAY_APP_AUDIO_NEEDS_A_WINDOW, REPLAY_FOLLOW_NEEDS_A_WINDOW,
    REPLAY_FOLLOW_TAKES_NO_WINDOW, REPLAY_HAS_NO_DESTINATION, REPLAY_NAME_OR_PICK,
    REPLAY_PORTAL_LEARNS_NO_PROCESS, REPLAY_STOP_TAKES_NOTHING, SAVE_TAKES_A_PATH,
    SETTINGS_HAS_NO_DESTINATION, STATUS_TAKES_NOTHING, STOP_TAKES_NOTHING,
};
use crate::config::CliDefaults;
use crate::error::ErrorView;
use crate::geometry::named_rect;
use crate::inject::Prefer;
use crate::model::{compression_named, PngCompression};
use crate::pin::PinCommand;
use crate::record;
use crate::record::{EncoderBackend, MicChoice, RecordTarget, RegionTarget, VideoCodec};
use crate::text::trimmed;

verus! {

/// A command line asks for this action.
pub open spec fn asks_for(cli: Cli, defaults: CliDefaults, action: Action) -> bool {
    settles_action(Ok(action), cli.action(defaults))
}

/// The microphone is the one the flags ask for, or else the remembered one.
pub open spec fn mic_as_asked(
    mic: Option<MicChoice>,
    no_mic: bool,
    given: Option<String>,
    remembered: Option<String>,
) -> bool {
    &&& no_mic ==> mic is None
    &&& !no_mic && given is None && remembered is None ==> mic is None
    &&& !no_mic && (given is Some || remembered is Some) ==> {
        let name = if given is Some {
            given->0
        } else {
            remembered->0
        };
        match mic {
            Some(MicChoice::Default) => trimmed(name@).len() == 0,
            Some(MicChoice::Device(device)) => device == name && trimmed(name@).len() > 0,
            None => false,
        }
    }
}

/// The windows to follow are the ones that were given, or else the remembered
/// ones of a plain window.
pub open spec fn follow_as_asked(
    follow: Seq<String>,
    no_follow: bool,
    given: Seq<String>,
    plain_window: bool,
    remembered: Option<Vec<String>>,
) -> bool {
    &&& no_follow ==> follow.len() == 0
    &&& !no_follow && given.len() > 0 ==> follow == given
    &&& !no_follow && given.len() == 0 && !plain_window ==> follow.len() == 0
    &&& !no_follow && given.len() == 0 && plain_window ==> match remembered {
        Some(list) => follow == list@,
        None => follow.len() == 0,
    }
}

/// The codec is the one the flag names, or else the one the remembered word
/// names, or else H.264.
pub open spec fn codec_as_asked(
    codec: VideoCodec,
    given: Option<String>,
    remembered: Option<String>,
) -> bool {
    &&& given matches Some(word) ==> word@ == codec.name()
    &&& given is None ==> match remembered {
        Some(word) => {
            &&& word@ == "h264"@ ==> codec is H264
            &&& word@ == "hevc"@ ==> codec is Hevc
            &&& word@ == "av1"@ ==> codec is Av1
            &&& word@ != "hevc"@ && word@ != "av1"@ ==> codec is H264
        },
        None => codec is H264,
    }
}

/// The encoder is the one the flag names, or else the one the remembered word
/// names, or else whichever opens.
pub open spec fn backend_as_asked(
    backend: EncoderBackend,
    given: Option<String>,
    remembered: Option<String>,
) -> bool {
    &&& given matches Some(word) ==> word@ == backend.name()
    &&& given is None ==> match remembered {
        Some(word) => {
            &&& word@ == "vaapi"@ ==> backend is Vaapi
            &&& word@ == "vulkan"@ ==> backend is Vulkan
            &&& word@ == "nvenc"@ ==> backend is Nvenc
            &&& word@ != "vaapi"@ && word@ != "vulkan"@ && word@ != "nvenc"@ ==> backend is Auto
        },
        None => backend is Auto,
    }
}

/// A number is the flag, or else the remembered one where it is in range, or
/// else the built-in one.
pub open spec fn number_as_asked(
    number: int,
    given: Option<int>,
    remembered: Option<int>,
    most: int,
    built_in: int,
) -> bool {
    &&& given matches Some(n) ==> number == n
    &&& given is None ==> match remembered {
        Some(n) => number == if 1 <= n <= most {
            n
        } else {
            built_in
        },
        None => number == built_in,
    }
}

pub open spec fn wide_u32(number: Option<u32>) -> Option<int> {
    match number {
        Some(n) => Some(n as int),
        None => None,
    }
}

pub open spec fn wide_u64(number: Option<u64>) -> Option<int> {
    match number {
        Some(n) => Some(n as int),
        None => None,
    }
}

/// A number of a scrolling capture is the flag of that name, or else the
/// remembered one of that name, or else the built-in one.
pub open spec fn knob_as_asked(
    number: int,
    given: Option<int>,
    remembered: Option<int>,
    built_in: int,
) -> bool {
    match (given, remembered) {
        (Some(n), _) => number == n,
        (None, Some(n)) => number == n,
        (None, None) => number == built_in,
    }
}

/// The region is the one that was written down, or one that is to be picked.
pub open spec fn region_as_asked(region: RegionTarget, geometry: Option<String>) -> bool {
    match (region, geometry) {
        (RegionTarget::Fixed(rect), Some(text)) => named_rect(text@) == Some(rect),
        (RegionTarget::Pick, None) => true,
        _ => false,
    }
}

/// The window is the picked one, the named one, or the focused one.
pub open spec fn window_as_asked(
    window: record::WindowTarget,
    name: Option<String>,
    pick: bool,
) -> bool {
    match window {
        record::WindowTarget::Pick => pick,
        record::WindowTarget::Filter(filter) => !pick && name == Some(filter) && trimmed(
            filter@,
        ).len() > 0,
        record::WindowTarget::Active => !pick && name is None,
    }
}

/// What `record` records is what it was told to.
pub open spec fn recorded_as_asked(target: RecordTarget, asked: RecordTargetCommand) -> bool {
    match asked {
        RecordTargetCommand::Monitor { name } => target == RecordTarget::Monitor(name) && trimmed(
            name@,
        ).len() > 0,
        RecordTargetCommand::All => target is All,
        RecordTargetCommand::Region { geometry, interactive } => target matches RecordTarget::Region(
            region,
        ) && region_as_asked(region, geometry),
        RecordTargetCommand::Window { name, pick } => target matches RecordTarget::Window(window)
            && window_as_asked(window, name, pick),
        _ => false,
    }
}

/// What `replay` keeps is what it was told to.
pub open spec fn replayed_as_asked(target: RecordTarget, asked: ReplayTargetCommand) -> bool {
    match asked {
        ReplayTargetCommand::Monitor { name } => target == RecordTarget::Monitor(name) && trimmed(
            name@,
        ).len() > 0,
        ReplayTargetCommand::All => target is All,
        ReplayTargetCommand::Region { geometry, interactive } => target matches RecordTarget::Region(
            region,
        ) && region_as_asked(region, geometry),
        ReplayTargetCommand::Window { name, pick } => target matches RecordTarget::Window(window)
            && window_as_asked(window, name, pick),
    }
}

/// Wherever `record` starts a recording, the recording draws the cursor when
/// `--cursor` was given, goes to the file of `--output`, lasts as long as
/// `--duration` says and records the application's sound when `--app-audio`
/// was given; every other setting is its flag, or else what is remembered
/// under its name, or else the built-in value.  The two shapes that record
/// nothing become what they say.
pub proof fn law_a_recording_is_what_was_asked_for(cli: Cli, defaults: CliDefaults, action: Action)
    requires
        asks_for(cli, defaults, action),
    ensures
        cli.command matches Command::Record {
            target,
            fps,
            duration,
            mic,
            no_mic,
            app_audio,
            follow,
            no_follow,
            encoder,
            encoder_backend,
            portal,
            no_portal,
        } ==> match action {
            Action::Record(RecordAction::Start(request)) => {
                &&& request.cursor == cli.cursor
                &&& request.output == cli.output
                &&& request.duration == duration
                &&& request.app_audio == app_audio
                &&& request.portal == (!no_portal && (portal || defaults.record.portal == Some(
                    true,
                )))
                &&& number_as_asked(
                    request.fps as int,
                    wide_u32(fps),
                    wide_u32(defaults.record.fps),
                    240,
                    60,
                )
                &&& codec_as_asked(request.encoder, encoder, defaults.record.encoder)
                &&& backend_as_asked(
                    request.encoder_backend,
                    encoder_backend,
                    defaults.record.encoder_backend,
                )
                &&& mic_as_asked(request.mic, no_mic, mic, defaults.record.mic)
                &&& follow_as_asked(
                    request.follow@,
                    no_follow,
                    follow@,
                    target matches RecordTargetCommand::Window { name, pick } && name is None
                        && !pick,
                    defaults.record.follow,
                )
                &&& recorded_as_asked(request.target, target)
            },
            Action::Record(RecordAction::Mics) => target is Mics,
            Action::Record(RecordAction::Stop) => target is Stop,
            _ => false,
        },
{
    lemma_words_differ();
}

/// Wherever `replay start` starts a session, it draws the cursor when
/// `--cursor` was given, goes to the background when that was asked for, and
/// every other setting is its flag, or else what is remembered under its name,
/// or else the built-in value.  A save carries the path and the seconds that
/// were given.
pub proof fn law_a_replay_is_what_was_asked_for(cli: Cli, defaults: CliDefaults, action: Action)
    requires
        asks_for(cli, defaults, action),
    ensures
        cli.command matches Command::Replay {
            action: asked,
            window,
            fps,
            gop,
            encoder,
            encoder_backend,
            mic,
            no_mic,
            app_audio,
            follow,
            no_follow,
            save_dir,
            background,
        } ==> match action {
            Action::Replay(ReplayAction::Start { request, background: away }) => {
                &&& asked matches ReplayCommandLine::Start { target }
                &&& away == background
                &&& request.cursor == cli.cursor
                &&& request.app_audio == app_audio
                &&& request.portal == (defaults.replay.portal == Some(true))
                &&& number_as_asked(
                    request.window as int,
                    wide_u64(window),
                    wide_u64(defaults.replay.window),
                    3600,
                    30,
                )
                &&& number_as_asked(
                    request.fps as int,
                    wide_u32(fps),
                    wide_u32(defaults.replay.fps),
                    240,
                    30,
                )
                &&& number_as_asked(
                    request.gop_secs as int,
                    wide_u64(gop),
                    wide_u64(defaults.replay.gop),
                    10,
                    1,
                )
                &&& codec_as_asked(request.encoder, encoder, defaults.replay.encoder)
                &&& backend_as_asked(
                    request.encoder_backend,
                    encoder_backend,
                    defaults.replay.encoder_backend,
                )
                &&& mic_as_asked(request.mic, no_mic, mic, defaults.replay.mic)
                &&& follow_as_asked(
                    request.follow@,
                    no_follow,
                    follow@,
                    target matches ReplayTargetCommand::Window { name, pick } && name is None
                        && !pick,
                    defaults.replay.follow,
                )
                &&& match (save_dir, defaults.replay.save_dir) {
                    (Some(given), _) => request.save_dir matches Some(directory) && directory@
                        == given@,
                    (None, Some(name)) => request.save_dir matches Some(directory) && directory@
                        == encode_utf8(name@),
                    (None, None) => request.save_dir is None,
                }
                &&& replayed_as_asked(request.target, target)
            },
            Action::Replay(ReplayAction::Save { path, seconds }) => asked == (
            ReplayCommandLine::Save { path, seconds }),
            Action::Replay(ReplayAction::Status) => asked is Status,
            Action::Replay(ReplayAction::Stop) => asked is Stop,
            _ => false,
        },
{
    lemma_words_differ();
}

/// The names of the codecs and the encoders are different words.
proof fn lemma_words_differ()
    ensures
        "h264"@ != "hevc"@,
        "h264"@ != "av1"@,
        "hevc"@ != "av1"@,
        "auto"@ != "vaapi"@,
        "auto"@ != "vulkan"@,
        "auto"@ != "nvenc"@,
        "vaapi"@ != "vulkan"@,
        "vaapi"@ != "nvenc"@,
        "vulkan"@ != "nvenc"@,
{
    reveal_strlit("h264");
    reveal_strlit("hevc");
    reveal_strlit("av1");
    reveal_strlit("auto");
    reveal_strlit("vaapi");
    reveal_strlit("vulkan");
    reveal_strlit("nvenc");
    assert("h264"@[1] == '2' && "hevc"@[1] == 'e' && "av1"@[1] == 'v');
    assert("auto"@[0] == 'a' && "vaapi"@[0] == 'v' && "vulkan"@[0] == 'v' && "nvenc"@[0] == 'n');
    assert("vaapi"@[1] == 'a' && "vulkan"@[1] == 'u');
}

/// A destination is the one flag that was given.
pub open spec fn destination_as_asked(destination: Destination, cli: Cli) -> bool {
    match destination {
        Destination::File(path) => cli.output == Some(path) && path@ != seq![45u8]
            && !cli.clipboard && !cli.pin,
        Destination::Stdout => cli.output matches Some(path) && path@ == seq![45u8]
            && !cli.clipboard && !cli.pin,
        Destination::Clipboard => cli.output is None && cli.clipboard && !cli.pin,
        Destination::Pin => cli.output is None && !cli.clipboard && cli.pin,
    }
}

/// A compression is the one the flag names, or else the one the remembered
/// word names, or else the fast one.
pub open spec fn compression_as_asked(
    compression: PngCompression,
    given: Option<String>,
    remembered: Option<String>,
) -> bool {
    match given {
        Some(word) => compression_named(word@) == Some(compression),
        None => match remembered {
            Some(word) => match compression_named(word@) {
                Some(named) => compression == named,
                None => compression is Fast,
            },
            None => compression is Fast,
        },
    }
}

/// A wheel backend is the one the flag names, or else the one the remembered
/// word names, or else whichever works.
pub open spec fn wheel_as_asked(
    wheel: Prefer,
    given: Option<String>,
    remembered: Option<String>,
) -> bool {
    match given {
        Some(word) => Prefer::named(word@) == Some(wheel),
        None => match remembered {
            Some(word) => match Prefer::named(word@) {
                Some(named) => wheel == named,
                None => wheel is Auto,
            },
            None => wheel is Auto,
        },
    }
}

/// What is captured is what the subcommand names, with its own flags.
pub open spec fn captured_as_asked(target: CaptureTarget, cli: Cli, defaults: CliDefaults) -> bool {
    match cli.command {
        Command::Region { geometry, interactive } => match target {
            CaptureTarget::RegionFixed(rect) => !interactive && (geometry matches Some(text)
                && named_rect(text@) == Some(rect)),
            CaptureTarget::RegionInteractive => geometry is None,
            _ => false,
        },
        Command::Monitor { name } => target matches CaptureTarget::Monitor(monitor) && match name {
            Some(name) => monitor@ == name@ && trimmed(name@).len() > 0,
            None => match defaults.monitor {
                Some(name) => monitor@ == if trimmed(name@).len() > 0 {
                    name@
                } else {
                    "current"@
                },
                None => monitor@ == "current"@,
            },
        },
        Command::All => target is All,
        Command::Window { target: WindowTarget::Active { pixel, no_blend: raw } } => target matches
            CaptureTarget::ActiveWindow { pixel_detect, no_blend } && pixel_detect == pixel
            && no_blend == raw,
        Command::Window { target: WindowTarget::Pick { pixel, no_blend: raw } } => target matches
            CaptureTarget::WindowPick { pixel_detect, no_blend } && pixel_detect == pixel
            && no_blend == raw,
        Command::Long { .. } => target is LongShot,
        _ => false,
    }
}

/// A capture is aimed at what the subcommand names, goes to the one
/// destination that was given, draws the cursor when `--cursor` was given, and
/// is compressed as the flag, or else the remembered word, says.
pub proof fn law_a_capture_is_what_was_asked_for(cli: Cli, defaults: CliDefaults, action: Action)
    requires
        asks_for(cli, defaults, action),
    ensures
        action matches Action::Capture(request) ==> {
            &&& request.cursor == cli.cursor
            &&& destination_as_asked(request.destination, cli)
            &&& compression_as_asked(
                request.compression,
                cli.png_compression,
                defaults.png_compression,
            )
            &&& captured_as_asked(request.target, cli, defaults)
        },
        action is Capture <==> (cli.command is Region || cli.command is Monitor || cli.command is All
            || cli.command is Window || cli.command is Long),
{
}

/// A scrolling capture takes each of its five numbers from the flag of that
/// name, or else from what is remembered under that name, or else from the
/// built-in value of that name; the same goes for the wheel, and the region is
/// the one that was written down, if any was.
pub proof fn law_a_long_capture_takes_each_number_from_its_own_flag(
    cli: Cli,
    defaults: CliDefaults,
    action: Action,
)
    requires
        asks_for(cli, defaults, action),
    ensures
        cli.command matches Command::Long {
            geometry,
            notches,
            max_height,
            max_frames,
            timeout,
            ignore_top,
            inject,
        } ==> {
            &&& action matches Action::Capture(
                Request {
                    target: CaptureTarget::LongShot { region, options, inject: wheel },
                    destination,
                    cursor,
                    compression,
                },
            )
            &&& knob_as_asked(
                options.notches as int,
                wide_u32(notches),
                wide_u32(defaults.long.notches),
                1,
            )
            &&& knob_as_asked(
                options.max_height as int,
                wide_u32(max_height),
                wide_u32(defaults.long.max_height),
                30_000,
            )
            &&& knob_as_asked(
                options.max_frames as int,
                wide_u32(max_frames),
                wide_u32(defaults.long.max_frames),
                6_000,
            )
            &&& knob_as_asked(
                options.timeout as int,
                wide_u64(timeout),
                wide_u64(defaults.long.timeout),
                120,
            )
            &&& knob_as_asked(
                options.ignore_top as int,
                wide_u32(ignore_top),
                wide_u32(defaults.long.ignore_top),
                0,
            )
            &&& wheel_as_asked(wheel, inject, defaults.long.inject)
            &&& match (region, geometry) {
                (Some(rect), Some(text)) => named_rect(text@) == Some(rect),
                (None, None) => true,
                _ => false,
            }
        },
{
}

/// `ocr` reads the file that was named before anything else, then the region
/// that was written down, and else one that is framed; the text goes to the
/// clipboard when that was asked for.
pub proof fn law_text_is_read_where_it_was_asked_for(cli: Cli, defaults: CliDefaults, action: Action)
    requires
        asks_for(cli, defaults, action),
    ensures
        cli.command matches Command::Ocr { geometry, interactive, input } ==> {
            &&& action matches Action::Ocr { source, destination }
            &&& (destination is Clipboard <==> cli.clipboard)
            &&& match source {
                OcrSource::File(path) => input == Some(path),
                OcrSource::Geometry(rect) => input is None && (geometry matches Some(text)
                    && named_rect(text@) == Some(rect)),
                OcrSource::Screen => input is None && geometry is None,
            }
        },
        cli.command is Settings <==> action is Settings,
{
}

/// `pin` hands on the images, the density and the one control message that
/// were given, and takes the clipboard when that was asked for; a session that
/// is to be applied comes before all of it.
pub proof fn law_pins_are_what_was_asked_for(cli: Cli, defaults: CliDefaults, action: Action)
    requires
        asks_for(cli, defaults, action),
    ensures
        cli.command matches Command::Pin {
            files,
            toggle,
            show,
            hide,
            close_all,
            quit,
            list,
            density,
            apply,
        } ==> match action {
            Action::PinApply(session) => apply == Some(session),
            Action::Pin(pin) => {
                &&& apply is None
                &&& pin.files == files
                &&& pin.clipboard == cli.clipboard
                &&& pin.density == density
                &&& (toggle <==> pin.command == Some(PinCommand::Toggle))
                &&& (show <==> pin.command == Some(PinCommand::Show))
                &&& (hide <==> pin.command == Some(PinCommand::Hide))
                &&& (close_all <==> pin.command == Some(PinCommand::CloseAll))
                &&& (quit <==> pin.command == Some(PinCommand::Quit))
                &&& (list <==> pin.command == Some(PinCommand::List))
                &&& (pin.command is None <==> files@.len() > 0 || cli.clipboard)
            },
            _ => false,
        },
{
}

/// A recording is refused exactly where it makes no sense: with a destination
/// that is no file, with a read-only shape that was given an option, with a
/// name that says nothing or a rectangle that is none, with the portal where it
/// offers nothing, with a sound or a window to follow where no window is
/// recorded, or with a word that names no codec or encoder.
pub proof fn law_a_recording_is_refused_only_for_a_reason(cli: Cli, defaults: CliDefaults)
    ensures
        cli.command matches Command::Record {
            target,
            fps,
            duration,
            mic,
            no_mic,
            app_audio,
            follow,
            no_follow,
            encoder,
            encoder_backend,
            portal,
            no_portal,
        } ==> {
            let through = !no_portal && (portal || defaults.record.portal == Some(true));
            let follows = follow@.len() > 0;
            cli.action(defaults) is Ok <==> {
                &&& !cli.pin
                &&& !cli.clipboard
                &&& match target {
                    RecordTargetCommand::Monitor { name } => trimmed(name@).len() > 0
                        && !app_audio && !follows,
                    RecordTargetCommand::All => !through && !app_audio && !follows,
                    RecordTargetCommand::Region { geometry, interactive } => {
                        &&& !through
                        &&& !app_audio
                        &&& !follows
                        &&& geometry matches Some(text) ==> named_rect(text@) is Some
                    },
                    RecordTargetCommand::Window { name, pick } => {
                        &&& !(app_audio && through)
                        &&& !(pick && name is Some)
                        &&& follows ==> !pick && name is None
                        &&& name matches Some(filter) ==> trimmed(filter@).len() > 0
                    },
                    _ => {
                        &&& cli.output is None
                        &&& fps is None
                        &&& duration is None
                        &&& mic is None
                        &&& !no_mic
                        &&& !app_audio
                        &&& !follows
                        &&& !no_follow
                        &&& encoder is None
                        &&& encoder_backend is None
                        &&& !portal
                        &&& !no_portal
                    },
                }
                &&& encoder matches Some(word) ==> word@ == "h264"@ || word@ == "hevc"@ || word@
                    == "av1"@
                &&& encoder_backend matches Some(word) ==> word@ == "auto"@ || word@ == "vaapi"@
                    || word@ == "vulkan"@ || word@ == "nvenc"@
            }
        },
{
}

/// The same for a replay, whose portal is only ever the remembered one.
pub proof fn law_a_replay_is_refused_only_for_a_reason(cli: Cli, defaults: CliDefaults)
    ensures
        cli.command matches Command::Replay {
            action,
            window,
            fps,
            gop,
            encoder,
            encoder_backend,
            mic,
            no_mic,
            app_audio,
            follow,
            no_follow,
            save_dir,
            background,
        } ==> {
            let follows = !no_follow && follow@.len() > 0;
            cli.action(defaults) is Ok <==> {
                &&& !cli.pin
                &&& !cli.clipboard
                &&& match action {
                    ReplayCommandLine::Start { target } => {
                        &&& encoder matches Some(word) ==> word@ == "h264"@ || word@ == "hevc"@
                            || word@ == "av1"@
                        &&& encoder_backend matches Some(word) ==> word@ == "auto"@ || word@
                            == "vaapi"@ || word@ == "vulkan"@ || word@ == "nvenc"@
                        &&& match target {
                            ReplayTargetCommand::Monitor { name } => trimmed(name@).len() > 0
                                && !app_audio && follow@.len() == 0,
                            ReplayTargetCommand::All => !app_audio && follow@.len() == 0,
                            ReplayTargetCommand::Region { geometry, interactive } => {
                                &&& !app_audio
                                &&& follow@.len() == 0
                                &&& geometry matches Some(text) ==> named_rect(text@) is Some
                            },
                            ReplayTargetCommand::Window { name, pick } => {
                                &&& !(app_audio && defaults.replay.portal == Some(true))
                                &&& !(pick && name is Some)
                                &&& follows ==> !pick && name is None
                                &&& name matches Some(filter) ==> trimmed(filter@).len() > 0
                            },
                        }
                    },
                    _ => cli.output is None && !background,
                }
            }
        },
{
}

/// A capture is refused exactly where its destination is not the one that was
/// given, a rectangle or a name says nothing, a region is both written down and
/// to be framed, or a word names no compression or wheel; and the commands that
/// capture nothing are no captures.
pub proof fn law_a_capture_is_refused_only_for_a_reason(cli: Cli, defaults: CliDefaults)
    ensures
        cli.request(defaults) is Ok <==> {
            &&& cli.output is Some || cli.clipboard || cli.pin
            &&& !(cli.output is Some && cli.clipboard)
            &&& !(cli.output is Some && cli.pin)
            &&& !(cli.clipboard && cli.pin)
            &&& cli.png_compression matches Some(word) ==> compression_named(word@) is Some
            &&& match cli.command {
                Command::Region { geometry, interactive } => geometry matches Some(text)
                    ==> !interactive && named_rect(text@) is Some,
                Command::Monitor { name } => name matches Some(name) ==> trimmed(name@).len() > 0,
                Command::All => true,
                Command::Window { .. } => true,
                Command::Long { geometry, inject, .. } => {
                    &&& geometry matches Some(text) ==> named_rect(text@) is Some
                    &&& inject matches Some(word) ==> Prefer::named(word@) is Some
                },
                _ => false,
            }
        },
        cli.output is None && !cli.clipboard && !cli.pin && (cli.png_compression matches Some(word)
            ==> compression_named(word@) is Some) ==> cli.request(defaults) == Err::<
            crate::cli::RequestPlan,
            ErrorView,
        >(ErrorView::MissingDestination),
{
}

/// Reading text, pinning and the settings are refused exactly where a
/// destination was given that they do not have, where `ocr` is to read a
/// rectangle that is none, or where `pin` gets anything but images alone or one
/// control message alone.
pub proof fn law_the_other_commands_are_refused_only_for_a_reason(cli: Cli, defaults: CliDefaults)
    ensures
        cli.command is Settings ==> (cli.action(defaults) is Ok <==> cli.output is None
            && !cli.pin && !cli.clipboard),
        cli.command matches Command::Ocr { geometry, interactive, input } ==> (cli.action(
            defaults,
        ) is Ok <==> {
            &&& cli.output is None
            &&& !cli.pin
            &&& input is None ==> (geometry matches Some(text) ==> named_rect(text@) is Some)
        }),
        cli.command matches Command::Pin {
            files,
            toggle,
            show,
            hide,
            close_all,
            quit,
            list,
            density,
            apply,
        } ==> {
            let given = (if toggle {
                1int
            } else {
                0
            }) + (if show {
                1int
            } else {
                0
            }) + (if hide {
                1int
            } else {
                0
            }) + (if close_all {
                1int
            } else {
                0
            }) + (if quit {
                1int
            } else {
                0
            }) + (if list {
                1int
            } else {
                0
            });
            cli.action(defaults) is Ok <==> cli.output is None && !cli.pin && (apply is Some || (
            given <= 1 && (given == 1 <==> files@.len() == 0 && !cli.clipboard)))
        },
{
}

/// A command line is refused with this sentence.
pub open spec fn told(cli: Cli, defaults: CliDefaults, sentence: &str) -> bool {
    cli.action(defaults) == Err::<crate::cli::ActionPlan, ErrorView>(
        ErrorView::InvalidDestination(sentence@),
    )
}

/// What a recording cannot do is what its refusal says: the wrong destination
/// first, then the portal, then what needs a window, then the names.
pub proof fn law_a_refused_recording_is_told_why(cli: Cli, defaults: CliDefaults)
    ensures
        cli.command matches Command::Record {
            target,
            app_audio,
            follow,
            encoder,
            encoder_backend,
            portal,
            no_portal,
            ..
        } ==> {
            let through = !no_portal && (portal || defaults.record.portal == Some(true));
            let follows = follow@.len() > 0;
            let destined = cli.pin || cli.clipboard;
            &&& destined ==> told(cli, defaults, RECORD_HAS_A_FILE)
            &&& !destined && target is Stop && cli.action(defaults) is Err ==> told(
                cli,
                defaults,
                STOP_TAKES_NOTHING,
            )
            &&& !destined && target is Mics && cli.action(defaults) is Err ==> told(
                cli,
                defaults,
                MICS_TAKES_NOTHING,
            )
            &&& !destined && target is All && through ==> told(cli, defaults, PORTAL_IS_ONE_STREAM)
            &&& !destined && target is Region && through ==> told(
                cli,
                defaults,
                PORTAL_HAS_NO_RECTANGLE,
            )
            &&& !destined && app_audio && (target is Monitor || !through && (target is All || target
                is Region)) ==> told(cli, defaults, APP_AUDIO_NEEDS_A_WINDOW)
            &&& !destined && !app_audio && follows && (target is Monitor || !through && (target
                is All || target is Region)) ==> told(cli, defaults, FOLLOW_NEEDS_A_WINDOW)
            &&& !destined && target is Window && app_audio && through ==> told(
                cli,
                defaults,
                PORTAL_LEARNS_NO_PROCESS,
            )
            &&& !destined && !(app_audio && through) ==> match target {
                RecordTargetCommand::Window { name, pick } => {
                    &&& pick && name is Some ==> told(cli, defaults, NAME_OR_PICK)
                    &&& follows && (pick && name is None || !pick && name is Some) ==> told(
                        cli,
                        defaults,
                        FOLLOW_TAKES_NO_WINDOW,
                    )
                    &&& !follows && !pick && (name matches Some(filter) && trimmed(filter@).len()
                        == 0) ==> told(cli, defaults, EMPTY_WINDOW)
                },
                RecordTargetCommand::Monitor { name } => !app_audio && !follows && trimmed(
                    name@,
                ).len() == 0 ==> told(cli, defaults, EMPTY_MONITOR),
                _ => true,
            }
        },
{
}

/// What a replay cannot do is what its refusal says.
pub proof fn law_a_refused_replay_is_told_why(cli: Cli, defaults: CliDefaults)
    ensures
        cli.command matches Command::Replay {
            action,
            encoder,
            encoder_backend,
            app_audio,
            follow,
            no_follow,
            background,
            ..
        } ==> {
            let destined = cli.pin || cli.clipboard;
            let through = defaults.replay.portal == Some(true);
            &&& destined ==> told(cli, defaults, REPLAY_HAS_NO_DESTINATION)
            &&& !destined && (cli.output is Some || background) ==> match action {
                ReplayCommandLine::Save { .. } => told(cli, defaults, SAVE_TAKES_A_PATH),
                ReplayCommandLine::Status => told(cli, defaults, STATUS_TAKES_NOTHING),
                ReplayCommandLine::Stop => told(cli, defaults, REPLAY_STOP_TAKES_NOTHING),
                _ => true,
            }
            &&& !destined ==> match action {
                ReplayCommandLine::Start { target: ReplayTargetCommand::Monitor { name } } => trimmed(
                    name@,
                ).len() == 0 ==> told(cli, defaults, EMPTY_MONITOR),
                ReplayCommandLine::Start { target: ReplayTargetCommand::Window { name, pick } } => {
                    &&& pick && name is Some ==> told(cli, defaults, REPLAY_NAME_OR_PICK)
                    &&& !pick && (name matches Some(filter) && trimmed(filter@).len() == 0) ==> told(
                        cli,
                        defaults,
                        EMPTY_WINDOW,
                    )
                    &&& !pick && name is None && encoder is None && encoder_backend is None
                        && app_audio && through ==> told(
                        cli,
                        defaults,
                        REPLAY_PORTAL_LEARNS_NO_PROCESS,
                    )
                    &&& pick && name is None && encoder is None && encoder_backend is None
                        && !app_audio && !no_follow && follow@.len() > 0 ==> told(
                        cli,
                        defaults,
                        REPLAY_FOLLOW_TAKES_NO_WINDOW,
                    )
                },
                ReplayCommandLine::Start { target: ReplayTargetCommand::All } => {
                    &&& encoder is None && encoder_backend is None && app_audio ==> told(
                        cli,
                        defaults,
                        REPLAY_APP_AUDIO_NEEDS_A_WINDOW,
                    )
                    &&& encoder is None && encoder_backend is None && !app_audio && follow@.len()
                        > 0 ==> told(cli, defaults, REPLAY_FOLLOW_NEEDS_A_WINDOW)
                },
                _ => true,
            }
        },
{
}

/// A word that names no codec or no encoder is repeated in the refusal, which
/// says what can be picked.
pub proof fn law_an_unknown_word_is_told_back(cli: Cli, defaults: CliDefaults)
    ensures
        cli.command matches Command::Record {
            target: RecordTargetCommand::All,
            app_audio: false,
            follow,
            encoder: Some(word),
            portal: false,
            no_portal: true,
            ..
        } ==> follow@.len() == 0 && !cli.pin && !cli.clipboard && word@ != "h264"@ && word@
            != "hevc"@ && word@ != "av1"@ ==> cli.action(defaults) == Err::<
            crate::cli::ActionPlan,
            ErrorView,
        >(
            ErrorView::InvalidDestination(
                "unknown encoder `"@ + word@ + "`: pick h264, hevc or av1"@,
            ),
        ),
        cli.command matches Command::Record {
            target: RecordTargetCommand::All,
            app_audio: false,
            follow,
            encoder: None,
            encoder_backend: Some(word),
            portal: false,
            no_portal: true,
            ..
        } ==> follow@.len() == 0 && !cli.pin && !cli.clipboard && word@ != "auto"@ && word@
            != "vaapi"@ && word@ != "vulkan"@ && word@ != "nvenc"@ ==> cli.action(defaults) == Err::<
            crate::cli::ActionPlan,
            ErrorView,
        >(
            ErrorView::InvalidDestination(
                "unknown encoder backend `"@ + word@ + "`: pick auto, vaapi, vulkan or nvenc"@,
            ),
        ),
{
}

/// A capture without a destination is told so, and one with more than one that
/// they exclude each other; the commands that write no picture are told that
/// the destination does not apply to them.
pub proof fn law_a_wrong_destination_is_told(cli: Cli, defaults: CliDefaults)
    ensures
        cli.command is All && cli.png_compression is None && cli.output is None && !cli.clipboard
            && !cli.pin ==> cli.action(defaults) == Err::<crate::cli::ActionPlan, ErrorView>(
            ErrorView::MissingDestination,
        ),
        cli.command is All && cli.png_compression is None && (cli.output is Some && cli.clipboard
            || cli.output is Some && cli.pin || cli.clipboard && cli.pin) ==> told(
            cli,
            defaults,
            ONE_DESTINATION,
        ),
        cli.command is Settings && (cli.output is Some || cli.clipboard || cli.pin) ==> told(
            cli,
            defaults,
            SETTINGS_HAS_NO_DESTINATION,
        ),
        cli.command is Ocr && (cli.output is Some || cli.pin) ==> told(
            cli,
            defaults,
            OCR_GIVES_TEXT,
        ),
        cli.command is Pin && (cli.output is Some || cli.pin) ==> told(
            cli,
            defaults,
            PIN_HAS_NO_DESTINATION,
        ),
{
}

} // verus!
