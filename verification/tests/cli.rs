use clap::builder::{PossibleValuesParser, RangedU64ValueParser};
use clap::{Arg, ArgAction, ArgMatches};
use vshot::cli::{
    Action, CaptureTarget, Cli, Command, Destination, RecordAction, RecordTargetCommand,
    ReplayAction, ReplayCommandLine, ReplayTargetCommand, Request,
};
use vshot::config::{load, CliDefaults};
use vshot::error::{Result, VshotError};
use vshot::geometry::Rect;
use vshot::inject::Prefer;
use vshot::longshot::LongShotOptions;
use vshot::model::PngCompression;
use vshot::path::FilePath;
use vshot::pin::{PinCommand, PinInvocation};
use vshot::record::{MicChoice, RecordTarget, RegionTarget, VideoCodec, WindowTarget};

fn flag(id: &'static str, long: &'static str) -> Arg {
    Arg::new(id).long(long).action(ArgAction::SetTrue)
}

fn value(id: &'static str, long: &'static str) -> Arg {
    Arg::new(id).long(long).action(ArgAction::Set)
}

fn number(id: &'static str, long: &'static str, most: u64) -> Arg {
    value(id, long).value_parser(RangedU64ValueParser::<u64>::new().range(0..=most))
}

fn region_arguments(command: clap::Command) -> clap::Command {
    command
        .arg(
            value("geometry", "geometry")
                .allow_hyphen_values(true)
                .conflicts_with("interactive"),
        )
        .arg(flag("interactive", "interactive").conflicts_with("geometry"))
}

fn window_arguments(command: clap::Command) -> clap::Command {
    command
        .arg(flag("pixel", "pixel"))
        .arg(flag("no_blend", "no-blend").conflicts_with("pixel"))
}

fn target_commands(command: clap::Command) -> clap::Command {
    command
        .subcommand_required(true)
        .subcommand(clap::Command::new("monitor").arg(Arg::new("name").default_value("current")))
        .subcommand(clap::Command::new("all"))
        .subcommand(region_arguments(clap::Command::new("region")))
        .subcommand(
            clap::Command::new("window")
                .arg(Arg::new("name"))
                .arg(flag("pick", "pick")),
        )
}

fn recording_arguments(command: clap::Command) -> clap::Command {
    command
        .arg(number("fps", "fps", 240).global(true))
        .arg(
            value("mic", "mic")
                .num_args(0..=1)
                .default_missing_value("")
                .global(true),
        )
        .arg(flag("no_mic", "no-mic").conflicts_with("mic").global(true))
        .arg(flag("app_audio", "app-audio").global(true))
        .arg(
            Arg::new("follow")
                .long("follow")
                .action(ArgAction::Append)
                .global(true),
        )
        .arg(
            flag("no_follow", "no-follow")
                .conflicts_with("follow")
                .global(true),
        )
        .arg(
            value("encoder", "encoder")
                .value_parser(PossibleValuesParser::new(["h264", "hevc", "av1"]))
                .global(true),
        )
        .arg(value("encoder_backend", "encoder-backend").global(true))
}

/// The command line as `clap` reads it.
fn grammar() -> clap::Command {
    let long = clap::Command::new("long")
        .arg(value("geometry", "geometry").allow_hyphen_values(true))
        .arg(number("notches", "notches", 1000))
        .arg(number("max_height", "max-height", 1_000_000))
        .arg(number("max_frames", "max-frames", 1_000_000))
        .arg(number("timeout", "timeout", 1_000_000))
        .arg(number("ignore_top", "ignore-top", 1_000_000))
        .arg(value("inject", "inject"));
    let pin = clap::Command::new("pin")
        .arg(Arg::new("files").num_args(0..))
        .arg(flag("toggle", "toggle"))
        .arg(flag("show", "show"))
        .arg(flag("hide", "hide"))
        .arg(flag("close_all", "close-all"))
        .arg(flag("quit", "quit"))
        .arg(flag("list", "list"));
    let record = recording_arguments(target_commands(clap::Command::new("record")))
        .arg(number("duration", "duration", 1_000_000).global(true))
        .arg(flag("portal", "portal").global(true))
        .arg(
            flag("no_portal", "no-portal")
                .conflicts_with("portal")
                .global(true),
        )
        .subcommand(clap::Command::new("mics"))
        .subcommand(clap::Command::new("stop"));
    let replay = recording_arguments(clap::Command::new("replay"))
        .arg(number("window", "window", 3600).global(true))
        .arg(number("gop", "gop", 10).global(true))
        .arg(value("save_dir", "save-dir").global(true))
        .arg(flag("background", "background").global(true))
        .subcommand_required(true)
        .subcommand(target_commands(clap::Command::new("start")));
    clap::Command::new("vshot")
        .subcommand_required(true)
        .arg(flag("cursor", "cursor").global(true))
        .arg(
            value("output", "output")
                .global(true)
                .conflicts_with_all(["clipboard", "pin"]),
        )
        .arg(flag("clipboard", "clipboard").global(true))
        .arg(
            flag("pin", "pin")
                .global(true)
                .conflicts_with_all(["output", "clipboard"]),
        )
        .arg(value("png_compression", "png-compression").global(true))
        .subcommand(region_arguments(clap::Command::new("region")))
        .subcommand(clap::Command::new("monitor").arg(Arg::new("name")))
        .subcommand(clap::Command::new("all"))
        .subcommand(
            clap::Command::new("window")
                .subcommand_required(true)
                .subcommand(window_arguments(clap::Command::new("active")))
                .subcommand(window_arguments(clap::Command::new("pick"))),
        )
        .subcommand(long)
        .subcommand(pin)
        .subcommand(record)
        .subcommand(replay)
}

fn text(matches: &ArgMatches, id: &str) -> Option<String> {
    matches.get_one::<String>(id).cloned()
}

fn path(matches: &ArgMatches, id: &str) -> Option<FilePath> {
    text(matches, id).map(|path| FilePath::from_text(&path))
}

fn texts(matches: &ArgMatches, id: &str) -> Vec<String> {
    matches
        .get_many::<String>(id)
        .map(|values| values.cloned().collect())
        .unwrap_or_default()
}

fn amount(matches: &ArgMatches, id: &str) -> Option<u64> {
    matches.get_one::<u64>(id).copied()
}

fn count(matches: &ArgMatches, id: &str) -> Option<u32> {
    amount(matches, id).map(|value| value as u32)
}

fn record_target(matches: &ArgMatches) -> RecordTargetCommand {
    match matches.subcommand() {
        Some(("monitor", target)) => RecordTargetCommand::Monitor {
            name: text(target, "name").unwrap(),
        },
        Some(("all", _)) => RecordTargetCommand::All,
        Some(("region", target)) => RecordTargetCommand::Region {
            geometry: text(target, "geometry"),
            interactive: target.get_flag("interactive"),
        },
        Some(("window", target)) => RecordTargetCommand::Window {
            name: text(target, "name"),
            pick: target.get_flag("pick"),
        },
        Some(("mics", _)) => RecordTargetCommand::Mics,
        Some(("stop", _)) => RecordTargetCommand::Stop,
        other => panic!("{other:?}"),
    }
}

fn replay_target(matches: &ArgMatches) -> ReplayTargetCommand {
    match record_target(matches) {
        RecordTargetCommand::Monitor { name } => ReplayTargetCommand::Monitor { name },
        RecordTargetCommand::All => ReplayTargetCommand::All,
        RecordTargetCommand::Region {
            geometry,
            interactive,
        } => ReplayTargetCommand::Region {
            geometry,
            interactive,
        },
        RecordTargetCommand::Window { name, pick } => ReplayTargetCommand::Window { name, pick },
        other => panic!("{other:?}"),
    }
}

fn command(name: &str, matches: &ArgMatches) -> Command {
    match name {
        "region" => Command::Region {
            geometry: text(matches, "geometry"),
            interactive: matches.get_flag("interactive"),
        },
        "monitor" => Command::Monitor {
            name: text(matches, "name"),
        },
        "all" => Command::All,
        "window" => {
            let (name, target) = matches.subcommand().unwrap();
            let (pixel, no_blend) = (target.get_flag("pixel"), target.get_flag("no_blend"));
            Command::Window {
                target: match name {
                    "active" => vshot::cli::WindowTarget::Active { pixel, no_blend },
                    _ => vshot::cli::WindowTarget::Pick { pixel, no_blend },
                },
            }
        }
        "long" => Command::Long {
            geometry: text(matches, "geometry"),
            notches: count(matches, "notches"),
            max_height: count(matches, "max_height"),
            max_frames: count(matches, "max_frames"),
            timeout: amount(matches, "timeout"),
            ignore_top: count(matches, "ignore_top"),
            inject: text(matches, "inject"),
        },
        "pin" => Command::Pin {
            files: texts(matches, "files")
                .iter()
                .map(|file| FilePath::from_text(file))
                .collect(),
            toggle: matches.get_flag("toggle"),
            show: matches.get_flag("show"),
            hide: matches.get_flag("hide"),
            close_all: matches.get_flag("close_all"),
            quit: matches.get_flag("quit"),
            list: matches.get_flag("list"),
            density: None,
            apply: None,
        },
        "record" => Command::Record {
            target: record_target(matches),
            fps: count(matches, "fps"),
            duration: amount(matches, "duration"),
            mic: text(matches, "mic"),
            no_mic: matches.get_flag("no_mic"),
            app_audio: matches.get_flag("app_audio"),
            follow: texts(matches, "follow"),
            no_follow: matches.get_flag("no_follow"),
            encoder: text(matches, "encoder"),
            encoder_backend: text(matches, "encoder_backend"),
            portal: matches.get_flag("portal"),
            no_portal: matches.get_flag("no_portal"),
        },
        "replay" => {
            let (_, start) = matches.subcommand().unwrap();
            Command::Replay {
                action: ReplayCommandLine::Start {
                    target: replay_target(start),
                },
                window: amount(matches, "window"),
                fps: count(matches, "fps"),
                gop: amount(matches, "gop"),
                encoder: text(matches, "encoder"),
                encoder_backend: text(matches, "encoder_backend"),
                mic: text(matches, "mic"),
                no_mic: matches.get_flag("no_mic"),
                app_audio: matches.get_flag("app_audio"),
                follow: texts(matches, "follow"),
                no_follow: matches.get_flag("no_follow"),
                save_dir: path(matches, "save_dir"),
                background: matches.get_flag("background"),
            }
        }
        other => panic!("{other}"),
    }
}

fn parse(argv: &[&str]) -> Result<Cli> {
    let matches = grammar()
        .try_get_matches_from(argv)
        .map_err(|error| VshotError::InvalidDestination(error.to_string()))?;
    let (name, inner) = matches.subcommand().unwrap();
    Ok(Cli {
        command: command(name, inner),
        cursor: matches.get_flag("cursor"),
        output: path(&matches, "output"),
        clipboard: matches.get_flag("clipboard"),
        pin: matches.get_flag("pin"),
        png_compression: text(&matches, "png_compression"),
    })
}

fn parse_with(argv: &[&str], defaults: CliDefaults) -> Result<Action> {
    parse(argv)?.parse_action(defaults)
}

fn parse_action(argv: &[&str]) -> Result<Action> {
    parse_with(argv, CliDefaults::default())
}

fn parse_request(argv: &[&str]) -> Result<Request> {
    parse(argv)?.parse_request(CliDefaults::default())
}

#[test]
fn requires_destination() {
    let error = parse_request(&["vshot", "all"]).unwrap_err();
    assert!(error.message().contains("no output destination"));
}

#[test]
fn parses_stdout_and_fixed_region() {
    let request = parse_request(&[
        "vshot",
        "region",
        "--geometry",
        "-10,20 40x30",
        "--output",
        "-",
    ])
    .unwrap();
    assert_eq!(request.destination, Destination::Stdout);
    assert_eq!(
        request.target,
        CaptureTarget::RegionFixed(Rect::new(-10, 20, 40, 30))
    );
}

#[test]
fn defaults_monitor_to_current() {
    let request = parse_request(&["vshot", "monitor", "--output", "-"]).unwrap();
    assert_eq!(request.target, CaptureTarget::Monitor("current".into()));
}

/// `record monitor` without a name means `current`, and `record window`
/// resolves its three shapes — focused, picked, named.
#[test]
fn record_targets_default_the_way_the_help_says() {
    let action =
        parse_action(&["vshot", "record", "monitor", "--duration", "1"]).unwrap();
    let Action::Record(RecordAction::Start(request)) = action else {
        panic!("`record monitor` is a start");
    };
    assert_eq!(
        request.target,
        RecordTarget::Monitor("current".into())
    );
    assert_eq!(request.duration, Some(1));

    let action = parse_action(&["vshot", "record", "window"]).unwrap();
    let Action::Record(RecordAction::Start(request)) = action else {
        panic!("`record window` is a start");
    };
    assert_eq!(
        request.target,
        RecordTarget::Window(WindowTarget::Active)
    );

    let action = parse_action(&["vshot", "record", "window", "--pick"]).unwrap();
    let Action::Record(RecordAction::Start(request)) = action else {
        panic!("`record window --pick` is a start");
    };
    assert_eq!(
        request.target,
        RecordTarget::Window(WindowTarget::Pick)
    );

    let action = parse_action(&["vshot", "record", "window", "firefox"]).unwrap();
    let Action::Record(RecordAction::Start(request)) = action else {
        panic!("`record window NAME` is a start");
    };
    assert_eq!(
        request.target,
        RecordTarget::Window(WindowTarget::Filter(
            "firefox".into()
        ))
    );

    // One way to name the window, not two that fight.
    assert!(parse_action(&["vshot", "record", "window", "x", "--pick"]).is_err());
    assert!(parse_action(&["vshot", "record", "window", ""]).is_err());

    // `record region` takes a fixed rectangle or frames one; the two
    // ways to say it are exclusive, like `vshot region`'s own.
    let action = parse_action(&[
        "vshot",
        "record",
        "region",
        "--no-portal",
        "--geometry",
        "10,20 300x200",
    ])
    .unwrap();
    let Action::Record(RecordAction::Start(request)) = action else {
        panic!("`record region --geometry` is a start");
    };
    assert_eq!(
        request.target,
        RecordTarget::Region(RegionTarget::Fixed(
            Rect::new(10, 20, 300, 200)
        ))
    );

    let action =
        parse_action(&["vshot", "record", "region", "--no-portal"]).unwrap();
    let Action::Record(RecordAction::Start(request)) = action else {
        panic!("`record region` is a start");
    };
    assert_eq!(
        request.target,
        RecordTarget::Region(RegionTarget::Pick)
    );

    assert!(
        parse_action(&[
            "vshot",
            "record",
            "region",
            "--no-portal",
            "--geometry",
            "0,0 10x10",
            "--interactive"
        ])
        .is_err(),
        "--geometry and --interactive are two ways to say it, not both"
    );

    // The portal cannot hand over a rectangle of a screen, so it is
    // refused rather than recording a whole screen and calling it one.
    assert!(
        parse_action(&[
            "vshot",
            "record",
            "region",
            "--portal",
            "--geometry",
            "0,0 10x10"
        ])
        .is_err(),
        "--portal has no region shape"
    );

    // The microphone: a bare `--mic` is the default source, a name is
    // that input, and `--no-mic` is a silence the config cannot override.
    let action = parse_action(&["vshot", "record", "monitor", "--mic"]).unwrap();
    let Action::Record(RecordAction::Start(request)) = action else {
        panic!("`record monitor --mic` is a start");
    };
    assert_eq!(
        request.mic,
        Some(MicChoice::Default),
        "a bare --mic asks for the default source"
    );

    let action = parse_action(&[
        "vshot",
        "record",
        "monitor",
        "--mic",
        "alsa_input.pci-0000_2f_00.4.analog-stereo",
    ])
    .unwrap();
    let Action::Record(RecordAction::Start(request)) = action else {
        panic!("`record monitor --mic NAME` is a start");
    };
    assert_eq!(
        request.mic,
        Some(MicChoice::Device(
            "alsa_input.pci-0000_2f_00.4.analog-stereo".into()
        ))
    );

    let action =
        parse_action(&["vshot", "record", "monitor", "--no-mic"]).unwrap();
    let Action::Record(RecordAction::Start(request)) = action else {
        panic!("`record monitor --no-mic` is a start");
    };
    assert_eq!(request.mic, None, "--no-mic is a silence");

    // The two contradict each other; clap refuses the pair.
    assert!(
        parse_action(&["vshot", "record", "monitor", "--mic", "--no-mic"])
            .is_err()
    );

    // `--mic` and `--app-audio` do not contradict: they are summed into
    // one track, so a window recording may carry both at once.
    let action = parse_action(&[
        "vshot",
        "record",
        "window",
        "--no-portal",
        "--mic",
        "--app-audio",
    ])
    .unwrap();
    let Action::Record(RecordAction::Start(request)) = action else {
        panic!("`record window --mic --app-audio` is a start");
    };
    assert_eq!(request.mic, Some(MicChoice::Default));
    assert!(request.app_audio, "both audio sources can be kept at once");

    // `record stop` takes no options, and the microphone flags are
    // options like any other.
    assert!(parse_action(&["vshot", "record", "stop", "--mic"]).is_err());
    assert!(parse_action(&["vshot", "record", "stop", "--no-mic"]).is_err());
}

/// `record mics` and `record stop` are the two shapes that record
/// nothing: they list or they signal, and every recording option is
/// refused by name rather than quietly ignored.
#[test]
fn the_read_only_record_shapes_take_no_options() {
    assert_eq!(
        parse_action(&["vshot", "record", "mics"]).unwrap(),
        Action::Record(RecordAction::Mics)
    );
    assert_eq!(
        parse_action(&["vshot", "record", "stop"]).unwrap(),
        Action::Record(RecordAction::Stop)
    );

    // The flags are global, so clap lets them through; the parser is
    // what says they mean nothing next to a listing.
    assert!(parse_action(&["vshot", "record", "mics", "--fps", "30"]).is_err());
    assert!(parse_action(&["vshot", "record", "mics", "--mic"]).is_err());
    assert!(
        parse_action(&["vshot", "record", "mics", "--output", "x.mp4"]).is_err()
    );
    assert!(parse_action(&["vshot", "record", "stop", "--no-portal"]).is_err());
    assert!(
        parse_action(&["vshot", "record", "stop", "--encoder", "hevc"]).is_err()
    );

    // The two portal flags contradict each other, and clap is what sees
    // it — the parser only resolves their absence.
    assert!(parse_action(&[
        "vshot",
        "record",
        "monitor",
        "--portal",
        "--no-portal"
    ])
    .is_err());
}

/// The `cli.record` section is what a flag falls back to, and a flag
/// always wins — `--no-portal` included, which is how a remembered
/// `true` is turned off for one recording.
#[test]
fn the_record_section_is_what_a_flag_falls_back_to() {
    let defaults = load(Some(
        r#"{"cli":{"record":{"encoder":"hevc","fps":30,"portal":true,"mic":"alsa_input.x","follow":["game","chat"]},"replay":{"follow":["game"],"save-dir":"/tmp/vshot-clips"}}}"#,
    ));

    let remembered = |argv: &[&str]| parse_with(argv, defaults.clone());
    let start = |argv: &[&str]| match remembered(argv) {
        Ok(Action::Record(RecordAction::Start(request))) => request,
        other => panic!("{argv:?} is a start: {other:?}"),
    };

    // Nothing on the command line: the file decides, field by field.
    let request = start(&["vshot", "record", "monitor"]);
    assert_eq!(request.encoder, VideoCodec::Hevc);
    assert_eq!(request.fps, 30);
    assert!(request.portal, "the file remembers the portal");
    assert_eq!(
        request.mic,
        Some(MicChoice::Device("alsa_input.x".into()))
    );

    // A remembered portal reaches the refusal too: one stream is what
    // the portal hands over, so "the whole desktop" has no portal shape.
    assert!(remembered(&["vshot", "record", "all"]).is_err());
    assert!(
        remembered(&["vshot", "record", "all", "--no-portal"]).is_ok(),
        "--no-portal is how the whole desktop is recorded anyway"
    );

    // Flags win over the file, one at a time and together.
    let request = start(&[
        "vshot",
        "record",
        "monitor",
        "--no-portal",
        "--fps",
        "24",
        "--encoder",
        "av1",
    ]);
    assert!(!request.portal);
    assert_eq!(request.fps, 24);
    assert_eq!(request.encoder, VideoCodec::Av1);
    assert_eq!(
        request.mic,
        Some(MicChoice::Device("alsa_input.x".into())),
        "a flag nobody gave keeps the file's value"
    );

    // A bare `--mic` is the session's default source, not the name the
    // file remembers, and `--no-mic` is a silence the file cannot fill
    // back in.
    assert_eq!(
        start(&["vshot", "record", "monitor", "--mic"]).mic,
        Some(MicChoice::Default)
    );
    assert_eq!(start(&["vshot", "record", "monitor", "--no-mic"]).mic, None);

    // A remembered `record.follow` is read only for a bare `record
    // window`: every other target ignores it, so the file cannot turn a
    // `record monitor` into the error `--follow` would be there.
    assert_eq!(
        start(&["vshot", "record", "window"]).follow,
        vec!["game".to_owned(), "chat".to_owned()]
    );
    assert!(start(&["vshot", "record", "monitor"]).follow.is_empty());
    assert!(start(&["vshot", "record", "all", "--no-portal"])
        .follow
        .is_empty());
    // A window named on the command line is not "a bare window": the
    // remembered list stays out of it.
    assert!(start(&["vshot", "record", "window", "firefox"])
        .follow
        .is_empty());
    // `--no-follow` is an explicit empty list and wins over the file; an
    // explicit `--follow` names its own windows.
    assert!(start(&["vshot", "record", "window", "--no-follow"])
        .follow
        .is_empty());
    assert_eq!(
        start(&["vshot", "record", "window", "--follow", "chat"]).follow,
        vec!["chat".to_owned()]
    );

    // The replay side reads its own `replay.follow`, and a remembered
    // `replay.save-dir` is what a save falls back to.
    let Action::Replay(ReplayAction::Start { request, .. }) =
        remembered(&["vshot", "replay", "start", "window"]).unwrap()
    else {
        panic!("`replay start window` is a start");
    };
    assert_eq!(request.follow, vec!["game".to_owned()]);
    assert_eq!(
        request.save_dir,
        Some(FilePath::from_text("/tmp/vshot-clips"))
    );
    let Action::Replay(ReplayAction::Start { request, .. }) =
        remembered(&["vshot", "replay", "start", "window", "--no-follow"])
            .unwrap()
    else {
        panic!("`replay start window --no-follow` is a start");
    };
    assert!(request.follow.is_empty());
    let Action::Replay(ReplayAction::Start { request, .. }) = remembered(&[
        "vshot",
        "replay",
        "start",
        "monitor",
        "--save-dir",
        "/tmp/other",
    ])
    .unwrap() else {
        panic!("`replay start monitor --save-dir` is a start");
    };
    assert_eq!(
        request.save_dir,
        Some(FilePath::from_text("/tmp/other"))
    );
}

/// `--follow` and `--no-follow` contradict each other; clap is what sees
/// it, on both subcommands.
#[test]
fn follow_and_no_follow_are_mutually_exclusive() {
    assert!(parse_action(&[
        "vshot",
        "record",
        "window",
        "--follow",
        "game",
        "--no-follow"
    ])
    .is_err());
    assert!(parse_action(&[
        "vshot",
        "replay",
        "start",
        "window",
        "--follow",
        "game",
        "--no-follow"
    ])
    .is_err());
    // They are options like any other: `record stop` refuses them too.
    assert!(parse_action(&["vshot", "record", "stop", "--no-follow"]).is_err());
}

#[test]
fn rejects_conflicting_destinations() {
    let error = parse_request(&["vshot", "all", "--output", "out.png", "--clipboard"])
        .unwrap_err();
    assert!(
        error.message().contains("mutually exclusive")
            || error.message().contains("cannot be used")
    );
}

#[test]
fn window_active_parses_the_pixel_flag() {
    let action =
        parse_action(&["vshot", "window", "active", "--clipboard"]).unwrap();
    assert_eq!(
        action,
        Action::Capture(Request {
            target: CaptureTarget::ActiveWindow {
                pixel_detect: false,
                no_blend: false,
            },
            destination: Destination::Clipboard,
            cursor: false,
            compression: PngCompression::Fast,
        })
    );
    let action =
        parse_action(&["vshot", "window", "active", "--pixel", "--clipboard"])
            .unwrap();
    assert!(matches!(
        action,
        Action::Capture(Request {
            target: CaptureTarget::ActiveWindow {
                pixel_detect: true,
                ..
            },
            ..
        })
    ));
}

#[test]
fn window_active_parses_the_no_blend_flag() {
    let action =
        parse_action(&["vshot", "window", "active", "--no-blend", "--clipboard"])
            .unwrap();
    assert!(matches!(
        action,
        Action::Capture(Request {
            target: CaptureTarget::ActiveWindow {
                pixel_detect: false,
                no_blend: true,
            },
            ..
        })
    ));
    // The two choose different boxes of pixels, so asking for both is a
    // contradiction rather than one winning.
    assert!(parse_action(&[
        "vshot",
        "window",
        "active",
        "--no-blend",
        "--pixel",
        "--clipboard"
    ])
    .is_err());
}

#[test]
fn window_pick_parses_and_takes_a_destination() {
    let action =
        parse_action(&["vshot", "window", "pick", "--clipboard"]).unwrap();
    assert!(matches!(
        action,
        Action::Capture(Request {
            target: CaptureTarget::WindowPick {
                pixel_detect: false,
                no_blend: false,
            },
            destination: Destination::Clipboard,
            ..
        })
    ));
    let action =
        parse_action(&["vshot", "window", "pick", "--pixel", "--output", "-"])
            .unwrap();
    assert!(matches!(
        action,
        Action::Capture(Request {
            target: CaptureTarget::WindowPick {
                pixel_detect: true,
                ..
            },
            destination: Destination::Stdout,
            ..
        })
    ));
}

#[test]
fn pin_capture_destination_parses() {
    let request =
        parse_request(&["vshot", "region", "--geometry", "0,0 20x20", "--pin"]).unwrap();
    assert_eq!(request.destination, Destination::Pin);
}

#[test]
fn pin_subcommand_maps_control_flags() {
    let action = parse_action(&["vshot", "pin", "--toggle"]).unwrap();
    assert_eq!(
        action,
        Action::Pin(PinInvocation {
            files: Vec::new(),
            clipboard: false,
            command: Some(PinCommand::Toggle),
            density: None,
        })
    );
    let action = parse_action(&["vshot", "pin", "a.png", "b.png"]).unwrap();
    match action {
        Action::Pin(invocation) => {
            assert_eq!(invocation.command, None);
            assert_eq!(
                invocation.files,
                vec![FilePath::from_text("a.png"), FilePath::from_text("b.png")]
            );
        }
        other => panic!("expected a pin action, got {other:?}"),
    }
}

#[test]
fn pin_subcommand_accepts_clipboard_source() {
    let action = parse_action(&["vshot", "pin", "--clipboard"]).unwrap();
    assert_eq!(
        action,
        Action::Pin(PinInvocation {
            files: Vec::new(),
            clipboard: true,
            command: None,
            density: None,
        })
    );
    let action = parse_action(&["vshot", "pin", "--clipboard", "a.png"]).unwrap();
    match action {
        Action::Pin(invocation) => {
            assert!(invocation.clipboard);
            assert_eq!(invocation.files, vec![FilePath::from_text("a.png")]);
        }
        other => panic!("expected a pin action, got {other:?}"),
    }
}

#[test]
fn pin_subcommand_rejects_bad_combinations() {
    let error = parse_action(&["vshot", "pin", "--toggle", "--hide"]).unwrap_err();
    assert!(error.message().contains("mutually exclusive"), "{error:?}");
    let error = parse_action(&["vshot", "pin", "a.png", "--quit"]).unwrap_err();
    assert!(error.message().contains("control flag"), "{error:?}");
    let error =
        parse_action(&["vshot", "pin", "--clipboard", "--quit"]).unwrap_err();
    assert!(error.message().contains("control flag"), "{error:?}");
    let error = parse_action(&["vshot", "pin"]).unwrap_err();
    assert!(error.message().contains("--clipboard"), "{error:?}");
    let error =
        parse_action(&["vshot", "pin", "a.png", "--output", "b.png"]).unwrap_err();
    assert!(error.message().contains("do not apply"), "{error:?}");
}

#[test]
fn long_shot_parses_its_options() {
    let action = parse_action(&[
        "vshot",
        "long",
        "--geometry",
        "10,20 300x400",
        "--notches",
        "2",
        "--max-height",
        "5000",
        "--ignore-top",
        "24",
        "--inject",
        "wlr",
        "--clipboard",
    ])
    .unwrap();
    match action {
        Action::Capture(Request {
            target:
                CaptureTarget::LongShot {
                    region,
                    options,
                    inject,
                },
            ..
        }) => {
            assert_eq!(region, Some(Rect::new(10, 20, 300, 400)));
            assert_eq!(options.notches, 2);
            assert_eq!(options.max_height, 5000);
            assert_eq!(options.ignore_top, 24);
            assert_eq!(inject, Prefer::Wlr);
        }
        other => panic!("expected a scrolling capture, got {other:?}"),
    }
}

#[test]
fn long_shot_defaults_to_picking_a_region_with_the_auto_backend() {
    let action = parse_action(&["vshot", "long", "--output", "-"]).unwrap();
    match action {
        Action::Capture(Request {
            target:
                CaptureTarget::LongShot {
                    region,
                    options,
                    inject,
                },
            ..
        }) => {
            assert_eq!(region, None);
            assert_eq!(options, LongShotOptions::default());
            assert_eq!(inject, Prefer::Auto);
        }
        other => panic!("expected a scrolling capture, got {other:?}"),
    }
}

#[test]
fn long_shot_rejects_an_unknown_wheel_backend() {
    let error =
        parse_action(&["vshot", "long", "--inject", "mouse", "--clipboard"])
            .unwrap_err();
    assert!(
        error.message().contains("auto, wlr, portal, uinput"),
        "{error:?}"
    );
}

#[test]
fn the_portal_needs_a_screen_or_a_window() {
    for refused in [
        ["vshot", "record", "all", "--portal"],
        ["vshot", "record", "region", "--portal"],
    ] {
        assert!(parse_action(&refused).is_err(), "{refused:?}");
    }
    assert!(parse_action(&["vshot", "record", "monitor", "--portal"]).is_ok());
    assert!(parse_action(&["vshot", "record", "window", "--portal"]).is_ok());
}

#[test]
fn following_and_a_windows_sound_need_a_window() {
    for refused in [
        &["vshot", "record", "monitor", "--app-audio"][..],
        &["vshot", "record", "all", "--follow", "x"],
        &["vshot", "replay", "start", "monitor", "--app-audio"],
        &["vshot", "replay", "start", "all", "--follow", "x"],
        &["vshot", "record", "window", "--portal", "--app-audio"],
    ] {
        assert!(parse_action(refused).is_err(), "{refused:?}");
    }
    assert!(parse_action(&["vshot", "replay", "start", "window", "--app-audio"]).is_ok());
}

#[test]
fn a_remembered_monitor_gives_way_to_a_named_one() {
    let defaults = CliDefaults {
        monitor: Some("HDMI-A-1".to_owned()),
        png_compression: Some("high".to_owned()),
        ..CliDefaults::default()
    };
    let request = |argv: &[&str]| parse(argv).unwrap().parse_request(defaults.clone()).unwrap();
    let plain = request(&["vshot", "monitor", "--clipboard"]);
    assert_eq!(plain.target, CaptureTarget::Monitor("HDMI-A-1".to_owned()));
    assert_eq!(plain.compression, PngCompression::High);
    let named = request(&[
        "vshot",
        "monitor",
        "DP-1",
        "--clipboard",
        "--cursor",
        "--png-compression",
        "none",
    ]);
    assert_eq!(named.target, CaptureTarget::Monitor("DP-1".to_owned()));
    assert_eq!(named.compression, PngCompression::Stored);
    assert!(named.cursor);
}

#[test]
fn an_unknown_compression_and_a_bad_rectangle_are_refused() {
    let error = parse_request(&["vshot", "all", "--clipboard", "--png-compression", "x"]);
    assert!(error.is_err());
    assert!(matches!(
        parse_request(&["vshot", "region", "--geometry", "1,2", "--clipboard"]),
        Err(VshotError::InvalidGeometry(_))
    ));
}

#[test]
fn nothing_remembered_fails_a_capture() {
    let bad = load(Some(
        r#"{"cli":{"png-compression":"slowest","monitor":"  ","long":{"inject":"mouse"}}}"#,
    ));
    let request = |argv: &[&str]| parse(argv).unwrap().parse_request(bad.clone());
    let monitor = request(&["vshot", "monitor", "--clipboard"]).unwrap();
    assert_eq!(monitor.target, CaptureTarget::Monitor("current".to_owned()));
    assert_eq!(monitor.compression, PngCompression::Fast);
    match request(&["vshot", "long", "--clipboard"]).unwrap().target {
        CaptureTarget::LongShot { inject, .. } => assert_eq!(inject, Prefer::Auto),
        other => panic!("a scrolling capture is asked for: {other:?}"),
    }
    // A remembered name that exists is used, and the flag still has to be one.
    let good = load(Some(r#"{"cli":{"long":{"inject":"uinput"}}}"#));
    match parse(&["vshot", "long", "--clipboard"]).unwrap().parse_request(good).unwrap().target {
        CaptureTarget::LongShot { inject, .. } => assert_eq!(inject, Prefer::Uinput),
        other => panic!("a scrolling capture is asked for: {other:?}"),
    }
    assert!(request(&["vshot", "monitor", "", "--clipboard"]).is_err());
    assert!(request(&["vshot", "long", "--inject", "mouse", "--clipboard"]).is_err());
}
