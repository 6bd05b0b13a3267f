use std::cell::RefCell;

use vshot::capture::active_output::{
    find_active_output, hyprland_output, parse_cursor, parse_hyprland_monitors, parse_kwin_output_name,
    parse_niri_output, parse_sway_outputs, probes_for, ActiveOutput, Probe, Session,
};
use vshot::capture::window::{CommandOutput, WindowCommand, WindowCommandRunner};
use vshot::error::{Result, VshotError};
use vshot::geometry::Rect;

/// The answer for a compositor that names the output it picked.
fn named(name: &str, rect: Rect) -> ActiveOutput {
    ActiveOutput {
        name: Some(name.to_owned()),
        rect: Some(rect),
    }
}

#[test]
fn finds_the_focused_hyprland_monitor() {
    // The first entry is focused and is the non-zero origin one, so a
    // parser that ignored `focused` would report DP-3's 0,0 instead. Its
    // 3840x2160 mode at scale 2 is 1920x1080 of logical layout.
    let json = br#"[
        {"id":0,"name":"DP-2","x":1920,"y":0,"width":3840,"height":2160,
         "scale":2,"focused":true},
        {"id":1,"name":"DP-3","x":0,"y":0,"width":1920,"height":1080,
         "scale":1,"focused":false}
    ]"#;
    assert_eq!(
        hyprland_output(json, None),
        Some(named("DP-2", Rect::new(1920, 0, 1920, 1080)))
    );
}

#[test]
fn the_pointer_decides_the_output_before_the_focus_does() {
    let json = br#"[
        {"name":"DP-2","x":1920,"y":0,"width":3840,"height":2160,
         "scale":2,"focused":true},
        {"name":"DP-3","x":0,"y":0,"width":1920,"height":1080,
         "scale":1,"focused":false}
    ]"#;
    // Keyboard focus on the 4K monitor, pointer on the 1080p one: the pin
    // belongs where the user is pointing, and it goes there under the name
    // Qt knows that output by.
    assert_eq!(
        hyprland_output(json, Some((1666, 502))),
        Some(named("DP-3", Rect::new(0, 0, 1920, 1080)))
    );
    // Pointer over the 4K monitor, which starts at logical x = 1920.
    assert_eq!(
        hyprland_output(json, Some((2000, 10))),
        Some(named("DP-2", Rect::new(1920, 0, 1920, 1080)))
    );
    // A pointer the layout does not cover falls back to the focused
    // monitor rather than picking nothing.
    assert_eq!(
        hyprland_output(json, Some((-5000, -5000))),
        Some(named("DP-2", Rect::new(1920, 0, 1920, 1080)))
    );
    // No pointer reading at all: focus decides.
    assert_eq!(
        hyprland_output(json, None),
        Some(named("DP-2", Rect::new(1920, 0, 1920, 1080)))
    );
}

#[test]
fn the_logical_right_and_bottom_edges_are_exclusive() {
    let json = br#"[{"name":"A","x":0,"y":0,"width":1920,"height":1080,
                    "scale":1,"focused":true}]"#;
    // The last pixel is inside; one past it is not, and then the focused
    // fallback answers instead of a bogus hit.
    assert_eq!(
        hyprland_output(json, Some((1919, 1079))),
        Some(named("A", Rect::new(0, 0, 1920, 1080)))
    );
    assert_eq!(
        hyprland_output(json, Some((1920, 1079))),
        Some(named("A", Rect::new(0, 0, 1920, 1080)))
    );
    // A negative-origin layout is hit-tested just the same.
    let json = br#"[{"name":"A","x":-1600,"y":0,"width":1600,"height":900,
                    "scale":1,"focused":false}]"#;
    assert_eq!(
        hyprland_output(json, Some((-1600, 5))),
        Some(named("A", Rect::new(-1600, 0, 1600, 900)))
    );
}

#[test]
fn cursor_output_is_parsed_or_rejected_whole() {
    assert_eq!(parse_cursor(b"1666, 502"), Some((1666, 502)));
    assert_eq!(parse_cursor(b" -12,-8\n"), Some((-12, -8)));
    assert_eq!(parse_cursor(b"1666"), None);
    assert_eq!(parse_cursor(b"x, y"), None);
    assert_eq!(parse_cursor(b""), None);
    assert_eq!(parse_cursor(&[0xff, 0xfe]), None);
}

#[test]
fn a_broken_monitor_entry_does_not_hide_the_others() {
    // The first entry is unusable; the second still answers for the
    // pointer, so one odd monitor cannot break the lookup.
    let json = br#"[
        {"name":"BROKEN","x":0,"y":0,"scale":0,"focused":false},
        {"name":"GOOD","x":0,"y":0,"width":800,"height":600,
         "scale":1,"focused":true}
    ]"#;
    assert_eq!(
        hyprland_output(json, Some((10, 10))),
        Some(named("GOOD", Rect::new(0, 0, 800, 600)))
    );
}

#[test]
fn hyprland_scale_is_applied_and_fractional_scales_survive() {
    let json = br#"[{"x":0,"y":0,"width":2560,"height":1440,"scale":1.25,"focused":true}]"#;
    assert_eq!(
        hyprland_output(json, None),
        Some(ActiveOutput {
            name: None,
            rect: Some(Rect::new(0, 0, 2048, 1152)),
        })
    );
    // A missing scale means an unscaled output, and a missing name is not
    // fatal: the rect still carries the answer.
    let json = br#"[{"x":0,"y":0,"width":800,"height":600,"focused":true}]"#;
    assert_eq!(
        hyprland_output(json, None),
        Some(ActiveOutput {
            name: None,
            rect: Some(Rect::new(0, 0, 800, 600)),
        })
    );
    // A nonsensical scale is not worth guessing at.
    let json = br#"[{"x":0,"y":0,"width":800,"height":600,"scale":0,"focused":true}]"#;
    assert_eq!(parse_hyprland_monitors(json), Vec::new());
}

#[test]
fn hyprland_monitors_without_focus_pick_nothing() {
    let json = br#"[{"x":0,"y":0,"width":1920,"height":1080,"focused":false}]"#;
    assert_eq!(hyprland_output(json, None), None);
}

#[test]
fn finds_the_focused_sway_output() {
    let json = br#"[
        {"name":"HDMI-A-1","focused":false,"rect":{"x":0,"y":0,"width":1920,"height":1080}},
        {"name":"DP-1","focused":true,"rect":{"x":-1600,"y":0,"width":1600,"height":900}}
    ]"#;
    assert_eq!(
        parse_sway_outputs(json),
        Some(named("DP-1", Rect::new(-1600, 0, 1600, 900)))
    );
}

#[test]
fn malformed_probe_output_is_not_a_failure() {
    assert_eq!(parse_hyprland_monitors(b"not json"), Vec::new());
    assert_eq!(parse_hyprland_monitors(br#"{"x":0}"#), Vec::new());
    assert_eq!(parse_sway_outputs(b""), None);
    assert_eq!(parse_sway_outputs(br#"[{"focused":true}]"#), None);
}

#[test]
fn probe_commands_name_the_focused_output_queries() {
    let commands = probes_for(Session::Unknown)
        .into_iter()
        .map(Probe::command)
        .collect::<Vec<_>>();
    assert_eq!(commands[0].program, "hyprctl");
    assert_eq!(commands[0].args, ["monitors", "-j"]);
    assert_eq!(commands[1].program, "swaymsg");
    assert_eq!(commands[1].args, ["-t", "get_outputs"]);
    assert_eq!(commands[2].program, "niri");
    assert_eq!(commands[2].args, ["msg", "--json", "focused-output"]);
    // KWin answers "which output is the user on" itself; both D-Bus CLIs
    // ask the same question so that either package alone is enough.
    assert_eq!(commands[3].program, "gdbus");
    assert_eq!(
        commands[3].args.last(),
        Some(&"org.kde.KWin.activeOutputName")
    );
    assert_eq!(commands[4].program, "dbus-send");
    assert_eq!(
        commands[4].args.last(),
        Some(&"org.kde.KWin.activeOutputName")
    );
}

#[test]
fn the_desktop_variables_name_the_session_compositor() {
    let detect = Session::from_desktops;
    assert_eq!(detect(Some("KDE"), Some("KDE")), Session::KWin);
    assert_eq!(
        detect(Some("Hyprland"), Some("Hyprland")),
        Session::Hyprland
    );
    assert_eq!(detect(Some("sway"), None), Session::Sway);
    assert_eq!(detect(None, Some("niri")), Session::Niri);
    // The value is a colon-separated list and the case is not fixed.
    assert_eq!(detect(Some("KDE:GNOME"), None), Session::KWin);
    assert_eq!(detect(Some("kde"), None), Session::KWin);
    assert_eq!(detect(Some("PLASMA"), None), Session::KWin);
    // The first variable that names a compositor decides, so a stale
    // XDG_SESSION_DESKTOP cannot override XDG_CURRENT_DESKTOP.
    assert_eq!(detect(Some("KDE"), Some("Hyprland")), Session::KWin);
    // A session we know nothing about, or know only as something without a
    // probe, tries everything.
    assert_eq!(detect(Some("GNOME"), Some("gnome")), Session::Unknown);
    assert_eq!(detect(Some(""), Some("")), Session::Unknown);
    assert_eq!(detect(None, None), Session::Unknown);
}

#[test]
fn only_the_sessions_own_compositor_is_asked() {
    // A Plasma session that inherited Hyprland's variables must not ask
    // hyprctl: the answer would be the focused monitor of a compositor
    // nobody is looking at.
    assert_eq!(
        probes_for(Session::KWin),
        vec![Probe::KWinGdbus, Probe::KWinDbusSend]
    );
    assert_eq!(probes_for(Session::Hyprland), vec![Probe::Hyprland]);
    assert_eq!(probes_for(Session::Sway), vec![Probe::Sway]);
    assert_eq!(probes_for(Session::Niri), vec![Probe::Niri]);
    assert_eq!(
        probes_for(Session::Unknown),
        vec![
            Probe::Hyprland,
            Probe::Sway,
            Probe::Niri,
            Probe::KWinGdbus,
            Probe::KWinDbusSend,
        ]
    );
}

#[test]
fn finds_the_focused_niri_output() {
    // `niri msg --json focused-output` for a 4K output at scale 2: `logical`
    // already holds the layout geometry, so its 1920-wide rect is used as
    // it stands rather than being worked out from the 3840x2160 mode.
    let json = br#"{
        "name":"DP-2","make":"Dell","model":"X","serial":null,
        "modes":[{"width":3840,"height":2160,"refresh_rate":60000,
                  "is_preferred":true}],
        "current_mode":0,"is_custom_mode":false,"vrr_supported":false,
        "vrr_enabled":false,
        "logical":{"x":1920,"y":0,"width":1920,"height":1080,"scale":2.0,
                   "transform":"Normal"}
    }"#;
    assert_eq!(
        parse_niri_output(json),
        Some(named("DP-2", Rect::new(1920, 0, 1920, 1080)))
    );
}

#[test]
fn a_disabled_niri_output_is_not_an_answer() {
    // niri leaves `logical` unset when an output is disabled, and there is
    // no geometry to pin onto in that case.
    let json = br#"{"name":"DP-2","logical":null,"current_mode":null}"#;
    assert_eq!(parse_niri_output(json), None);
    assert_eq!(parse_niri_output(b""), None);
    assert_eq!(parse_niri_output(b"not json"), None);
    // A fractional scale is carried in `logical.scale` and deliberately
    // plays no part in the rect: `logical` is already logical.
    let json = br#"{"name":"A","logical":{"x":0,"y":0,"width":1280,"height":720,
                               "scale":1.5,"transform":"Normal"}}"#;
    assert_eq!(
        parse_niri_output(json),
        Some(named("A", Rect::new(0, 0, 1280, 720)))
    );
}

#[test]
fn kwin_names_the_active_output() {
    // `gdbus call ... activeOutputName` wraps its reply in a tuple.
    assert_eq!(
        parse_kwin_output_name(b"('DP-2',)\n"),
        Some(ActiveOutput {
            name: Some("DP-2".into()),
            rect: None,
        })
    );
    // `dbus-send --print-reply=literal` prints the bare string, indented,
    // and without a trailing newline.
    assert_eq!(
        parse_kwin_output_name(b"   DP-2"),
        Some(ActiveOutput {
            name: Some("DP-2".into()),
            rect: None,
        })
    );
    // A double-quoted reply is just as readable.
    assert_eq!(
        parse_kwin_output_name(b"(\"HDMI-A-1\",)\n"),
        Some(ActiveOutput {
            name: Some("HDMI-A-1".into()),
            rect: None,
        })
    );
}

#[test]
fn an_empty_kwin_name_is_not_an_answer() {
    // KWin reports an empty name when no output qualifies, and a name that
    // matches no screen would keep the daemon on the primary output — so it
    // has to fall through to the next probe instead.
    assert_eq!(parse_kwin_output_name(b"('',)\n"), None);
    assert_eq!(parse_kwin_output_name(b"   "), None);
    assert_eq!(parse_kwin_output_name(b"\n"), None);
    assert_eq!(parse_kwin_output_name(b""), None);
    assert_eq!(parse_kwin_output_name(&[0xff, 0xfe]), None);
}

/// Answers the programs it knows and remembers which ones were asked.
struct Programs {
    known: Vec<(&'static str, &'static str)>,
    asked: RefCell<Vec<String>>,
}

impl WindowCommandRunner for Programs {
    fn run(&self, command: &WindowCommand) -> Result<CommandOutput> {
        let line = format!("{} {}", command.program, command.args.join(" "));
        self.asked.borrow_mut().push(line.clone());
        match self.known.iter().find(|(start, _)| line.starts_with(start)) {
            Some((_, stdout)) => Ok(CommandOutput {
                success: true,
                status: "exit status: 0".to_owned(),
                stdout: stdout.as_bytes().to_vec(),
                stderr: Vec::new(),
            }),
            None => Err(VshotError::CommandIo {
                program: command.program.clone(),
                source: "not found".to_owned(),
            }),
        }
    }
}

fn programs(known: Vec<(&'static str, &'static str)>) -> Programs {
    Programs {
        known,
        asked: RefCell::new(Vec::new()),
    }
}

#[test]
fn the_first_probe_that_answers_decides() {
    let runner = programs(vec![
        ("swaymsg", "not json"),
        ("gdbus", "('',)"),
        ("dbus-send", "   DP-2"),
    ]);
    let output = find_active_output(Session::Unknown, &runner).unwrap();
    assert_eq!(output.name.as_deref(), Some("DP-2"));
    assert_eq!(runner.asked.borrow().len(), 5);
    let runner = programs(Vec::new());
    assert_eq!(find_active_output(Session::KWin, &runner), None);
    assert_eq!(runner.asked.borrow().len(), 2);
}

#[test]
fn hyprland_is_asked_for_the_pointer_too() {
    let monitors = r#"[
        {"name":"A","x":0,"y":0,"width":100,"height":100,"focused":true},
        {"name":"B","x":100,"y":0,"width":100,"height":100,"focused":false}
    ]"#;
    let runner = programs(vec![
        ("hyprctl monitors", monitors),
        ("hyprctl cursorpos", "150, 50"),
    ]);
    let output = find_active_output(Session::Hyprland, &runner).unwrap();
    assert_eq!(output.name.as_deref(), Some("B"));
    assert_eq!(
        *runner.asked.borrow(),
        ["hyprctl monitors -j", "hyprctl cursorpos"]
    );
}

#[test]
fn hyprlands_word_is_final() {
    // No monitor is focused and the pointer cannot be read: that is an answer,
    // and Sway's reply for the same outputs is not looked at.
    let runner = programs(vec![
        (
            "hyprctl monitors",
            r#"[{"name":"A","x":0,"y":0,"width":100,"height":100,"focused":false}]"#,
        ),
        (
            "swaymsg",
            r#"[{"name":"A","focused":true,"rect":{"x":0,"y":0,"width":100,"height":100}}]"#,
        ),
    ]);
    assert_eq!(find_active_output(Session::Unknown, &runner), None);
    assert_eq!(
        *runner.asked.borrow(),
        ["hyprctl monitors -j", "hyprctl cursorpos"]
    );
    // A reply that cannot be read says nothing, and the next one is asked.
    let runner = programs(vec![
        ("hyprctl monitors", "not json"),
        (
            "swaymsg",
            r#"[{"name":"A","focused":true,"rect":{"x":0,"y":0,"width":100,"height":100}}]"#,
        ),
    ]);
    let output = find_active_output(Session::Unknown, &runner).unwrap();
    assert_eq!(output.name.as_deref(), Some("A"));
}
