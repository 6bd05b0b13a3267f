use std::cell::RefCell;

use vshot::capture::active_output::Session;
use vshot::capture::window::{
    compositors_for, find_active_window, find_active_window_for, find_windows, find_windows_for,
    join_label,
    parse_hyprland_active_window, parse_hyprland_windows, parse_kwin_active_window,
    parse_kwin_windows, parse_sway_active_window, parse_sway_windows, topmost_containing,
    window_under, CommandOutput, Compositor, ProcessWindowProvider, WindowCommand,
    WindowCommandRunner, WindowSource, KWIN_PROBE,
};
use vshot::error::Result;
use vshot::geometry::{Point, Rect};

/// Resolving a click takes the window on top under it — the *last*
/// candidate containing the point, because the list is ordered bottom to
/// top, exactly like the picker's own hit test — and a point on bare
/// desktop resolves to nothing.
#[test]
fn the_window_on_top_under_a_point_wins() {
    let desktop = Rect::new(0, 0, 1920, 1080);
    let inner = Rect::new(100, 100, 800, 600);
    let floating = Rect::new(800, 500, 400, 300);
    // Bottom to top: desktop, inner, floating.
    let windows = vec![desktop, inner, floating];
    let resolved = |point| topmost_containing(&windows, point);
    assert_eq!(resolved(Point::new(900, 700)), Some(floating));
    assert_eq!(resolved(Point::new(400, 400)), Some(inner));
    assert_eq!(resolved(Point::new(1900, 1000)), Some(desktop));
    assert_eq!(resolved(Point::new(2000, 100)), None);
    // Right and bottom edges belong to the next window, exactly as in the
    // picker's own hit test: (900, 400) is on the inner rect's right edge,
    // so only the full-screen window is left.
    assert_eq!(resolved(Point::new(900, 400)), Some(desktop));
    assert_eq!(resolved(Point::new(1900, 1100)), None);
}

/// The rule is "on top", not "smallest": a floating window larger than the
/// tiled one it sits on still wins.
#[test]
fn a_floating_window_larger_than_the_one_under_it_still_wins() {
    let tiled = Rect::new(0, 0, 400, 300);
    let floating = Rect::new(100, 100, 800, 600);
    let windows = vec![tiled, floating];
    let resolved = |point| topmost_containing(&windows, point);
    // Inside both: the larger one wins because it is the one on top.
    assert_eq!(resolved(Point::new(200, 200)), Some(floating));
    // Outside the floating window the tiled one is still what is there.
    assert_eq!(resolved(Point::new(50, 50)), Some(tiled));
    assert_eq!(resolved(Point::new(950, 700)), None);
}

/// Hyprland's own stacking, which the candidate order has to mirror: the
/// tiled window first, then the floating one, then the pinned one.  The
/// clients arrive in a different order, so only the sort can produce this.
#[test]
fn lists_hyprland_floating_and_pinned_windows_last() {
    let monitors = br#"[{"id":0,"x":0,"y":0,"width":1920,"height":1080,"scale":1.0,
        "activeWorkspace":{"name":"1"},"specialWorkspace":{"name":""}}]"#;
    let clients = br#"[
        {"at":[100,100],"size":[400,300],"monitor":0,"floating":false,"pinned":false,
         "workspace":{"name":"1"},"class":"tiled","title":"Tiled"},
        {"at":[200,200],"size":[200,100],"monitor":0,"floating":true,"pinned":true,
         "workspace":{"name":"1"},"class":"pinned","title":"Pinned"},
        {"at":[150,150],"size":[300,200],"monitor":0,"floating":true,"pinned":false,
         "workspace":{"name":"1"},"class":"floating","title":"Floating"}
    ]"#;
    let windows = parse_hyprland_windows(clients, monitors).unwrap();
    let labels: Vec<&str> = windows.iter().map(|window| window.label.as_str()).collect();
    assert_eq!(labels, ["tiled", "floating", "pinned"]);
    // A click inside all three lands on the pinned window, the topmost.
    assert_eq!(
        window_under(&windows, Point::new(250, 240)),
        Some(Rect::new(200, 200, 200, 100))
    );
}

/// A pinned window that does not float is not lifted: Hyprland asks for
/// both flags before it draws or hit-tests a window as pinned.
#[test]
fn lists_a_pinned_tiled_hyprland_window_as_tiled() {
    let monitors = br#"[{"id":0,"x":0,"y":0,"width":1920,"height":1080,"scale":1.0,
        "activeWorkspace":{"name":"1"},"specialWorkspace":{"name":""}}]"#;
    let clients = br#"[
        {"at":[0,0],"size":[800,600],"monitor":0,"floating":false,"pinned":true,
         "workspace":{"name":"1"},"class":"pinned-tile","title":"Pinned tile"}
    ]"#;
    let windows = parse_hyprland_windows(clients, monitors).unwrap();
    assert_eq!(windows.len(), 1);
    assert_eq!(windows[0].label, "pinned-tile — Pinned tile");
}

/// Sway hit-tests and draws floating containers above the tiling tree, so
/// they come last in the list even though the tree visits them first.
#[test]
fn lists_floating_sway_containers_last() {
    let tree = br#"{"type":"root","nodes":[{"type":"output","nodes":[{"type":"workspace",
        "visible":true,"name":"1",
        "nodes":[{"type":"con","app_id":"tiled","rect":{"x":0,"y":0,"width":800,"height":600}}],
        "floating_nodes":[{"type":"floating_con","nodes":[{"type":"con","app_id":"float",
            "rect":{"x":100,"y":100,"width":300,"height":200}}]}]}]}]}"#;
    let windows = parse_sway_windows(tree).unwrap();
    assert_eq!(windows.len(), 2, "{windows:?}");
    assert_eq!(windows[0].label, "tiled");
    assert_eq!(windows[1].label, "float");
    assert_eq!(
        window_under(&windows, Point::new(200, 150)),
        Some(Rect::new(100, 100, 300, 200))
    );
}

#[test]
fn parses_hyprland_active_window_geometry() {
    let json = br#"{"at":[-20,30],"size":[800,600],"class":"kitty"}"#;
    let window = parse_hyprland_active_window(json).unwrap();
    assert_eq!(window.geometry, Rect::new(-20, 30, 800, 600));
    assert_eq!(window.source, WindowSource::Hyprland);
}

#[test]
fn finds_focused_sway_leaf_recursively() {
    let json = br#"{"nodes":[{"nodes":[],"focused":false},{"nodes":[{"focused":true,"rect":{"x":10,"y":20,"width":400,"height":300}}]}]}"#;
    let window = parse_sway_active_window(json).unwrap();
    assert_eq!(window.geometry, Rect::new(10, 20, 400, 300));
}

#[test]
fn parses_kwin_probe_geometry() {
    let window = parse_kwin_active_window(b"1920 0 1600 900\n").unwrap();
    assert_eq!(window.geometry, Rect::new(1920, 0, 1600, 900));
    assert_eq!(window.source, WindowSource::KWin);
    let window = parse_kwin_active_window(b"-20 30 800 600").unwrap();
    assert_eq!(window.geometry, Rect::new(-20, 30, 800, 600));
}

#[test]
fn lists_hyprland_clients_that_are_on_a_shown_workspace() {
    // DP-2 (id 0) is 3840x2160 at scale 2, so its logical area is
    // 1920..3840 and it shows workspace 1; DP-3 (id 1) shows workspace 3.
    let monitors = br#"[
        {"id":1,"name":"DP-3","x":0,"y":0,"width":1920,"height":1080,"scale":1.0,
         "activeWorkspace":{"address":"3","name":"3"},"specialWorkspace":{"name":""}},
        {"id":0,"name":"DP-2","x":1920,"y":0,"width":3840,"height":2160,"scale":2.0,
         "activeWorkspace":{"address":"1","name":"1"},"specialWorkspace":{"name":""}}
    ]"#;
    let clients = br#"[
        {"at":[1936,55],"size":[1893,1014],"monitor":0,"pinned":false,
         "workspace":{"address":"1","name":"1"},
         "class":"vivaldi-stable","title":"vivaldi-stable"},
        {"at":[11,55],"size":[1893,1014],"monitor":1,"pinned":false,
         "workspace":{"address":"3","name":"3"},
         "class":"vivaldi-stable","title":"vivaldi-stable"},
        {"at":[11,55],"size":[941,1014],"monitor":1,"pinned":false,
         "workspace":{"address":"2","name":"2"},
         "class":"discord","title":"Discord"},
        {"at":[979,55],"size":[941,1014],"monitor":0,"pinned":false,
         "workspace":{"address":"1","name":"1"},
         "class":"sparkle","title":"Sparkle"},
        {"at":[2407,55],"size":[946,1014],"monitor":0,"pinned":false,
         "workspace":{"address":"5","name":"5"},
         "class":"LACT","title":"LACT"},
        {"at":[0,0],"size":[800,600],"monitor":9,"pinned":false,
         "workspace":{"address":"1","name":"1"},
         "class":"orphan","title":"Orphan"},
        {"at":[100,100],"size":[0,0],"monitor":1,"pinned":false,
         "workspace":{"address":"3","name":"3"},
         "class":"empty","title":"Empty"}
    ]"#;
    let windows = parse_hyprland_windows(clients, monitors).unwrap();
    // The two windows the monitors are actually showing.  Discord is on
    // another workspace, sparkle and LACT are elsewhere too (and sparkle's
    // stale rect points off its own monitor), the orphan has no monitor
    // and the last client's size is empty.
    assert_eq!(windows.len(), 2);
    assert_eq!(windows[0].geometry, Rect::new(1936, 55, 1893, 1014));
    assert_eq!(windows[0].label, "vivaldi-stable");
    assert_eq!(windows[1].geometry, Rect::new(11, 55, 1893, 1014));
}

#[test]
fn keeps_pinned_and_special_workspace_windows() {
    let monitors = br#"[{"id":0,"x":0,"y":0,"width":1920,"height":1080,"scale":1.0,
        "activeWorkspace":{"name":"1"},"specialWorkspace":{"name":"special:scratch"}}]"#;
    let clients = br#"[
        {"at":[10,10],"size":[100,100],"monitor":0,"pinned":true,
         "workspace":{"name":"4"},"class":"pinned","title":"Pinned"},
        {"at":[0,0],"size":[200,200],"monitor":0,"pinned":false,
         "workspace":{"name":"special:scratch"},"class":"scratch","title":"Scratch"}
    ]"#;
    let windows = parse_hyprland_windows(clients, monitors).unwrap();
    assert_eq!(windows.len(), 2, "{windows:?}");
    assert_eq!(windows[0].label, "pinned");
    assert_eq!(windows[1].label, "scratch");
}

#[test]
fn drops_a_stale_rect_that_points_at_another_monitor() {
    let monitors = br#"[
        {"id":0,"x":1920,"y":0,"width":1920,"height":1080,"scale":1.0,
         "activeWorkspace":{"name":"1"},"specialWorkspace":{"name":""}}
    ]"#;
    // The workspace matches, but the rect lies left of the monitor: this
    // is the shape a hidden workspace leaves behind.
    let clients = br#"[{"at":[11,55],"size":[941,1014],"monitor":0,"pinned":false,
        "workspace":{"name":"1"},"class":"stale","title":"Stale"}]"#;
    assert!(parse_hyprland_windows(clients, monitors)
        .unwrap()
        .is_empty());
}

#[test]
fn joins_window_labels_without_duplicating_them() {
    assert_eq!(join_label("kitty", "kitty"), "kitty");
    assert_eq!(join_label("kitty", "~/Dev"), "kitty — ~/Dev");
    assert_eq!(join_label("kitty", ""), "kitty");
    assert_eq!(join_label("", "~/Dev"), "~/Dev");
    assert_eq!(join_label("", ""), "");
}

#[test]
fn lists_sway_leaves_and_hides_hidden_workspaces() {
    let json = br#"{"type":"root","nodes":[
        {"type":"output","nodes":[
            {"type":"workspace","visible":true,"nodes":[
                {"type":"con","app_id":"foot","name":"shell","rect":{"x":10,"y":20,"width":400,"height":300}}
            ]},
            {"type":"workspace","visible":false,"nodes":[
                {"type":"con","app_id":"vim","name":"edit","rect":{"x":0,"y":0,"width":800,"height":600}}
            ]}
        ]}
    ]}"#;
    let windows = parse_sway_windows(json).unwrap();
    assert_eq!(windows.len(), 1);
    assert_eq!(windows[0].geometry, Rect::new(10, 20, 400, 300));
    assert_eq!(windows[0].label, "foot — shell");
}

#[test]
fn lists_kwin_probe_lines_and_ignores_junk() {
    let windows =
        parse_kwin_windows(b"1920 0 1600 900\n-20 30 800 600\nnot a window\n").unwrap();
    assert_eq!(windows.len(), 2);
    assert_eq!(windows[0].geometry, Rect::new(1920, 0, 1600, 900));
    assert_eq!(windows[1].geometry, Rect::new(-20, 30, 800, 600));
    assert!(windows[0].label.is_empty());
}

/// The KWin probe has to skip the program's own overlay, which covers the whole
/// screen while a window is picked.
#[test]
fn the_kwin_probe_skips_vshots_own_overlay() {
    assert!(
        KWIN_PROBE.contains(r#"String(w.resourceClass || "")"#),
        "the probe is expected to read the window class"
    );
    assert!(
        KWIN_PROBE.contains(r#"indexOf("vshot") === 0"#),
        "and to skip windows whose class belongs to vshot"
    );
    assert!(KWIN_PROBE.contains("w.normalWindow === false"));
    assert!(KWIN_PROBE.contains("w.deleted"));
}

#[test]
fn rejects_unreliable_window_data() {
    assert!(parse_hyprland_active_window(br#"{"at":[0,0],"size":[0,1]}"#).is_err());
    assert!(parse_sway_active_window(br#"{"nodes":[]}"#).is_err());
    assert!(parse_kwin_active_window(b"1 2 3").is_err());
    assert!(parse_kwin_active_window(b"a b c d").is_err());
    assert!(parse_kwin_active_window(b"0 0 0 500").is_err());
}

/// Answers every command the same way and remembers what it was asked, so a
/// test can see which compositors a session consults.
struct ScriptedRunner {
    success: bool,
    stdout: Vec<u8>,
    asked: RefCell<Vec<String>>,
}

impl ScriptedRunner {
    /// A runner whose every command fails, so the loop runs out of
    /// compositors and the calls can be counted.
    fn failing() -> Self {
        Self {
            success: false,
            stdout: Vec::new(),
            asked: RefCell::new(Vec::new()),
        }
    }

    /// A runner whose every command succeeds with this output.
    fn replying(stdout: &[u8]) -> Self {
        Self {
            success: true,
            stdout: stdout.to_vec(),
            asked: RefCell::new(Vec::new()),
        }
    }

    fn asked(&self) -> Vec<String> {
        self.asked.borrow().clone()
    }
}

impl WindowCommandRunner for ScriptedRunner {
    fn run(&self, command: &WindowCommand) -> Result<CommandOutput> {
        self.asked.borrow_mut().push(command.program.clone());
        Ok(CommandOutput {
            success: self.success,
            status: if self.success { "exit status: 0" } else { "exit status: 1" }.to_owned(),
            stdout: self.stdout.clone(),
            stderr: Vec::new(),
        })
    }
}

/// Only the session's own compositor is asked. A Plasma session started
/// from a Hyprland terminal keeps `HYPRLAND_INSTANCE_SIGNATURE`, so
/// `hyprctl` goes on answering — and its answer is a window on a desktop
/// the user is not looking at.
#[test]
fn a_kde_session_asks_kwin_and_not_hyprland() {
    let runner = ScriptedRunner::failing();
    assert!(find_active_window_for(Session::KWin, &runner).is_err());
    assert_eq!(runner.asked(), ["bash"]);

    let runner = ScriptedRunner::failing();
    assert!(find_windows_for(Session::KWin, &runner).is_err());
    assert_eq!(runner.asked(), ["bash"]);
}

/// The KDE session's answer is read as the window: the probe runs, and its
/// single line is the focused window.
#[test]
fn a_kde_session_reads_the_focused_window_from_the_probe() {
    let runner = ScriptedRunner::replying(b"1920 0 1600 900\n");
    let window = find_active_window_for(Session::KWin, &runner).unwrap();
    assert_eq!(window.geometry, Rect::new(1920, 0, 1600, 900));
    assert_eq!(window.source, WindowSource::KWin);
    assert_eq!(runner.asked(), ["bash"]);
}

/// With nothing in the environment naming a compositor every probe is worth
/// trying, in the order the README gives.
#[test]
fn an_unknown_session_asks_every_compositor_in_order() {
    let runner = ScriptedRunner::failing();
    assert!(find_active_window_for(Session::Unknown, &runner).is_err());
    assert_eq!(runner.asked(), ["hyprctl", "swaymsg", "bash"]);

    // The window list goes through the same three: Hyprland's first query
    // (`hyprctl clients`) is already failing here, so its monitor list is
    // never reached.
    let runner = ScriptedRunner::failing();
    assert!(find_windows_for(Session::Unknown, &runner).is_err());
    assert_eq!(runner.asked(), ["hyprctl", "swaymsg", "bash"]);
}

#[test]
fn only_the_sessions_compositor_is_offered_to_picking() {
    assert_eq!(compositors_for(Session::Hyprland), [Compositor::Hyprland]);
    assert_eq!(compositors_for(Session::Sway), [Compositor::Sway]);
    assert_eq!(compositors_for(Session::KWin), [Compositor::KWin]);
    assert_eq!(compositors_for(Session::Unknown), [Compositor::Hyprland, Compositor::Sway, Compositor::KWin]);
    // niri has no window list and no active-window geometry, so there is
    // nothing to ask and the caller falls back to the pixels.
    assert!(compositors_for(Session::Niri).is_empty());
}

/// A session whose compositor cannot answer says that, instead of claiming
/// some compositor failed.
#[test]
fn a_compositor_without_window_queries_says_so() {
    let runner = ScriptedRunner::failing();
    let error = find_windows_for(Session::Niri, &runner).unwrap_err();
    assert!(
        error.message().contains("no window list to offer"),
        "{error:?}"
    );
    let error = find_active_window_for(Session::Niri, &runner).unwrap_err();
    assert!(
        error.message().contains("no active-window query"),
        "{error:?}"
    );
    assert!(runner.asked().is_empty());
}

#[test]
fn the_desktop_variables_pick_who_is_asked() {
    let runner = ScriptedRunner::replying(b"0 0 300 200\n10 20 30 40\n");
    let windows = find_windows(Some("KDE"), None, &runner).unwrap();
    assert_eq!(windows.len(), 2);
    assert_eq!(runner.asked(), ["bash"]);
    let runner = ScriptedRunner::replying(br#"{"at":[1,2],"size":[3,4]}"#);
    let window = find_active_window(None, Some("Hyprland"), &runner).unwrap();
    assert_eq!(window.geometry, Rect::new(1, 2, 3, 4));
    assert_eq!(window.source, WindowSource::Hyprland);
    assert_eq!(runner.asked(), ["hyprctl"]);
}

#[test]
fn a_click_lands_on_the_window_on_top() {
    let provider = ProcessWindowProvider {
        session: Session::KWin,
        runner: ScriptedRunner::replying(b"0 0 300 200\n10 20 30 40\n"),
    };
    assert_eq!(provider.window_at(Point::new(15, 25)), Some(Rect::new(10, 20, 30, 40)));
    assert_eq!(provider.window_at(Point::new(5, 5)), Some(Rect::new(0, 0, 300, 200)));
    assert_eq!(provider.window_at(Point::new(300, 5)), None);
    let silent = ProcessWindowProvider {
        session: Session::KWin,
        runner: ScriptedRunner::failing(),
    };
    assert_eq!(silent.window_at(Point::new(5, 5)), None);
}
