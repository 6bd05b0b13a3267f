use std::cell::RefCell;
use std::collections::HashMap;

use vshot::capture::active_output::Session;
use vshot::capture::window::{CommandOutput, WindowCommand, WindowCommandRunner};
use vshot::capture::window_copy::Name;
use vshot::capture::window_pid::{describe, niri_pid, parse_hyprland_pid, pid_for};
use vshot::error::Result;

/// A runner that answers from a fixed table, keyed by the command line.
struct ScriptedRunner {
    replies: RefCell<HashMap<String, Vec<u8>>>,
}

impl ScriptedRunner {
    fn new() -> Self {
        Self {
            replies: RefCell::new(HashMap::new()),
        }
    }

    fn replying(self, args: &str, bytes: &[u8]) -> Self {
        self.replies
            .borrow_mut()
            .insert(args.to_owned(), bytes.to_vec());
        self
    }
}

impl WindowCommandRunner for ScriptedRunner {
    fn run(&self, command: &WindowCommand) -> Result<CommandOutput> {
        let key = command.args.join(" ");
        match self.replies.borrow().get(&key) {
            Some(bytes) => Ok(CommandOutput {
                success: true,
                status: "exit status: 0".to_owned(),
                stdout: bytes.clone(),
                stderr: Vec::new(),
            }),
            None => Ok(CommandOutput {
                success: false,
                status: "exit status: 1".to_owned(),
                stdout: Vec::new(),
                stderr: b"not scripted".to_vec(),
            }),
        }
    }
}

fn name(app_id: &str, title: &str) -> Name {
    Name {
        app_id: app_id.to_owned(),
        title: title.to_owned(),
        identifier: String::new(),
    }
}

const CLIENTS: &str = r#"[
    {"class":"kitty","title":"a","pid":111,"at":[0,0],"size":[100,100]},
    {"class":"vivaldi-stable","title":"News","pid":222,"at":[0,0],"size":[100,100]},
    {"class":"vivaldi-stable","title":"Mail","pid":333,"at":[0,0],"size":[100,100]}
]"#;

#[test]
fn hyprland_matches_on_class_and_title() {
    let found = parse_hyprland_pid(CLIENTS.as_bytes(), &name("vivaldi-stable", "Mail"));
    assert_eq!(found, Some(333));
    assert_eq!(
        parse_hyprland_pid(CLIENTS.as_bytes(), &name("kitty", "a")),
        Some(111)
    );
}

#[test]
fn hyprland_falls_back_to_title_when_the_class_differs() {
    // The compositor can report a class the toplevel list spells
    // differently; the title is the second chance.
    let found = parse_hyprland_pid(CLIENTS.as_bytes(), &name("other", "News"));
    assert_eq!(found, Some(222));
}

#[test]
fn hyprland_returns_none_when_no_window_matches() {
    assert_eq!(
        parse_hyprland_pid(CLIENTS.as_bytes(), &name("x", "y")),
        None
    );
    assert_eq!(parse_hyprland_pid(b"[]", &name("x", "y")), None);
    assert_eq!(parse_hyprland_pid(b"not json", &name("x", "y")), None);
}

const FOCUSED: &str = r#"{
    "id": 12, "title": "t w", "app_id": "Alacritty", "pid": 4242,
    "workspace_id": 6, "is_focused": true, "is_floating": false,
    "layout": {"tile_size": [800.0, 600.0]}
}"#;

const NIRI_WINDOWS: &str = r#"[
    {"id": 12, "title": "t w", "app_id": "Alacritty", "pid": 4242},
    {"id": 13, "title": "browser", "app_id": "firefox", "pid": 9000}
]"#;

#[test]
fn niri_reads_the_focused_windows_pid() {
    let runner = ScriptedRunner::new()
        .replying("msg --json focused-window", FOCUSED.as_bytes())
        .replying("msg --json windows", NIRI_WINDOWS.as_bytes());
    let pid = niri_pid(&runner, &name("Alacritty", "t w")).expect("a lookup");
    assert_eq!(pid, Some(4242));
}

#[test]
fn niri_falls_back_to_the_window_list_for_an_unfocused_window() {
    let runner = ScriptedRunner::new()
        .replying("msg --json focused-window", FOCUSED.as_bytes())
        .replying("msg --json windows", NIRI_WINDOWS.as_bytes());
    let pid = niri_pid(&runner, &name("firefox", "browser")).expect("a lookup");
    assert_eq!(pid, Some(9000));
}

#[test]
fn niri_says_nothing_when_no_window_matches() {
    let runner = ScriptedRunner::new()
        .replying("msg --json focused-window", FOCUSED.as_bytes())
        .replying("msg --json windows", NIRI_WINDOWS.as_bytes());
    let pid = niri_pid(&runner, &name("nobody", "nothing")).expect("a lookup");
    assert_eq!(pid, None);
}

#[test]
fn a_session_without_a_pid_source_answers_none() {
    // KWin and Sway have no pid to give; that is a `None`, not an error.
    let runner = ScriptedRunner::new();
    let pid = pid_for(Session::KWin, &runner, &name("a", "b")).expect("no error");
    assert_eq!(pid, None);
}

#[test]
fn describe_names_the_window_for_a_diagnostic() {
    assert_eq!(describe(&name("kitty", "a shell")), "kitty — a shell");
    assert!(!describe(&name("", "")).is_empty());
}
