use vshot::capture::active_output::Session;
use vshot::capture::hypr_cursor::{
    answer_of, parse_cursor_position, parse_plugin_enabled, Step,
};

#[test]
fn a_loaded_plugin_reports_its_switch() {
    // What `hyprctl -j getoption plugin:dynamic_cursors:enabled` prints.
    let on = r#"{"option": "plugin:dynamic_cursors:enabled", "bool": true, "set": true }"#;
    let off = r#"{"option": "plugin:dynamic_cursors:enabled", "bool": false, "set": false }"#;
    assert_eq!(parse_plugin_enabled(on), Some(true));
    assert_eq!(parse_plugin_enabled(off), Some(false));
}

#[test]
fn an_unloaded_plugin_is_not_an_answer() {
    // `hyprctl` prints this instead of a value, and it is not JSON.
    assert_eq!(parse_plugin_enabled("no such option"), None);
}

#[test]
fn the_pointer_position_comes_from_hyprctls_own_line() {
    assert_eq!(parse_cursor_position("600, 500\n"), Some((600, 500)));
    // The layout's own origin, where negative coordinates are normal.
    assert_eq!(parse_cursor_position("-1920, -80"), Some((-1920, -80)));
    assert_eq!(parse_cursor_position("not a position"), None);
    assert_eq!(parse_cursor_position("600"), None);
}

/// Runs the suspension against a compositor that answers every question of a
/// step with the given text.
fn run(mut step: Step, answers: &[Option<&str>]) -> (Vec<Vec<String>>, Step) {
    let mut asked = Vec::new();
    let mut answers = answers.iter();
    while let Some(question) = step.arguments() {
        asked.push(question);
        let answer = answers.next().expect("an answer for every question");
        step = step.next(answer.map(str::to_owned));
    }
    (asked, step)
}

const ON: &str = r#"{"option": "plugin:dynamic_cursors:enabled", "bool": true}"#;

#[test]
fn a_plugin_that_is_on_is_switched_off_and_the_pointer_stays_where_it_is() {
    let (asked, step) = run(
        Step::first(Session::Hyprland),
        &[Some(ON), Some("600, 500"), Some("ok"), Some("ok")],
    );
    assert_eq!(step, Step::Suspended);
    assert_eq!(
        asked[0],
        ["-j", "getoption", "plugin:dynamic_cursors:enabled"]
    );
    assert_eq!(asked[1], ["cursorpos"]);
    assert_eq!(asked[2][0], "eval");
    assert!(asked[3][1].contains("600") && asked[3][1].contains("500"));
}

#[test]
fn an_older_compositor_is_asked_in_its_own_words() {
    let (asked, step) = run(
        Step::first(Session::Hyprland),
        &[
            Some(ON),
            Some("600, 500"),
            Some("unknown request"),
            Some("ok"),
            None,
            Some("ok"),
        ],
    );
    assert_eq!(step, Step::Suspended);
    assert_eq!(
        asked[3],
        ["keyword", "plugin:dynamic_cursors:enabled", "false"]
    );
    assert_eq!(asked[5], ["dispatch", "movecursor", "600", "500"]);
}

#[test]
fn nothing_is_touched_where_there_is_nothing_to_suspend() {
    assert_eq!(Step::first(Session::Sway), Step::Finished);
    let off = r#"{"option": "plugin:dynamic_cursors:enabled", "bool": false}"#;
    let (asked, step) = run(Step::first(Session::Hyprland), &[Some(off)]);
    assert_eq!((asked.len(), step), (1, Step::Finished));
    let (asked, step) = run(Step::first(Session::Hyprland), &[None]);
    assert_eq!((asked.len(), step), (1, Step::Finished));
}

#[test]
fn a_suspension_that_gets_stuck_is_taken_back() {
    let (asked, step) = run(
        Step::first(Session::Hyprland),
        &[
            Some(ON),
            Some("1, 2"),
            Some("ok"),
            None,
            None,
            Some("error"),
            Some("ok"),
        ],
    );
    assert_eq!(step, Step::Finished);
    assert_eq!(
        asked.last().unwrap(),
        &["keyword", "plugin:dynamic_cursors:enabled", "true"]
    );
    // Taking it back is also what ends a suspension that worked.
    let (asked, step) = run(Step::resume(), &[Some("ok")]);
    assert_eq!((asked.len(), step), (1, Step::Finished));
}

#[test]
fn an_answer_is_what_a_successful_program_printed() {
    assert_eq!(answer_of(true, b" ok\n"), Some("ok".to_owned()));
    assert_eq!(answer_of(false, b"ok"), None);
    // Bytes that are no text are replaced, not refused.
    assert_eq!(
        answer_of(true, &[0x6f, 0xff, 0x6b]),
        Some("o\u{fffd}k".to_owned())
    );
}
