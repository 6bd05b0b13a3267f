//! Keeps `hypr-dynamic-cursors`' software cursor out of captured frames.
//!
//! While the cursor is magnified the plugin has the pointer drawn into the
//! frame the compositor composites, so it lands in every capture.  Switching
//! the plugin off and moving the pointer to where it already is puts it back
//! on the hardware path; the steps of doing that, and of undoing it, are
//! decided here.

use vstd::prelude::*;
use vstd::utf8::encode_utf8;

use crate::geometry::Point;
use crate::json::{parse as parse_json, reading, Json, Tree};
use crate::text::{
    all_space, contains_text, cut_once, decimal_text, decimal_value, format_i64, has_part,
    law_a_written_number_is_read_back, lemma_written_pair, lossy_text, parse_i32, read_lossy,
    same_text, split_once, texts, trim, trimmed, within_bounds,
};

use super::active_output::Session;

verus! {

/// The plugin's switch, as its author names it.
pub const ENABLED: &'static str = "plugin:dynamic_cursors:enabled";

/// How long the compositor is given to repaint before the first frame is read,
/// in milliseconds.
pub const SETTLE_MS: u64 = 32;

/// Hyprland has two spellings for its commands, and which one answers is the
/// version's: a Lua config takes `eval`, the older ones take keywords.
#[derive(Clone, Copy, Debug, PartialEq, Eq, Structural)]
pub enum Spelling {
    Lua,
    Keyword,
}

/// Where the suspension stands, which is what `hyprctl` is asked next.
#[derive(Clone, Copy, Debug, PartialEq, Eq, Structural)]
pub enum Step {
    /// Is the plugin loaded and switched on?
    ReadSwitch,
    /// Where is the pointer?
    ReadPosition,
    /// Switch the plugin off.
    SwitchOff { spelling: Spelling, pointer: Point },
    /// Move the pointer to where it already is.
    Nudge { spelling: Spelling, pointer: Point },
    /// Switch the plugin on again.
    SwitchOn { spelling: Spelling },
    /// The plugin is off: wait for the repaint, capture, then switch it on.
    Suspended,
    /// There is nothing to do, or nothing more.
    Finished,
}

/// What the answer to a command amounts to: its trimmed output, or nothing when
/// it did not succeed.
pub fn answer_of(success: bool, stdout: &[u8]) -> (answer: Option<String>)
    ensures
        match answer {
            Some(answer) => success && answer@ == trimmed(lossy_text(stdout@)),
            None => !success,
        },
{
    if !success {
        return None;
    }
    let text = read_lossy(stdout);
    Some(trim(text.as_str()))
}

/// What the document that answers the switch query says.
pub open spec fn switch_in(value: Tree) -> Option<bool> {
    value.flag_field("bool"@)
}

/// What the answer to the switch query says: nothing where the plugin is not
/// loaded, because that answer is no JSON.
pub open spec fn switch_said(answer: Seq<char>) -> Option<bool> {
    match reading(encode_utf8(answer)) {
        Ok(value) => switch_in(value),
        Err(_) => None,
    }
}

/// Reads the switch out of its document.
pub fn plugin_switch(value: &Json) -> (enabled: Option<bool>)
    ensures
        enabled == switch_in(value@),
{
    value.flag_field("bool")
}

/// `Some(true)` only for a plugin that is loaded and switched on.
pub fn parse_plugin_enabled(answer: &str) -> (enabled: Option<bool>)
    ensures
        enabled == switch_said(answer@),
{
    match parse_json(answer.as_bytes()) {
        Ok(value) => plugin_switch(&value),
        Err(_) => None,
    }
}

/// The position `x, y` in a text.
pub open spec fn position_in(answer: Seq<char>) -> Option<Point> {
    match cut_once(trimmed(answer), ',') {
        Some((x, y)) => {
            let x = within_bounds(
                decimal_value(trimmed(x), true),
                i32::MIN as int,
                i32::MAX as int,
            );
            let y = within_bounds(
                decimal_value(trimmed(y), true),
                i32::MIN as int,
                i32::MAX as int,
            );
            match (x, y) {
                (Some(x), Some(y)) => Some(Point { x: x as i32, y: y as i32 }),
                _ => None,
            }
        },
        None => None,
    }
}

/// The pointer's position, in the global logical coordinates a move takes.
pub fn parse_cursor_position(answer: &str) -> (position: Option<(i32, i32)>)
    ensures
        match position {
            Some((x, y)) => position_in(answer@) == Some(Point { x, y }),
            None => position_in(answer@) is None,
        },
{
    let core = trim(answer);
    match split_once(core.as_str(), ',') {
        Some((x, y)) => {
            let (x, y) = (trim(x.as_str()), trim(y.as_str()));
            match (parse_i32(x.as_str()), parse_i32(y.as_str())) {
                (Some(x), Some(y)) => Some((x, y)),
                _ => None,
            }
        },
        None => None,
    }
}

/// The script that switches the plugin on or off.
pub open spec fn switch_script(enabled: bool) -> Seq<char> {
    if enabled {
        "hl.config({ plugin = { dynamic_cursors = { enabled = true } } })"@
    } else {
        "hl.config({ plugin = { dynamic_cursors = { enabled = false } } })"@
    }
}

/// The script that moves the pointer.
pub open spec fn move_script(pointer: Point) -> Seq<char> {
    "hl.dispatch(hl.dsp.cursor.move({ x = "@ + decimal_text(pointer.x as int) + ", y = "@
        + decimal_text(pointer.y as int) + " }))"@
}

/// What `hyprctl` is asked in a step.
pub open spec fn question(step: Step) -> Option<Seq<Seq<char>>> {
    match step {
        Step::ReadSwitch => Some(seq!["-j"@, "getoption"@, ENABLED@]),
        Step::ReadPosition => Some(seq!["cursorpos"@]),
        Step::SwitchOff { spelling: Spelling::Lua, .. } => Some(
            seq!["eval"@, switch_script(false)],
        ),
        Step::SwitchOff { spelling: Spelling::Keyword, .. } => Some(
            seq!["keyword"@, ENABLED@, "false"@],
        ),
        Step::Nudge { spelling: Spelling::Lua, pointer } => Some(
            seq!["eval"@, move_script(pointer)],
        ),
        Step::Nudge { spelling: Spelling::Keyword, pointer } => Some(
            seq![
                "dispatch"@,
                "movecursor"@,
                decimal_text(pointer.x as int),
                decimal_text(pointer.y as int),
            ],
        ),
        Step::SwitchOn { spelling: Spelling::Lua } => Some(seq!["eval"@, switch_script(true)]),
        Step::SwitchOn { spelling: Spelling::Keyword } => Some(
            seq!["keyword"@, ENABLED@, "true"@],
        ),
        Step::Suspended => None,
        Step::Finished => None,
    }
}

/// Whether a script was carried out.
pub open spec fn is_ok(answer: Option<String>) -> bool {
    answer matches Some(text) && text@ == "ok"@
}

/// Whether a keyword was known.
pub open spec fn is_known(answer: Option<String>) -> bool {
    answer matches Some(text) && !has_part(text@, "unknown request"@)
}

/// The step after one, for what `hyprctl` answered in it.
pub open spec fn after(step: Step, answer: Option<String>) -> Step {
    match step {
        Step::ReadSwitch => match answer {
            Some(text) => if switch_said(text@) == Some(true) {
                Step::ReadPosition
            } else {
                Step::Finished
            },
            None => Step::Finished,
        },
        Step::ReadPosition => match answer {
            Some(text) => match position_in(text@) {
                Some(pointer) => Step::SwitchOff { spelling: Spelling::Lua, pointer },
                None => Step::Finished,
            },
            None => Step::Finished,
        },
        Step::SwitchOff { spelling: Spelling::Lua, pointer } => if is_ok(answer) {
            Step::Nudge { spelling: Spelling::Lua, pointer }
        } else {
            Step::SwitchOff { spelling: Spelling::Keyword, pointer }
        },
        Step::SwitchOff { spelling: Spelling::Keyword, pointer } => if is_known(answer) {
            Step::Nudge { spelling: Spelling::Lua, pointer }
        } else {
            Step::Finished
        },
        Step::Nudge { spelling: Spelling::Lua, pointer } => if is_ok(answer) {
            Step::Suspended
        } else {
            Step::Nudge { spelling: Spelling::Keyword, pointer }
        },
        Step::Nudge { spelling: Spelling::Keyword, pointer } => if answer is Some {
            Step::Suspended
        } else {
            Step::SwitchOn { spelling: Spelling::Lua }
        },
        Step::SwitchOn { spelling: Spelling::Lua } => if is_ok(answer) {
            Step::Finished
        } else {
            Step::SwitchOn { spelling: Spelling::Keyword }
        },
        Step::SwitchOn { spelling: Spelling::Keyword } => Step::Finished,
        Step::Suspended => Step::Suspended,
        Step::Finished => Step::Finished,
    }
}

fn said_ok(answer: &Option<String>) -> (ok: bool)
    ensures
        ok == is_ok(*answer),
{
    match answer {
        Some(text) => same_text(text.as_str(), "ok"),
        None => false,
    }
}

fn said_known(answer: &Option<String>) -> (known: bool)
    ensures
        known == is_known(*answer),
{
    match answer {
        Some(text) => !contains_text(text.as_str(), "unknown request"),
        None => false,
    }
}

fn owned(a: &str, b: &str) -> (list: Vec<String>)
    ensures
        texts(list@) == seq![a@, b@],
{
    let list = vec![a.to_owned(), b.to_owned()];
    assert(texts(list@) =~= seq![a@, b@]);
    list
}

impl Step {
    /// Where suspending starts: only a Hyprland session has anything to
    /// suspend.
    pub fn first(session: Session) -> (step: Self)
        ensures
            step == if session == Session::Hyprland {
                Step::ReadSwitch
            } else {
                Step::Finished
            },
    {
        if session == Session::Hyprland {
            Step::ReadSwitch
        } else {
            Step::Finished
        }
    }

    /// Where putting the plugin back starts.
    pub fn resume() -> (step: Self)
        ensures
            step == (Step::SwitchOn { spelling: Spelling::Lua }),
    {
        Step::SwitchOn { spelling: Spelling::Lua }
    }

    /// The arguments `hyprctl` is run with in this step.
    pub fn arguments(&self) -> (args: Option<Vec<String>>)
        ensures
            match args {
                Some(args) => question(*self) == Some(texts(args@)),
                None => question(*self) is None,
            },
    {
        match *self {
            Step::ReadSwitch => {
                let args = vec!["-j".to_owned(), "getoption".to_owned(), ENABLED.to_owned()];
                assert(texts(args@) =~= seq!["-j"@, "getoption"@, ENABLED@]);
                Some(args)
            },
            Step::ReadPosition => {
                let args = vec!["cursorpos".to_owned()];
                assert(texts(args@) =~= seq!["cursorpos"@]);
                Some(args)
            },
            Step::SwitchOff { spelling: Spelling::Lua, .. } => Some(
                owned("eval", "hl.config({ plugin = { dynamic_cursors = { enabled = false } } })"),
            ),
            Step::SwitchOff { spelling: Spelling::Keyword, .. } => {
                let args = vec!["keyword".to_owned(), ENABLED.to_owned(), "false".to_owned()];
                assert(texts(args@) =~= seq!["keyword"@, ENABLED@, "false"@]);
                Some(args)
            },
            Step::Nudge { spelling: Spelling::Lua, pointer } => {
                let (x, y) = (format_i64(pointer.x as i64), format_i64(pointer.y as i64));
                let mut script = "hl.dispatch(hl.dsp.cursor.move({ x = ".to_owned();
                script.append(x.as_str());
                script.append(", y = ");
                script.append(y.as_str());
                script.append(" }))");
                Some(owned("eval", script.as_str()))
            },
            Step::Nudge { spelling: Spelling::Keyword, pointer } => {
                let (x, y) = (format_i64(pointer.x as i64), format_i64(pointer.y as i64));
                let args = vec!["dispatch".to_owned(), "movecursor".to_owned(), x, y];
                assert(texts(args@) =~= seq!["dispatch"@, "movecursor"@, x@, y@]);
                Some(args)
            },
            Step::SwitchOn { spelling: Spelling::Lua } => Some(
                owned("eval", "hl.config({ plugin = { dynamic_cursors = { enabled = true } } })"),
            ),
            Step::SwitchOn { spelling: Spelling::Keyword } => {
                let args = vec!["keyword".to_owned(), ENABLED.to_owned(), "true".to_owned()];
                assert(texts(args@) =~= seq!["keyword"@, ENABLED@, "true"@]);
                Some(args)
            },
            Step::Suspended => None,
            Step::Finished => None,
        }
    }

    /// The next step, for what `hyprctl` answered in this one.
    pub fn next(self, answer: Option<String>) -> (step: Self)
        ensures
            step == after(self, answer),
    {
        match self {
            Step::ReadSwitch => match &answer {
                Some(text) => match parse_plugin_enabled(text.as_str()) {
                    Some(true) => Step::ReadPosition,
                    _ => Step::Finished,
                },
                None => Step::Finished,
            },
            Step::ReadPosition => match &answer {
                Some(text) => match parse_cursor_position(text.as_str()) {
                    Some((x, y)) => Step::SwitchOff {
                        spelling: Spelling::Lua,
                        pointer: Point { x, y },
                    },
                    None => Step::Finished,
                },
                None => Step::Finished,
            },
            Step::SwitchOff { spelling: Spelling::Lua, pointer } => if said_ok(&answer) {
                Step::Nudge { spelling: Spelling::Lua, pointer }
            } else {
                Step::SwitchOff { spelling: Spelling::Keyword, pointer }
            },
            Step::SwitchOff { spelling: Spelling::Keyword, pointer } => if said_known(&answer) {
                Step::Nudge { spelling: Spelling::Lua, pointer }
            } else {
                Step::Finished
            },
            Step::Nudge { spelling: Spelling::Lua, pointer } => if said_ok(&answer) {
                Step::Suspended
            } else {
                Step::Nudge { spelling: Spelling::Keyword, pointer }
            },
            Step::Nudge { spelling: Spelling::Keyword, pointer: _ } => if answer.is_some() {
                Step::Suspended
            } else {
                Step::SwitchOn { spelling: Spelling::Lua }
            },
            Step::SwitchOn { spelling: Spelling::Lua } => if said_ok(&answer) {
                Step::Finished
            } else {
                Step::SwitchOn { spelling: Spelling::Keyword }
            },
            Step::SwitchOn { spelling: Spelling::Keyword } => Step::Finished,
            Step::Suspended => Step::Suspended,
            Step::Finished => Step::Finished,
        }
    }
}

/// Whether the plugin has been switched off and not been asked on again.
pub open spec fn switched_off(step: Step) -> bool {
    step is Nudge || step is Suspended
}

/// How many answers a step is away from an end, at most.
pub open spec fn steps_left(step: Step) -> nat {
    match step {
        Step::ReadSwitch => 8,
        Step::ReadPosition => 7,
        Step::SwitchOff { spelling: Spelling::Lua, .. } => 6,
        Step::SwitchOff { spelling: Spelling::Keyword, .. } => 5,
        Step::Nudge { spelling: Spelling::Lua, .. } => 4,
        Step::Nudge { spelling: Spelling::Keyword, .. } => 3,
        Step::SwitchOn { spelling: Spelling::Lua } => 2,
        Step::SwitchOn { spelling: Spelling::Keyword } => 1,
        Step::Suspended => 0,
        Step::Finished => 0,
    }
}

/// Every answer brings the end nearer, so the steps come to one.
pub proof fn law_every_answer_brings_the_end_nearer(step: Step, answer: Option<String>)
    ensures
        steps_left(step) > 0 ==> steps_left(after(step, answer)) < steps_left(step),
        steps_left(step) == 0 <==> question(step) is None,
{
}

/// A plugin that has been switched off is left off only for a capture: when
/// the pointer cannot be moved it is switched on again.
pub proof fn law_a_failed_suspension_switches_the_plugin_on_again(
    step: Step,
    answer: Option<String>,
)
    requires
        switched_off(step),
    ensures
        switched_off(after(step, answer)) || after(step, answer) == (Step::SwitchOn {
            spelling: Spelling::Lua,
        }),
{
}

/// The pointer is moved to where it was read to be, and nowhere else.
pub proof fn law_the_pointer_stays_where_it_is(step: Step, answer: Option<String>)
    ensures
        after(step, answer) matches Step::SwitchOff { spelling, pointer } ==> (
        step matches Step::SwitchOff { spelling: before, pointer: read } && read == pointer) || (
        step is ReadPosition && (answer matches Some(text) && position_in(text@) == Some(pointer))),
        after(step, answer) matches Step::Nudge { spelling, pointer } ==> (
        step matches Step::SwitchOff { spelling: before, pointer: read } && read == pointer) || (
        step matches Step::Nudge { spelling: before, pointer: read } && read == pointer),
{
}

/// A position that is printed as two numbers with a comma and a space between
/// them is read back, the horizontal one first.
pub proof fn law_a_printed_position_is_read_back(
    before: Seq<char>,
    pointer: Point,
    after_it: Seq<char>,
)
    requires
        all_space(before),
        all_space(after_it),
    ensures
        position_in(
            before + (decimal_text(pointer.x as int).push(',') + decimal_text(
                pointer.y as int,
            ).insert(0, ' ')) + after_it,
        ) == Some(pointer),
{
    lemma_written_pair(before, pointer.x as int, pointer.y as int, after_it);
    law_a_written_number_is_read_back(pointer.x as int);
    law_a_written_number_is_read_back(pointer.y as int);
}

/// The plugin is touched only where it is loaded and on and the pointer is
/// known; it counts as suspended only once it was switched off and the pointer
/// moved; and it is tried in the second spelling wherever the first failed.
pub proof fn law_the_plugin_is_suspended_step_by_step(step: Step, answer: Option<String>)
    ensures
        after(step, answer) is ReadPosition ==> step is ReadSwitch && (answer matches Some(text)
            && switch_said(text@) == Some(true)),
        step is ReadSwitch && (answer matches Some(text) && switch_said(text@) == Some(true))
            ==> after(step, answer) is ReadPosition,
        step is ReadSwitch && !(answer matches Some(text) && switch_said(text@) == Some(true))
            ==> after(step, answer) is Finished,
        step is ReadPosition ==> (after(step, answer) is SwitchOff <==> (answer matches Some(text)
            && position_in(text@) is Some)),
        after(step, answer) is Suspended && !(step is Suspended) ==> step is Nudge && answer is Some,
        step matches Step::SwitchOff { spelling, pointer } ==> match (spelling, answer) {
            (Spelling::Lua, Some(text)) => if text@ == "ok"@ {
                after(step, answer) is Nudge
            } else {
                after(step, answer) == (Step::SwitchOff { spelling: Spelling::Keyword, pointer })
            },
            (Spelling::Lua, None) => after(step, answer) == (Step::SwitchOff {
                spelling: Spelling::Keyword,
                pointer,
            }),
            (Spelling::Keyword, Some(text)) => if has_part(text@, "unknown request"@) {
                after(step, answer) is Finished
            } else {
                after(step, answer) is Nudge
            },
            (Spelling::Keyword, None) => after(step, answer) is Finished,
        },
        step matches Step::Nudge { spelling, pointer } ==> match (spelling, answer) {
            (Spelling::Lua, Some(text)) => if text@ == "ok"@ {
                after(step, answer) is Suspended
            } else {
                after(step, answer) == (Step::Nudge { spelling: Spelling::Keyword, pointer })
            },
            (Spelling::Lua, None) => after(step, answer) == (Step::Nudge {
                spelling: Spelling::Keyword,
                pointer,
            }),
            (Spelling::Keyword, Some(_)) => after(step, answer) is Suspended,
            (Spelling::Keyword, None) => after(step, answer) is SwitchOn,
        },
        step matches Step::SwitchOn { spelling } ==> match (spelling, answer) {
            (Spelling::Lua, Some(text)) => if text@ == "ok"@ {
                after(step, answer) is Finished
            } else {
                after(step, answer) == (Step::SwitchOn { spelling: Spelling::Keyword })
            },
            (Spelling::Lua, None) => after(step, answer) == (Step::SwitchOn {
                spelling: Spelling::Keyword,
            }),
            (Spelling::Keyword, _) => after(step, answer) is Finished,
        },
{
}

/// Switching off and switching on ask for the opposite of one another in the
/// same words, and a nudge names the pointer's own position, the horizontal
/// number first.
pub proof fn law_a_step_asks_for_what_it_is_called(spelling: Spelling, pointer: Point)
    ensures
        question(Step::SwitchOff { spelling: Spelling::Keyword, pointer }) == Some(
            seq!["keyword"@, ENABLED@, "false"@],
        ),
        question(Step::SwitchOn { spelling: Spelling::Keyword }) == Some(
            seq!["keyword"@, ENABLED@, "true"@],
        ),
        question(Step::SwitchOff { spelling: Spelling::Lua, pointer }) == Some(
            seq![
                "eval"@,
                "hl.config({ plugin = { dynamic_cursors = { enabled = false } } })"@,
            ],
        ),
        question(Step::SwitchOn { spelling: Spelling::Lua }) == Some(
            seq![
                "eval"@,
                "hl.config({ plugin = { dynamic_cursors = { enabled = true } } })"@,
            ],
        ),
        question(Step::Nudge { spelling: Spelling::Keyword, pointer }) matches Some(asked)
            && asked.len() == 4 && asked[2] == decimal_text(pointer.x as int) && asked[3]
            == decimal_text(pointer.y as int),
        question(Step::Nudge { spelling: Spelling::Lua, pointer }) matches Some(asked)
            && asked.len() == 2 && asked[1] == "hl.dispatch(hl.dsp.cursor.move({ x = "@
            + decimal_text(pointer.x as int) + ", y = "@ + decimal_text(pointer.y as int)
            + " }))"@,
{
}

} // verus!
