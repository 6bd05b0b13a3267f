//! Which output the user is looking at.
//!
//! The compositor knows, so it is asked: which query to send, and what its
//! reply says, is decided here.  The answer carries the output's name wherever
//! the compositor has one, and the output's global logical rectangle.  Only the
//! session's own compositor is asked, because a second one running alongside
//! would answer for itself.

use vstd::prelude::*;
use vstd::utf8::{decode_utf8, valid_utf8};

use crate::binary64::{at_most, is_positive, scale_length, scaled_length, INFINITY, ONE};
use crate::error::VshotError;
use crate::geometry::{Point, Rect, Size};
use crate::json::{list_reading, parse as parse_json, parse_list, reading, trees, Json, Tree};
use crate::text::{
    all_space, ascii_lower, chars_of, cut_once, decimal_text, decimal_value, eq_ignore_ascii_case,
    is_space, law_a_line_holds_no_line_break, law_a_written_number_is_read_back,
    lemma_trimmed_of_solid, lemma_written_pair, lines, parse_i64, pieces, read_utf8,
    same_ignoring_case, slice_text, split_char, split_lines, split_once, texts, trim, trimmed,
    within_bounds,
};

use super::window::{answered, ask, Reply, WindowCommand, WindowCommandRunner};

verus! {

/// What a compositor says about the output the user is on: its name, the
/// rectangle it occupies in the global logical layout, or both.
#[derive(Clone, Debug, PartialEq, Eq)]
pub struct ActiveOutput {
    pub name: Option<String>,
    pub rect: Option<Rect>,
}

/// The text behind an optional string.
pub open spec fn optional_text(text: Option<String>) -> Option<Seq<char>> {
    match text {
        Some(text) => Some(text@),
        None => None,
    }
}

impl ActiveOutput {
    pub open spec fn view(&self) -> (Option<Seq<char>>, Option<Rect>) {
        (optional_text(self.name), self.rect)
    }
}

impl Default for ActiveOutput {
    fn default() -> (output: Self)
        ensures
            output@ == (None::<Seq<char>>, None::<Rect>),
    {
        ActiveOutput { name: None, rect: None }
    }
}

/// One compositor query, and how to read its reply.
#[derive(Clone, Copy, Debug, PartialEq, Eq, Structural)]
pub enum Probe {
    Hyprland,
    Sway,
    Niri,
    /// KWin's own query, through either of two D-Bus command line tools.
    KWinGdbus,
    KWinDbusSend,
}

/// The compositor behind a session.
#[derive(Clone, Copy, Debug, PartialEq, Eq, Structural)]
pub enum Session {
    Hyprland,
    Sway,
    Niri,
    KWin,
    /// Nothing names a compositor, so every probe is worth trying.
    Unknown,
}

/// The session a desktop name stands for.
pub open spec fn session_named(name: Seq<char>) -> Option<Session> {
    let name = trimmed(name);
    if same_ignoring_case(name, "hyprland"@) {
        Some(Session::Hyprland)
    } else if same_ignoring_case(name, "sway"@) {
        Some(Session::Sway)
    } else if same_ignoring_case(name, "niri"@) {
        Some(Session::Niri)
    } else if same_ignoring_case(name, "kde"@) || same_ignoring_case(name, "plasma"@) {
        Some(Session::KWin)
    } else {
        None
    }
}

/// The first name, from `from` on, that stands for a session.
pub open spec fn first_session(names: Seq<Seq<char>>, from: int) -> Option<Session>
    decreases names.len() - from,
{
    if from < 0 || from >= names.len() {
        None
    } else {
        match session_named(names[from]) {
            Some(session) => Some(session),
            None => first_session(names, from + 1),
        }
    }
}

/// The session a colon-separated list of desktop names stands for.
pub open spec fn session_in(list: Option<Seq<char>>) -> Option<Session> {
    match list {
        Some(list) => first_session(pieces(list, ':'), 0),
        None => None,
    }
}

/// The session two desktop variables stand for; the first one decides.
pub open spec fn session_of(current: Option<Seq<char>>, session: Option<Seq<char>>) -> Session {
    match session_in(current) {
        Some(found) => found,
        None => match session_in(session) {
            Some(found) => found,
            None => Session::Unknown,
        },
    }
}

pub open spec fn optional_str(text: Option<&str>) -> Option<Seq<char>> {
    match text {
        Some(text) => Some(text@),
        None => None,
    }
}

fn name_session(name: &str) -> (session: Option<Session>)
    ensures
        session == session_named(name@),
{
    let name = trim(name);
    let name = name.as_str();
    if eq_ignore_ascii_case(name, "hyprland") {
        Some(Session::Hyprland)
    } else if eq_ignore_ascii_case(name, "sway") {
        Some(Session::Sway)
    } else if eq_ignore_ascii_case(name, "niri") {
        Some(Session::Niri)
    } else if eq_ignore_ascii_case(name, "kde") || eq_ignore_ascii_case(name, "plasma") {
        Some(Session::KWin)
    } else {
        None
    }
}

fn list_session(list: Option<&str>) -> (session: Option<Session>)
    ensures
        session == session_in(optional_str(list)),
{
    let desktops = match list {
        Some(desktops) => desktops,
        None => {
            return None;
        },
    };
    let names = split_char(desktops, ':');
    let ghost all = texts(names@);
    let mut i: usize = 0;
    while i < names.len()
        invariant
            list == Some(desktops),
            all == pieces(desktops@, ':'),
            all == texts(names@),
            i <= names@.len(),
            first_session(all, 0) == first_session(all, i as int),
        decreases names.len() - i,
    {
        assert(all[i as int] == names@[i as int]@);
        if let Some(session) = name_session(names[i].as_str()) {
            return Some(session);
        }
        i = i + 1;
    }
    None
}

impl Session {
    /// The session named by `XDG_CURRENT_DESKTOP` and `XDG_SESSION_DESKTOP`.
    /// Both hold a colon-separated list, and the first name that is recognised
    /// wins.
    pub fn from_desktops(current: Option<&str>, session: Option<&str>) -> (found: Self)
        ensures
            found == session_of(optional_str(current), optional_str(session)),
    {
        if let Some(found) = list_session(current) {
            return found;
        }
        if let Some(found) = list_session(session) {
            return found;
        }
        Session::Unknown
    }
}

/// A probe as a subprocess.
#[derive(Clone, Debug, PartialEq, Eq)]
pub struct OutputCommand {
    pub probe: Probe,
    pub program: &'static str,
    pub args: Vec<&'static str>,
}

/// The texts behind a list of string slices.
pub open spec fn str_texts(list: Seq<&'static str>) -> Seq<Seq<char>> {
    Seq::new(list.len(), |i: int| list[i]@)
}

impl Probe {
    /// The session whose compositor the probe asks.
    pub open spec fn session_asked(self) -> Session {
        match self {
            Probe::Hyprland => Session::Hyprland,
            Probe::Sway => Session::Sway,
            Probe::Niri => Session::Niri,
            Probe::KWinGdbus => Session::KWin,
            Probe::KWinDbusSend => Session::KWin,
        }
    }

    pub open spec fn program(self) -> Seq<char> {
        match self {
            Probe::Hyprland => "hyprctl"@,
            Probe::Sway => "swaymsg"@,
            Probe::Niri => "niri"@,
            Probe::KWinGdbus => "gdbus"@,
            Probe::KWinDbusSend => "dbus-send"@,
        }
    }

    pub open spec fn arguments(self) -> Seq<Seq<char>> {
        match self {
            Probe::Hyprland => seq!["monitors"@, "-j"@],
            Probe::Sway => seq!["-t"@, "get_outputs"@],
            Probe::Niri => seq!["msg"@, "--json"@, "focused-output"@],
            Probe::KWinGdbus => seq![
                "call"@,
                "--session"@,
                "--dest"@,
                "org.kde.KWin"@,
                "--object-path"@,
                "/KWin"@,
                "--method"@,
                "org.kde.KWin.activeOutputName"@,
            ],
            Probe::KWinDbusSend => seq![
                "--session"@,
                "--print-reply=literal"@,
                "--dest=org.kde.KWin"@,
                "/KWin"@,
                "org.kde.KWin.activeOutputName"@,
            ],
        }
    }

    pub fn session(self) -> (session: Session)
        ensures
            session == self.session_asked(),
    {
        match self {
            Probe::Hyprland => Session::Hyprland,
            Probe::Sway => Session::Sway,
            Probe::Niri => Session::Niri,
            Probe::KWinGdbus => Session::KWin,
            Probe::KWinDbusSend => Session::KWin,
        }
    }

    /// The command that asks the compositor.
    pub fn command(self) -> (command: OutputCommand)
        ensures
            command.probe == self,
            command.program@ == self.program(),
            str_texts(command.args@) == self.arguments(),
    {
        let (program, args): (&'static str, Vec<&'static str>) = match self {
            Probe::Hyprland => ("hyprctl", vec!["monitors", "-j"]),
            Probe::Sway => ("swaymsg", vec!["-t", "get_outputs"]),
            Probe::Niri => ("niri", vec!["msg", "--json", "focused-output"]),
            Probe::KWinGdbus => (
                "gdbus",
                vec![
                    "call",
                    "--session",
                    "--dest",
                    "org.kde.KWin",
                    "--object-path",
                    "/KWin",
                    "--method",
                    "org.kde.KWin.activeOutputName",
                ],
            ),
            Probe::KWinDbusSend => (
                "dbus-send",
                vec![
                    "--session",
                    "--print-reply=literal",
                    "--dest=org.kde.KWin",
                    "/KWin",
                    "org.kde.KWin.activeOutputName",
                ],
            ),
        };
        assert(str_texts(args@) =~= self.arguments());
        OutputCommand { probe: self, program, args }
    }
}

/// All probes in the order they are tried.
pub open spec fn all_probes() -> Seq<Probe> {
    seq![Probe::Hyprland, Probe::Sway, Probe::Niri, Probe::KWinGdbus, Probe::KWinDbusSend]
}

/// The first `n` probes that are worth asking in a session.
pub open spec fn probes_asked(session: Session, n: int) -> Seq<Probe>
    decreases n,
{
    if n <= 0 {
        Seq::empty()
    } else if session == Session::Unknown || all_probes()[n - 1].session_asked() == session {
        probes_asked(session, n - 1).push(all_probes()[n - 1])
    } else {
        probes_asked(session, n - 1)
    }
}

/// The probes of a session, in the order they are tried; the first one that
/// answers wins.
pub fn probes_for(session: Session) -> (probes: Vec<Probe>)
    ensures
        probes@ == probes_asked(session, all_probes().len() as int),
{
    let all: Vec<Probe> = vec![
        Probe::Hyprland,
        Probe::Sway,
        Probe::Niri,
        Probe::KWinGdbus,
        Probe::KWinDbusSend,
    ];
    assert(all@ =~= all_probes());
    let mut probes: Vec<Probe> = Vec::new();
    let mut i: usize = 0;
    while i < all.len()
        invariant
            all@ == all_probes(),
            i <= all@.len(),
            probes@ == probes_asked(session, i as int),
        decreases all.len() - i,
    {
        let probe = all[i];
        if session == Session::Unknown || probe.session() == session {
            probes.push(probe);
        }
        i = i + 1;
    }
    probes
}

/// A session asks nobody but its own compositor.
pub proof fn law_a_session_asks_only_its_own_compositor(session: Session, n: int, i: int)
    requires
        session != Session::Unknown,
        0 <= n <= all_probes().len(),
        0 <= i < probes_asked(session, n).len(),
    ensures
        probes_asked(session, n)[i].session_asked() == session,
    decreases n,
{
    if n > 0 {
        if i < probes_asked(session, n - 1).len() {
            law_a_session_asks_only_its_own_compositor(session, n - 1, i);
        }
    }
}

// ---------------------------------------------------------------------------
// Replies
// ---------------------------------------------------------------------------
/// A rectangle whose numbers fit.
pub open spec fn fitting_rect(x: i64, y: i64, width: int, height: int) -> Option<Rect> {
    if i32::MIN <= x <= i32::MAX && i32::MIN <= y <= i32::MAX && width <= u32::MAX && height
        <= u32::MAX {
        Some(
            Rect {
                origin: Point { x: x as i32, y: y as i32 },
                size: Size { width: width as u32, height: height as u32 },
            },
        )
    } else {
        None
    }
}

fn rect(x: i64, y: i64, width: u64, height: u64) -> (rect: Option<Rect>)
    ensures
        rect == fitting_rect(x, y, width as int, height as int),
{
    if x < i32::MIN as i64 || x > i32::MAX as i64 || y < i32::MIN as i64 || y > i32::MAX as i64
        || width > u32::MAX as u64 || height > u32::MAX as u64 {
        return None;
    }
    Some(Rect::new(x as i32, y as i32, width as u32, height as u32))
}

/// One monitor as Hyprland reports it.
pub struct Monitor {
    pub name: Option<Seq<char>>,
    pub focused: bool,
    pub rect: Rect,
}

/// The scale of a monitor; an unscaled one when it names none.
pub open spec fn monitor_scale(monitor: Tree) -> u64 {
    match monitor.double_field("scale"@) {
        Some(bits) => bits,
        None => ONE,
    }
}

/// A monitor, unless its entry is unusable.  Its position is logical already,
/// its size has to be divided by the scale.
pub open spec fn monitor_of(monitor: Tree) -> Option<Monitor> {
    let scale = monitor_scale(monitor);
    match (
        monitor.signed_field("x"@),
        monitor.signed_field("y"@),
        monitor.unsigned_field("width"@),
        monitor.unsigned_field("height"@),
    ) {
        (Some(x), Some(y), Some(width), Some(height)) => if is_positive(scale) && scale
            != INFINITY {
            match fitting_rect(
                x,
                y,
                at_most(scaled_length(width as int, scale), u64::MAX as int),
                at_most(scaled_length(height as int, scale), u64::MAX as int),
            ) {
                Some(rect) => Some(
                    Monitor {
                        name: monitor.text_field("name"@),
                        focused: monitor.flag_field("focused"@) == Some(true),
                        rect,
                    },
                ),
                None => None,
            }
        } else {
            None
        },
        _ => None,
    }
}

/// The usable ones of the first `n` monitors.
pub open spec fn monitors_of(list: Seq<Tree>, n: int) -> Seq<Monitor>
    decreases n,
{
    if n <= 0 {
        Seq::empty()
    } else {
        match monitor_of(list[n - 1]) {
            Some(monitor) => monitors_of(list, n - 1).push(monitor),
            None => monitors_of(list, n - 1),
        }
    }
}

/// One monitor from Hyprland's list.
#[derive(Clone, Debug, PartialEq, Eq)]
pub struct HyprlandMonitor {
    pub name: Option<String>,
    pub focused: bool,
    pub rect: Rect,
}

impl HyprlandMonitor {
    pub open spec fn view(&self) -> Monitor {
        Monitor { name: optional_text(self.name), focused: self.focused, rect: self.rect }
    }
}

fn owned(text: Option<&str>) -> (copy: Option<String>)
    ensures
        optional_text(copy) == optional_str(text),
{
    match text {
        Some(text) => Some(text.to_owned()),
        None => None,
    }
}

pub open spec fn monitor_views(list: Seq<HyprlandMonitor>) -> Seq<Monitor> {
    Seq::new(list.len(), |i: int| list[i]@)
}

fn read_monitor(entry: &Json) -> (monitor: Option<HyprlandMonitor>)
    ensures
        match monitor {
            Some(monitor) => monitor_of(entry@) == Some(monitor@),
            None => monitor_of(entry@) is None,
        },
{
    let scale: u64 = match entry.double_field("scale") {
        Some(bits) => bits,
        None => ONE,
    };
    match (
        entry.signed_field("x"),
        entry.signed_field("y"),
        entry.unsigned_field("width"),
        entry.unsigned_field("height"),
    ) {
        (Some(x), Some(y), Some(width), Some(height)) => {
            if scale == 0 || scale >= INFINITY {
                return None;
            }
            match rect(x, y, scale_length(width, scale), scale_length(height, scale)) {
                Some(rect) => Some(
                    HyprlandMonitor {
                        name: owned(entry.text_field("name")),
                        focused: match entry.flag_field("focused") {
                            Some(focused) => focused,
                            None => false,
                        },
                        rect,
                    },
                ),
                None => None,
            }
        },
        _ => None,
    }
}

/// The monitors of Hyprland's list.
pub fn hyprland_monitors(list: &Vec<Json>) -> (monitors: Vec<HyprlandMonitor>)
    ensures
        monitor_views(monitors@) == monitors_of(trees(list@), list@.len() as int),
{
    let ghost all = trees(list@);
    let mut monitors: Vec<HyprlandMonitor> = Vec::new();
    let mut i: usize = 0;
    assert(monitor_views(monitors@) =~= monitors_of(all, 0));
    while i < list.len()
        invariant
            all == trees(list@),
            i <= list@.len(),
            monitor_views(monitors@) == monitors_of(all, i as int),
        decreases list.len() - i,
    {
        assert(all[i as int] == list@[i as int]@);
        if let Some(monitor) = read_monitor(&list[i]) {
            let ghost held = monitors@;
            monitors.push(monitor);
            assert(monitor_views(monitors@) =~= monitor_views(held).push(monitor@));
        }
        i = i + 1;
    }
    monitors
}

/// The first monitor, from `from` on, that the point lies on.
pub open spec fn first_under(monitors: Seq<Monitor>, x: int, y: int, from: int) -> Option<Monitor>
    decreases monitors.len() - from,
{
    if from < 0 || from >= monitors.len() {
        None
    } else if i32::MIN <= x <= i32::MAX && i32::MIN <= y <= i32::MAX && monitors[from].rect.covers(
        x,
        y,
    ) {
        Some(monitors[from])
    } else {
        first_under(monitors, x, y, from + 1)
    }
}

/// The first focused monitor, from `from` on.
pub open spec fn first_focused(monitors: Seq<Monitor>, from: int) -> Option<Monitor>
    decreases monitors.len() - from,
{
    if from < 0 || from >= monitors.len() {
        None
    } else if monitors[from].focused {
        Some(monitors[from])
    } else {
        first_focused(monitors, from + 1)
    }
}

/// The monitor under the pointer, else the focused one.
pub open spec fn active_monitor(monitors: Seq<Monitor>, cursor: Option<(i64, i64)>) -> Option<
    Monitor,
> {
    let under = match cursor {
        Some((x, y)) => first_under(monitors, x as int, y as int, 0),
        None => None,
    };
    match under {
        Some(monitor) => Some(monitor),
        None => first_focused(monitors, 0),
    }
}

/// Where the pointer is on some monitor, the answer is a monitor under the
/// pointer, whichever has the focus; where it is on none, the focus decides.
pub proof fn law_the_pointer_comes_before_the_focus(monitors: Seq<Monitor>, x: i64, y: i64)
    ensures
        (exists|i: int|
            0 <= i < monitors.len() && #[trigger] monitors[i].rect.covers(x as int, y as int))
            && i32::MIN <= x <= i32::MAX && i32::MIN <= y <= i32::MAX ==> (active_monitor(
            monitors,
            Some((x, y)),
        ) matches Some(monitor) && monitor.rect.covers(x as int, y as int)),
        (forall|i: int|
            0 <= i < monitors.len() ==> !#[trigger] monitors[i].rect.covers(x as int, y as int))
            ==> active_monitor(monitors, Some((x, y))) == first_focused(monitors, 0),
{
    lemma_first_under(monitors, x as int, y as int, 0);
}

proof fn lemma_first_under(monitors: Seq<Monitor>, x: int, y: int, from: int)
    requires
        0 <= from,
    ensures
        first_under(monitors, x, y, from) matches Some(monitor) ==> monitor.rect.covers(x, y) && (
        exists|i: int|
            from <= i < monitors.len() && #[trigger] monitors[i].rect.covers(x, y)),
        first_under(monitors, x, y, from) is None && i32::MIN <= x <= i32::MAX && i32::MIN <= y
            <= i32::MAX ==> forall|i: int|
            from <= i < monitors.len() ==> !#[trigger] monitors[i].rect.covers(x, y),
    decreases monitors.len() - from,
{
    if from < monitors.len() {
        lemma_first_under(monitors, x, y, from + 1);
    }
}

/// The answer a monitor amounts to.
pub open spec fn monitor_answer(monitor: Option<Monitor>) -> Option<
    (Option<Seq<char>>, Option<Rect>),
> {
    match monitor {
        Some(monitor) => Some((monitor.name, Some(monitor.rect))),
        None => None,
    }
}

/// The view of an optional answer.
pub open spec fn answer(output: Option<ActiveOutput>) -> Option<(Option<Seq<char>>, Option<Rect>)> {
    match output {
        Some(output) => Some(output@),
        None => None,
    }
}

fn active(monitor: &HyprlandMonitor) -> (output: ActiveOutput)
    ensures
        Some(output@) == monitor_answer(Some(monitor@)),
{
    let name = match &monitor.name {
        Some(name) => Some(name.clone()),
        None => None,
    };
    ActiveOutput { name, rect: Some(monitor.rect) }
}

/// The monitor under the pointer, else the focused one.
pub fn choose_monitor(monitors: &Vec<HyprlandMonitor>, cursor: Option<(i64, i64)>) -> (output: Option<
    ActiveOutput,
>)
    ensures
        answer(output) == monitor_answer(active_monitor(monitor_views(monitors@), cursor)),
{
    let ghost views = monitor_views(monitors@);
    if let Some((x, y)) = cursor {
        let mut i: usize = 0;
        while i < monitors.len()
            invariant
                views == monitor_views(monitors@),
                cursor == Some((x, y)),
                i <= monitors@.len(),
                first_under(views, x as int, y as int, 0) == first_under(
                    views,
                    x as int,
                    y as int,
                    i as int,
                ),
            decreases monitors.len() - i,
        {
            assert(views[i as int] == monitors@[i as int]@);
            if x >= i32::MIN as i64 && x <= i32::MAX as i64 && y >= i32::MIN as i64 && y
                <= i32::MAX as i64 && monitors[i].rect.contains(Point::new(x as i32, y as i32)) {
                return Some(active(&monitors[i]));
            }
            i = i + 1;
        }
    }
    let mut i: usize = 0;
    while i < monitors.len()
        invariant
            views == monitor_views(monitors@),
            match cursor {
                Some((x, y)) => first_under(views, x as int, y as int, 0) is None,
                None => true,
            },
            i <= monitors@.len(),
            first_focused(views, 0) == first_focused(views, i as int),
        decreases monitors.len() - i,
    {
        assert(views[i as int] == monitors@[i as int]@);
        if monitors[i].focused {
            return Some(active(&monitors[i]));
        }
        i = i + 1;
    }
    None
}

/// The monitors in Hyprland's reply; a reply that is no list holds none.
pub open spec fn replied_monitors(bytes: Seq<u8>) -> Seq<Monitor> {
    match list_reading(bytes) {
        Ok(list) => monitors_of(list, list.len() as int),
        Err(_) => Seq::empty(),
    }
}

/// Reads every monitor out of `hyprctl monitors -j`.
pub fn parse_hyprland_monitors(bytes: &[u8]) -> (monitors: Vec<HyprlandMonitor>)
    ensures
        monitor_views(monitors@) == replied_monitors(bytes@),
{
    match parse_list(bytes) {
        Ok(list) => hyprland_monitors(&list),
        Err(_) => {
            let none: Vec<HyprlandMonitor> = Vec::new();
            assert(monitor_views(none@) =~= Seq::empty());
            none
        },
    }
}

/// The monitor under the pointer, else the focused one, out of
/// `hyprctl monitors -j`.
pub fn hyprland_output(monitors: &[u8], cursor: Option<(i64, i64)>) -> (output: Option<ActiveOutput>)
    ensures
        answer(output) == monitor_answer(active_monitor(replied_monitors(monitors@), cursor)),
{
    choose_monitor(&parse_hyprland_monitors(monitors), cursor)
}

/// The point that `x, y` writes.
pub open spec fn cursor_in(text: Seq<char>) -> Option<(int, int)> {
    match cut_once(trimmed(text), ',') {
        Some((x, y)) => match (
            within_bounds(decimal_value(trimmed(x), true), i64::MIN as int, i64::MAX as int),
            within_bounds(decimal_value(trimmed(y), true), i64::MIN as int, i64::MAX as int),
        ) {
            (Some(x), Some(y)) => Some((x, y)),
            _ => None,
        },
        None => None,
    }
}

/// `hyprctl cursorpos` prints `x, y` in global logical pixels.
pub fn parse_cursor(bytes: &[u8]) -> (cursor: Option<(i64, i64)>)
    ensures
        match cursor {
            Some((x, y)) => valid_utf8(bytes@) && cursor_in(decode_utf8(bytes@)) == Some(
                (x as int, y as int),
            ),
            None => !valid_utf8(bytes@) || cursor_in(decode_utf8(bytes@)) is None,
        },
{
    let text = match read_utf8(bytes) {
        Ok(text) => text,
        Err(_) => {
            return None;
        },
    };
    let core = trim(text.as_str());
    match split_once(core.as_str(), ',') {
        Some((x, y)) => {
            let (x, y) = (trim(x.as_str()), trim(y.as_str()));
            match (parse_i64(x.as_str()), parse_i64(y.as_str())) {
                (Some(x), Some(y)) => Some((x, y)),
                _ => None,
            }
        },
        None => None,
    }
}

/// The rectangle an object of four numbers describes, when all four are there;
/// `Some(None)` when they do not fit.
pub open spec fn rect_fields(geometry: Tree) -> Option<Option<Rect>> {
    match (
        geometry.signed_field("x"@),
        geometry.signed_field("y"@),
        geometry.unsigned_field("width"@),
        geometry.unsigned_field("height"@),
    ) {
        (Some(x), Some(y), Some(width), Some(height)) => Some(
            fitting_rect(x, y, width as int, height as int),
        ),
        _ => None,
    }
}

/// An output with its geometry under the key.
pub open spec fn output_with(output: Tree, key: Seq<char>) -> Option<
    (Option<Seq<char>>, Option<Rect>),
> {
    match output.field(key) {
        Some(geometry) => match rect_fields(geometry) {
            Some(rect) => Some((output.text_field("name"@), rect)),
            None => None,
        },
        None => None,
    }
}

fn read_output(output: &Json, key: &str) -> (found: Option<ActiveOutput>)
    ensures
        answer(found) == output_with(output@, key@),
{
    match output.get(key) {
        Some(geometry) => match (
            geometry.signed_field("x"),
            geometry.signed_field("y"),
            geometry.unsigned_field("width"),
            geometry.unsigned_field("height"),
        ) {
            (Some(x), Some(y), Some(width), Some(height)) => Some(
                ActiveOutput {
                    name: owned(output.text_field("name")),
                    rect: rect(x, y, width, height),
                },
            ),
            _ => None,
        },
        None => None,
    }
}

/// The first focused entry, from `from` on.
pub open spec fn first_focused_entry(list: Seq<Tree>, from: int) -> Option<Tree>
    decreases list.len() - from,
{
    if from < 0 || from >= list.len() {
        None
    } else if list[from].flag_field("focused"@) == Some(true) {
        Some(list[from])
    } else {
        first_focused_entry(list, from + 1)
    }
}

/// The focused output of Sway's list.
pub open spec fn sway_output(list: Seq<Tree>) -> Option<(Option<Seq<char>>, Option<Rect>)> {
    match first_focused_entry(list, 0) {
        Some(output) => output_with(output, "rect"@),
        None => None,
    }
}

/// The focused output of Sway's list.
pub fn focused_sway_output(list: &Vec<Json>) -> (output: Option<ActiveOutput>)
    ensures
        answer(output) == sway_output(trees(list@)),
{
    let ghost all = trees(list@);
    let mut i: usize = 0;
    while i < list.len()
        invariant
            all == trees(list@),
            i <= list@.len(),
            first_focused_entry(all, 0) == first_focused_entry(all, i as int),
        decreases list.len() - i,
    {
        assert(all[i as int] == list@[i as int]@);
        if let Some(true) = list[i].flag_field("focused") {
            return read_output(&list[i], "rect");
        }
        i = i + 1;
    }
    None
}

/// Reads the focused output out of `swaymsg -t get_outputs`.
pub fn parse_sway_outputs(bytes: &[u8]) -> (output: Option<ActiveOutput>)
    ensures
        answer(output) == match list_reading(bytes@) {
            Ok(list) => sway_output(list),
            Err(_) => None,
        },
{
    match parse_list(bytes) {
        Ok(list) => focused_sway_output(&list),
        Err(_) => None,
    }
}

/// The output niri's document describes: `logical` holds its layout geometry.
pub fn niri_output(output: &Json) -> (found: Option<ActiveOutput>)
    ensures
        answer(found) == output_with(output@, "logical"@),
{
    read_output(output, "logical")
}

/// Reads the focused output out of `niri msg --json focused-output`.  A
/// disabled output has no layout geometry and is no answer.
pub fn parse_niri_output(bytes: &[u8]) -> (output: Option<ActiveOutput>)
    ensures
        answer(output) == match reading(bytes@) {
            Ok(document) => output_with(document, "logical"@),
            Err(_) => None,
        },
{
    match parse_json(bytes) {
        Ok(document) => niri_output(&document),
        Err(_) => None,
    }
}

// ---------------------------------------------------------------------------
// KWin's reply
// ---------------------------------------------------------------------------
pub open spec fn is_quote(c: char) -> bool {
    c == '\'' || c == '"'
}

pub open spec fn first_unquoted(text: Seq<char>, from: int) -> int
    decreases text.len() - from,
{
    if from < 0 || from >= text.len() || !is_quote(text[from]) {
        from
    } else {
        first_unquoted(text, from + 1)
    }
}

pub open spec fn last_unquoted(text: Seq<char>, from: int, end: int) -> int
    decreases end - from,
{
    if end <= from || !is_quote(text[end - 1]) {
        end
    } else {
        last_unquoted(text, from, end - 1)
    }
}

/// The text without the quotes around it.
pub open spec fn unquoted(text: Seq<char>) -> Seq<char> {
    let from = first_unquoted(text, 0);
    text.subrange(from, last_unquoted(text, from, text.len() as int))
}

fn unquote(text: &str) -> (core: String)
    ensures
        core@ == unquoted(text@),
{
    let chars = chars_of(text);
    let mut from: usize = 0;
    while from < chars.len() && (chars[from] == '\'' || chars[from] == '"')
        invariant
            from <= chars@.len(),
            first_unquoted(chars@, 0) == first_unquoted(chars@, from as int),
        decreases chars.len() - from,
    {
        from = from + 1;
    }
    let mut end: usize = chars.len();
    while end > from && (chars[end - 1] == '\'' || chars[end - 1] == '"')
        invariant
            from <= end <= chars@.len(),
            last_unquoted(chars@, from as int, chars@.len() as int) == last_unquoted(
                chars@,
                from as int,
                end as int,
            ),
        decreases end - from,
    {
        end = end - 1;
    }
    slice_text(&chars, from, end)
}

pub open spec fn without_first(text: Seq<char>, c: char) -> Seq<char> {
    if text.len() > 0 && text[0] == c {
        text.subrange(1, text.len() as int)
    } else {
        text
    }
}

pub open spec fn without_last(text: Seq<char>, c: char) -> Seq<char> {
    if text.len() > 0 && text.last() == c {
        text.subrange(0, text.len() - 1)
    } else {
        text
    }
}

fn strip_first(text: &str, c: char) -> (rest: String)
    ensures
        rest@ == without_first(text@, c),
{
    let chars = chars_of(text);
    if chars.len() > 0 && chars[0] == c {
        slice_text(&chars, 1, chars.len())
    } else {
        text.to_owned()
    }
}

fn strip_last(text: &str, c: char) -> (rest: String)
    ensures
        rest@ == without_last(text@, c),
{
    let chars = chars_of(text);
    if chars.len() > 0 && chars[chars.len() - 1] == c {
        slice_text(&chars, 0, chars.len() - 1)
    } else {
        text.to_owned()
    }
}

/// The name in a line that a D-Bus command line tool printed: the tuple and
/// the quotes around it are stripped.
pub open spec fn name_in_line(line: Seq<char>) -> Seq<char> {
    let bare = without_last(without_last(without_first(trimmed(line), '('), ')'), ',');
    trimmed(unquoted(trimmed(bare)))
}

/// The output KWin names; an empty name is no answer.
pub open spec fn kwin_name(text: Seq<char>) -> Option<Seq<char>> {
    if lines(text).len() > 0 && name_in_line(lines(text)[0]).len() > 0 {
        Some(name_in_line(lines(text)[0]))
    } else {
        None
    }
}

/// The output name in KWin's `activeOutputName` reply.
pub fn kwin_output_name(text: &str) -> (output: Option<ActiveOutput>)
    ensures
        answer(output) == match kwin_name(text@) {
            Some(name) => Some((Some(name), None::<Rect>)),
            None => None,
        },
{
    let list = split_lines(text);
    let ghost all = texts(list@);
    if list.len() == 0 {
        return None;
    }
    assert(all[0] == list@[0]@);
    let line = trim(list[0].as_str());
    let line = strip_first(line.as_str(), '(');
    let line = strip_last(line.as_str(), ')');
    let line = strip_last(line.as_str(), ',');
    let line = trim(line.as_str());
    let line = unquote(line.as_str());
    let name = trim(line.as_str());
    if name.as_str().is_empty() {
        return None;
    }
    Some(ActiveOutput { name: Some(name), rect: None })
}

/// Reads the output name out of KWin's `activeOutputName` reply.
pub fn parse_kwin_output_name(bytes: &[u8]) -> (output: Option<ActiveOutput>)
    ensures
        answer(output) == if valid_utf8(bytes@) {
            match kwin_name(decode_utf8(bytes@)) {
                Some(name) => Some((Some(name), None::<Rect>)),
                None => None,
            }
        } else {
            None
        },
{
    match read_utf8(bytes) {
        Ok(text) => kwin_output_name(text.as_str()),
        Err(_) => None,
    }
}

impl Probe {
    /// What a reply to this probe says.  `cursor` is the pointer position,
    /// which only Hyprland's reply is read with.
    pub open spec fn reply(self, bytes: Seq<u8>, cursor: Option<(i64, i64)>) -> Option<
        (Option<Seq<char>>, Option<Rect>),
    > {
        match self {
            Probe::Hyprland => monitor_answer(active_monitor(replied_monitors(bytes), cursor)),
            Probe::Sway => match list_reading(bytes) {
                Ok(list) => sway_output(list),
                Err(_) => None,
            },
            Probe::Niri => match reading(bytes) {
                Ok(document) => output_with(document, "logical"@),
                Err(_) => None,
            },
            _ => if valid_utf8(bytes) {
                match kwin_name(decode_utf8(bytes)) {
                    Some(name) => Some((Some(name), None::<Rect>)),
                    None => None,
                }
            } else {
                None
            },
        }
    }

    /// Reads the reply to this probe.
    pub fn parse(self, stdout: &[u8], cursor: Option<(i64, i64)>) -> (output: Option<ActiveOutput>)
        ensures
            answer(output) == self.reply(stdout@, cursor),
    {
        match self {
            Probe::Hyprland => hyprland_output(stdout, cursor),
            Probe::Sway => parse_sway_outputs(stdout),
            Probe::Niri => parse_niri_output(stdout),
            Probe::KWinGdbus => parse_kwin_output_name(stdout),
            Probe::KWinDbusSend => parse_kwin_output_name(stdout),
        }
    }
}

// ---------------------------------------------------------------------------
// Asking
// ---------------------------------------------------------------------------
/// Where `hyprctl cursorpos` says the pointer is.
pub open spec fn cursor_told(reply: Reply) -> Option<(i64, i64)> {
    match reply {
        Ok(output) => if output.success && valid_utf8(output.stdout@) {
            match cursor_in(decode_utf8(output.stdout@)) {
                Some((x, y)) => Some((x as i64, y as i64)),
                None => None,
            }
        } else {
            None
        },
        Err(_) => None,
    }
}

/// What a probe answers when these are the replies to it and to the question
/// for the pointer, which is asked on Hyprland only.
pub open spec fn probe_told(probe: Probe, replies: (Reply, Reply)) -> Option<
    (Option<Seq<char>>, Option<Rect>),
> {
    match replies.0 {
        Ok(output) => if output.success {
            probe.reply(
                output.stdout@,
                if probe == Probe::Hyprland {
                    cursor_told(replies.1)
                } else {
                    None
                },
            )
        } else {
            None
        },
        Err(_) => None,
    }
}

/// The reply settles the matter even where it names no output.  Hyprland shows
/// its outputs to Sway's queries as well, so what it says of them is final once
/// its list can be read: that no monitor is focused is an answer, and no reason
/// to ask another compositor.
pub open spec fn settles(probe: Probe, replies: (Reply, Reply)) -> bool {
    probe == Probe::Hyprland && (replies.0 matches Ok(output) && output.success && list_reading(
        output.stdout@,
    ) is Ok)
}

/// The first answer the probes give, unless one settles the matter before.
pub open spec fn first_told(probes: Seq<Probe>, replies: Seq<(Reply, Reply)>) -> Option<
    (Option<Seq<char>>, Option<Rect>),
>
    decreases probes.len(),
{
    if probes.len() == 0 || replies.len() == 0 {
        None
    } else {
        match probe_told(probes[0], replies[0]) {
            Some(told) => Some(told),
            None => if settles(probes[0], replies[0]) {
                None
            } else {
                first_told(probes.drop_first(), replies.drop_first())
            },
        }
    }
}

/// What Hyprland says of its monitors is final: no later probe changes it, not
/// even where it has no monitor to name.
pub proof fn law_hyprlands_word_is_final(probes: Seq<Probe>, replies: Seq<(Reply, Reply)>)
    requires
        probes.len() > 0,
        replies.len() > 0,
        settles(probes[0], replies[0]),
    ensures
        first_told(probes, replies) == probe_told(probes[0], replies[0]),
{
}

/// The replies are the runner's to a probe, and to the question for the pointer
/// that goes with Hyprland's once that one was answered.
pub open spec fn probe_asked<R: WindowCommandRunner>(
    runner: &R,
    probe: Probe,
    replies: (Reply, Reply),
) -> bool {
    &&& answered(runner, (probe.program(), probe.arguments()), replies.0)
    &&& (probe == Probe::Hyprland && (replies.0 matches Ok(output) && output.success)) ==> answered(
        runner,
        ("hyprctl"@, seq!["cursorpos"@]),
        replies.1,
    )
}

/// The replies are the runner's to the probes, which are asked one after the
/// other until one answers or settles the matter.
pub open spec fn probes_asked_in_turn<R: WindowCommandRunner>(
    runner: &R,
    probes: Seq<Probe>,
    replies: Seq<(Reply, Reply)>,
) -> bool
    decreases probes.len(),
{
    probes.len() > 0 ==> {
        &&& probe_asked(runner, probes[0], replies[0])
        &&& probe_told(probes[0], replies[0]) is None && !settles(probes[0], replies[0])
            ==> probes_asked_in_turn(runner, probes.drop_first(), replies.drop_first())
    }
}

/// Whether this is what comes of asking a session's probes, each of which got
/// one of these replies.
pub open spec fn found_output(
    session: Session,
    replies: Seq<(Reply, Reply)>,
    output: Option<ActiveOutput>,
) -> bool {
    let probes = probes_asked(session, all_probes().len() as int);
    replies.len() == probes.len() && answer(output) == first_told(probes, replies)
}

impl OutputCommand {
    fn to_command(&self) -> (command: WindowCommand)
        ensures
            command@ == (self.program@, str_texts(self.args@)),
    {
        let mut args: Vec<String> = Vec::new();
        while args.len() < self.args.len()
            invariant
                args@.len() <= self.args@.len(),
                forall|i: int| 0 <= i < args@.len() ==> (#[trigger] args@[i])@ == self.args@[i]@,
            decreases self.args.len() - args.len(),
        {
            args.push(self.args[args.len()].to_owned());
        }
        let command = WindowCommand { program: self.program.to_owned(), args };
        assert(command@.1 =~= str_texts(self.args@));
        command
    }
}

fn ask_pointer<R: WindowCommandRunner>(runner: &R) -> (told: (Option<(i64, i64)>, Ghost<Reply>))
    ensures
        told.0 == cursor_told(told.1@),
        answered(runner, ("hyprctl"@, seq!["cursorpos"@]), told.1@),
{
    let command = WindowCommand { program: "hyprctl".to_owned(), args: vec!["cursorpos".to_owned()] };
    assert(command@.1 =~= seq!["cursorpos"@]);
    let reply = ask(runner, &command);
    let ghost said = reply;
    match reply {
        Ok(output) => if output.success {
            (parse_cursor(output.stdout.as_slice()), Ghost(said))
        } else {
            (None, Ghost(said))
        },
        Err(_) => (None, Ghost(said)),
    }
}

fn ask_probe<R: WindowCommandRunner>(probe: Probe, runner: &R) -> (told: (
    Option<ActiveOutput>,
    bool,
    Ghost<(Reply, Reply)>,
))
    ensures
        answer(told.0) == probe_told(probe, told.2@),
        told.1 == settles(probe, told.2@),
        probe_asked(runner, probe, told.2@),
{
    let ghost nothing: Reply = Err(VshotError::CaptureTimeout);
    let reply = ask(runner, &probe.command().to_command());
    let ghost said = reply;
    let output = match reply {
        Ok(output) => output,
        Err(_) => {
            return (None, false, Ghost((said, nothing)));
        },
    };
    if !output.success {
        return (None, false, Ghost((said, nothing)));
    }
    let stdout = output.stdout.as_slice();
    if probe == Probe::Hyprland {
        let (pointer, pointer_said) = ask_pointer(runner);
        let readable = parse_list(stdout).is_ok();
        (probe.parse(stdout, pointer), readable, Ghost((said, pointer_said@)))
    } else {
        (probe.parse(stdout, None), false, Ghost((said, nothing)))
    }
}

fn ask_from<R: WindowCommandRunner>(probes: &Vec<Probe>, from: usize, runner: &R) -> (told: (
    Option<ActiveOutput>,
    Ghost<Seq<(Reply, Reply)>>,
))
    requires
        from <= probes@.len(),
    ensures
        told.1@.len() == probes@.len() - from,
        answer(told.0) == first_told(probes@.skip(from as int), told.1@),
        probes_asked_in_turn(runner, probes@.skip(from as int), told.1@),
    decreases probes.len() - from,
{
    if from == probes.len() {
        return (None, Ghost(Seq::empty()));
    }
    let (first, settled, said) = ask_probe(probes[from], runner);
    assert(probes@.skip(from as int)[0] == probes@[from as int]);
    assert(probes@.skip(from as int).drop_first() =~= probes@.skip(from + 1));
    if first.is_some() || settled {
        let ghost unasked: (Reply, Reply) = (
            Err(VshotError::CaptureTimeout),
            Err(VshotError::CaptureTimeout),
        );
        let ghost replies = seq![said@] + Seq::new(
            (probes@.len() - from - 1) as nat,
            |i: int| unasked,
        );
        assert(replies[0] == said@);
        return (first, Ghost(replies));
    }
    let (later, rest) = ask_from(probes, from + 1, runner);
    let ghost replies = seq![said@] + rest@;
    assert(replies.drop_first() =~= rest@);
    (later, Ghost(replies))
}

/// The output the user is on, from the first of the session's probes that
/// answers; Hyprland's answer is final even where no monitor has the focus.
pub fn find_active_output<R: WindowCommandRunner>(session: Session, runner: &R) -> (output: Option<
    ActiveOutput,
>)
    ensures
        exists|replies: Seq<(Reply, Reply)>| #[trigger]
            found_output(session, replies, output) && probes_asked_in_turn(
                runner,
                probes_asked(session, all_probes().len() as int),
                replies,
            ),
{
    let probes = probes_for(session);
    let (output, replies) = ask_from(&probes, 0, runner);
    assert(probes@.skip(0) =~= probes@);
    assert(found_output(session, replies@, output));
    output
}

/// Whether the pointer, where it is known, is on the monitor.
pub open spec fn points_at(cursor: Option<(i64, i64)>, monitor: Monitor) -> bool {
    cursor matches Some((x, y)) && i32::MIN <= x <= i32::MAX && i32::MIN <= y <= i32::MAX
        && monitor.rect.covers(x as int, y as int)
}

/// Where the pointer is on a monitor, the answer is the first such monitor of
/// the list, by its own name and rectangle, whatever has the focus.
pub proof fn law_the_first_monitor_under_the_pointer_answers(
    monitors: Seq<Monitor>,
    cursor: Option<(i64, i64)>,
    at: int,
)
    requires
        0 <= at < monitors.len(),
        points_at(cursor, monitors[at]),
        forall|i: int| 0 <= i < at ==> !points_at(cursor, #[trigger] monitors[i]),
    ensures
        monitor_answer(active_monitor(monitors, cursor)) == Some(
            (monitors[at].name, Some(monitors[at].rect)),
        ),
{
    let (x, y) = cursor->0;
    lemma_first_under_is(monitors, x as int, y as int, 0, at);
}

proof fn lemma_first_under_is(monitors: Seq<Monitor>, x: int, y: int, from: int, at: int)
    requires
        0 <= from <= at < monitors.len(),
        i32::MIN <= x <= i32::MAX,
        i32::MIN <= y <= i32::MAX,
        monitors[at].rect.covers(x, y),
        forall|i: int| from <= i < at ==> !(#[trigger] monitors[i]).rect.covers(x, y),
    ensures
        first_under(monitors, x, y, from) == Some(monitors[at]),
    decreases at - from,
{
    if from < at {
        assert(!monitors[from].rect.covers(x, y));
        lemma_first_under_is(monitors, x, y, from + 1, at);
    }
}

/// Where the pointer is unknown or on no monitor, the answer is the first
/// focused monitor of the list, by its own name and rectangle: it is focused,
/// none before it is, and there is no answer exactly when none is focused.
pub proof fn law_without_the_pointer_the_first_focused_monitor_answers(
    monitors: Seq<Monitor>,
    cursor: Option<(i64, i64)>,
)
    requires
        forall|i: int| 0 <= i < monitors.len() ==> !points_at(cursor, #[trigger] monitors[i]),
    ensures
        match monitor_answer(active_monitor(monitors, cursor)) {
            Some((name, rect)) => exists|at: int|
                {
                    &&& 0 <= at < monitors.len()
                    &&& (#[trigger] monitors[at]).focused
                    &&& name == monitors[at].name
                    &&& rect == Some(monitors[at].rect)
                    &&& forall|i: int| 0 <= i < at ==> !(#[trigger] monitors[i]).focused
                },
            None => forall|i: int|
                0 <= i < monitors.len() ==> !(#[trigger] monitors[i]).focused,
        },
{
    if let Some((x, y)) = cursor {
        lemma_first_under(monitors, x as int, y as int, 0);
        if first_under(monitors, x as int, y as int, 0) is Some {
            lemma_under_in_range(monitors, x as int, y as int, 0);
            let i = choose|i: int|
                0 <= i < monitors.len() && #[trigger] monitors[i].rect.covers(x as int, y as int);
            assert(points_at(cursor, monitors[i]));
        }
    }
    lemma_first_focused(monitors, 0);
}

proof fn lemma_under_in_range(monitors: Seq<Monitor>, x: int, y: int, from: int)
    requires
        0 <= from,
    ensures
        first_under(monitors, x, y, from) is Some ==> i32::MIN <= x <= i32::MAX && i32::MIN <= y
            <= i32::MAX,
    decreases monitors.len() - from,
{
    if from < monitors.len() {
        lemma_under_in_range(monitors, x, y, from + 1);
    }
}

proof fn lemma_first_focused(monitors: Seq<Monitor>, from: int)
    requires
        0 <= from,
    ensures
        match first_focused(monitors, from) {
            Some(monitor) => exists|at: int|
                {
                    &&& from <= at < monitors.len()
                    &&& (#[trigger] monitors[at]).focused
                    &&& monitor == monitors[at]
                    &&& forall|i: int| from <= i < at ==> !(#[trigger] monitors[i]).focused
                },
            None => forall|i: int|
                from <= i < monitors.len() ==> !(#[trigger] monitors[i]).focused,
        },
    decreases monitors.len() - from,
{
    if from < monitors.len() {
        lemma_first_focused(monitors, from + 1);
        if monitors[from].focused {
            assert(first_focused(monitors, from) == Some(monitors[from]));
        } else if let Some(monitor) = first_focused(monitors, from + 1) {
            let at = choose|at: int|
                {
                    &&& from + 1 <= at < monitors.len()
                    &&& (#[trigger] monitors[at]).focused
                    &&& monitor == monitors[at]
                    &&& forall|i: int| from + 1 <= i < at ==> !(#[trigger] monitors[i]).focused
                };
            assert(monitors[at].focused);
        }
    }
}

/// What an entry of Hyprland's list becomes: the position and the name as they
/// were written, the focus only where it says so in full, and the size as it
/// was written where the monitor is not scaled.  An entry without a position, a
/// size or a usable scale is no monitor.
pub proof fn law_a_monitor_is_read_from_its_own_fields(entry: Tree)
    ensures
        match monitor_of(entry) {
            Some(monitor) => {
                &&& entry.signed_field("x"@) == Some(monitor.rect.origin.x as i64)
                &&& entry.signed_field("y"@) == Some(monitor.rect.origin.y as i64)
                &&& entry.unsigned_field("width"@) is Some
                &&& entry.unsigned_field("height"@) is Some
                &&& monitor.name == entry.text_field("name"@)
                &&& (monitor.focused <==> entry.flag_field("focused"@) == Some(true))
            },
            None => true,
        },
        entry.signed_field("x"@) is None || entry.signed_field("y"@) is None
            || entry.unsigned_field("width"@) is None || entry.unsigned_field("height"@) is None
            ==> monitor_of(entry) is None,
{
}

/// Hyprland's list keeps its order: every usable entry becomes one monitor, the
/// monitors stand in the order of their entries, and there are no others.
/// `from` tells which entry each monitor comes from.
pub proof fn law_every_usable_monitor_is_listed_in_order(list: Seq<Tree>) -> (from: Seq<int>)
    ensures
        ({
            let monitors = monitors_of(list, list.len() as int);
            &&& from.len() == monitors.len()
            &&& forall|k: int|
                0 <= k < from.len() ==> 0 <= #[trigger] from[k] < list.len() && monitor_of(
                    list[from[k]],
                ) == Some(monitors[k])
            &&& forall|j: int, k: int| 0 <= j < k < from.len() ==> from[j] < from[k]
            &&& forall|i: int|
                0 <= i < list.len() && monitor_of(#[trigger] list[i]) is Some ==> from.contains(i)
        }),
{
    lemma_monitors_in_order(list, list.len() as int)
}

proof fn lemma_monitors_in_order(list: Seq<Tree>, n: int) -> (from: Seq<int>)
    requires
        0 <= n <= list.len(),
    ensures
        ({
            let monitors = monitors_of(list, n);
            &&& from.len() == monitors.len()
            &&& forall|k: int|
                0 <= k < from.len() ==> 0 <= #[trigger] from[k] < n && monitor_of(list[from[k]])
                    == Some(monitors[k])
            &&& forall|j: int, k: int| 0 <= j < k < from.len() ==> from[j] < from[k]
            &&& forall|i: int|
                0 <= i < n && monitor_of(#[trigger] list[i]) is Some ==> from.contains(i)
        }),
    decreases n,
{
    if n <= 0 {
        Seq::empty()
    } else {
        let before = lemma_monitors_in_order(list, n - 1);
        match monitor_of(list[n - 1]) {
            Some(monitor) => {
                let from = before.push(n - 1);
                assert(from.last() == n - 1);
                assert forall|i: int|
                    0 <= i < n && monitor_of(#[trigger] list[i]) is Some implies from.contains(
                    i,
                ) by {
                    if i < n - 1 {
                        let k = choose|k: int| 0 <= k < before.len() && before[k] == i;
                        assert(from[k] == i);
                    } else {
                        assert(from[from.len() - 1] == i);
                    }
                }
                from
            },
            None => before,
        }
    }
}

/// Sway's answer is its first focused output: that entry is focused, none
/// before it is, and its own name and rectangle are the answer; there is none
/// exactly when no output is focused, or the focused one has no rectangle of
/// four numbers.
pub proof fn law_sway_answers_with_its_first_focused_output(list: Seq<Tree>, at: int)
    requires
        0 <= at < list.len(),
        list[at].flag_field("focused"@) == Some(true),
        forall|i: int| 0 <= i < at ==> (#[trigger] list[i]).flag_field("focused"@) != Some(true),
    ensures
        match sway_output(list) {
            Some((name, rect)) => {
                &&& name == list[at].text_field("name"@)
                &&& list[at].field("rect"@) matches Some(written)
                &&& rect_as_written(rect, written)
            },
            None => list[at].field("rect"@) matches Some(written) ==> !has_four_numbers(written),
        },
{
    lemma_first_focused_entry_is(list, 0, at);
}

/// Without a focused output Sway has no answer.
pub proof fn law_sway_without_a_focused_output_has_no_answer(list: Seq<Tree>)
    requires
        forall|i: int|
            0 <= i < list.len() ==> (#[trigger] list[i]).flag_field("focused"@) != Some(true),
    ensures
        sway_output(list) is None,
{
    lemma_no_focused_entry(list, 0);
}

/// Whether an object has the four numbers of a rectangle.
pub open spec fn has_four_numbers(written: Tree) -> bool {
    &&& written.signed_field("x"@) is Some
    &&& written.signed_field("y"@) is Some
    &&& written.unsigned_field("width"@) is Some
    &&& written.unsigned_field("height"@) is Some
}

/// The rectangle is the four numbers of the object, as far as they fit.
pub open spec fn rect_as_written(rect: Option<Rect>, written: Tree) -> bool {
    &&& has_four_numbers(written)
    &&& match rect {
        Some(rect) => {
            &&& written.signed_field("x"@) == Some(rect.origin.x as i64)
            &&& written.signed_field("y"@) == Some(rect.origin.y as i64)
            &&& written.unsigned_field("width"@) == Some(rect.size.width as u64)
            &&& written.unsigned_field("height"@) == Some(rect.size.height as u64)
        },
        None => {
            ||| written.signed_field("x"@)->0 < i32::MIN
            ||| written.signed_field("x"@)->0 > i32::MAX
            ||| written.signed_field("y"@)->0 < i32::MIN
            ||| written.signed_field("y"@)->0 > i32::MAX
            ||| written.unsigned_field("width"@)->0 > u32::MAX
            ||| written.unsigned_field("height"@)->0 > u32::MAX
        },
    }
}

proof fn lemma_first_focused_entry_is(list: Seq<Tree>, from: int, at: int)
    requires
        0 <= from <= at < list.len(),
        list[at].flag_field("focused"@) == Some(true),
        forall|i: int| from <= i < at ==> (#[trigger] list[i]).flag_field("focused"@) != Some(true),
    ensures
        first_focused_entry(list, from) == Some(list[at]),
    decreases at - from,
{
    if from < at {
        assert(list[from].flag_field("focused"@) != Some(true));
        lemma_first_focused_entry_is(list, from + 1, at);
    }
}

proof fn lemma_no_focused_entry(list: Seq<Tree>, from: int)
    requires
        0 <= from,
        forall|i: int|
            from <= i < list.len() ==> (#[trigger] list[i]).flag_field("focused"@) != Some(true),
    ensures
        first_focused_entry(list, from) is None,
    decreases list.len() - from,
{
    if from < list.len() {
        lemma_no_focused_entry(list, from + 1);
    }
}

/// What niri says of the focused output is read off its `logical` geometry,
/// with its own name; an output without that geometry is no answer.
pub proof fn law_niri_answers_with_the_layout_of_its_output(bytes: Seq<u8>, cursor: Option<(i64, i64)>)
    ensures
        match Probe::Niri.reply(bytes, cursor) {
            Some((name, rect)) => {
                &&& reading(bytes) matches Ok(output)
                &&& name == output.text_field("name"@)
                &&& output.field("logical"@) matches Some(written)
                &&& rect_as_written(rect, written)
            },
            None => reading(bytes) matches Ok(output) ==> (output.field("logical"@) matches Some(
                written,
            ) ==> !has_four_numbers(written)),
        },
{
}

/// A pointer position that is printed as two numbers with a comma and a space
/// between them is read back, the horizontal one first.
pub proof fn law_a_printed_pointer_is_read_back(
    before: Seq<char>,
    x: i64,
    y: i64,
    after: Seq<char>,
)
    requires
        all_space(before),
        all_space(after),
    ensures
        cursor_in(
            before + (decimal_text(x as int).push(',') + decimal_text(y as int).insert(0, ' '))
                + after,
        ) == Some((x as int, y as int)),
{
    lemma_written_pair(before, x as int, y as int, after);
    law_a_written_number_is_read_back(x as int);
    law_a_written_number_is_read_back(y as int);
}

/// A desktop name stands for the session it spells, whatever its ASCII case and
/// the white space around it; both of KDE's names stand for KWin.
pub proof fn law_a_desktop_name_stands_for_the_session_it_spells(name: Seq<char>)
    ensures
        session_named(name) == Some(Session::Hyprland) <==> same_ignoring_case(
            trimmed(name),
            "hyprland"@,
        ),
        session_named(name) == Some(Session::Sway) <==> same_ignoring_case(trimmed(name), "sway"@),
        session_named(name) == Some(Session::Niri) <==> same_ignoring_case(trimmed(name), "niri"@),
        session_named(name) == Some(Session::KWin) <==> same_ignoring_case(trimmed(name), "kde"@)
            || same_ignoring_case(trimmed(name), "plasma"@),
        session_named(name) != Some(Session::Unknown),
{
    reveal_strlit("hyprland");
    reveal_strlit("sway");
    reveal_strlit("niri");
    reveal_strlit("kde");
    reveal_strlit("plasma");
    assert("hyprland"@.len() == 8 && "sway"@.len() == 4 && "niri"@.len() == 4 && "kde"@.len() == 3
        && "plasma"@.len() == 6);
    let text = trimmed(name);
    if same_ignoring_case(text, "sway"@) && same_ignoring_case(text, "niri"@) {
        assert(ascii_lower(text[0]) == ascii_lower("sway"@[0]));
        assert(ascii_lower(text[0]) == ascii_lower("niri"@[0]));
    }
}

/// The session is the first one that is named in the first list, and only where
/// that names none the first one in the second; without any it is not known.
pub proof fn law_the_first_name_that_is_known_decides(
    names: Seq<Seq<char>>,
    at: int,
    current: Option<Seq<char>>,
    session: Option<Seq<char>>,
)
    requires
        forall|i: int| 0 <= i < at && i < names.len() ==> session_named(#[trigger] names[i]) is None,
    ensures
        0 <= at < names.len() && session_named(names[at]) is Some ==> first_session(names, 0)
            == session_named(names[at]),
        at >= names.len() ==> first_session(names, 0) is None,
        current matches Some(list) ==> (first_session(pieces(list, ':'), 0) matches Some(found)
            ==> session_of(current, session) == found),
        (current matches Some(list) ==> first_session(pieces(list, ':'), 0) is None) ==> {
            &&& session matches Some(list) ==> (first_session(pieces(list, ':'), 0) matches Some(
                found,
            ) ==> session_of(current, session) == found)
            &&& (session matches Some(list) ==> first_session(pieces(list, ':'), 0) is None)
                ==> session_of(current, session) == Session::Unknown
        },
{
    lemma_first_session(names, 0, at);
}

proof fn lemma_first_session(names: Seq<Seq<char>>, from: int, at: int)
    requires
        0 <= from,
        forall|i: int|
            from <= i < at && i < names.len() ==> session_named(#[trigger] names[i]) is None,
    ensures
        from <= at < names.len() && session_named(names[at]) is Some ==> first_session(names, from)
            == session_named(names[at]),
        at >= names.len() ==> first_session(names, from) is None,
    decreases names.len() - from,
{
    if from < names.len() && from < at {
        assert(session_named(names[from]) is None);
        lemma_first_session(names, from + 1, at);
    }
}

/// Where the session is not known every compositor is asked, Hyprland first and
/// KWin through either of its tools last; where it is known its own is asked,
/// and nobody else.
pub proof fn law_the_probes_of_a_session(session: Session)
    ensures
        ({
            let probes = probes_asked(session, all_probes().len() as int);
            match session {
                Session::Unknown => probes == seq![
                    Probe::Hyprland,
                    Probe::Sway,
                    Probe::Niri,
                    Probe::KWinGdbus,
                    Probe::KWinDbusSend,
                ],
                Session::Hyprland => probes == seq![Probe::Hyprland],
                Session::Sway => probes == seq![Probe::Sway],
                Session::Niri => probes == seq![Probe::Niri],
                Session::KWin => probes == seq![Probe::KWinGdbus, Probe::KWinDbusSend],
            }
        }),
{
    reveal_with_fuel(probes_asked, 6);
}

/// The first probe that answers is the one that counts: its answer stands
/// where none before it answered or settled the matter, and there is no answer
/// where none answers.
pub proof fn law_the_first_probe_that_answers_counts(
    probes: Seq<Probe>,
    replies: Seq<(Reply, Reply)>,
    at: int,
)
    requires
        probes.len() == replies.len(),
        forall|i: int|
            #![trigger probes[i]]
            0 <= i < at && i < probes.len() ==> probe_told(probes[i], replies[i]) is None
                && !settles(probes[i], replies[i]),
    ensures
        0 <= at < probes.len() && probe_told(probes[at], replies[at]) is Some ==> first_told(
            probes,
            replies,
        ) == probe_told(probes[at], replies[at]),
        at >= probes.len() ==> first_told(probes, replies) is None,
    decreases probes.len(),
{
    if probes.len() > 0 && at > 0 {
        let (rest, others) = (probes.drop_first(), replies.drop_first());
        assert(probe_told(probes[0], replies[0]) is None && !settles(probes[0], replies[0]));
        assert forall|i: int|
            #![trigger rest[i]]
            0 <= i < at - 1 && i < rest.len() implies probe_told(rest[i], others[i]) is None
            && !settles(rest[i], others[i]) by {
            assert(rest[i] == probes[i + 1] && others[i] == replies[i + 1]);
        }
        law_the_first_probe_that_answers_counts(rest, others, at - 1);
        if at < probes.len() {
            assert(rest[at - 1] == probes[at] && others[at - 1] == replies[at]);
        }
    }
}

/// A reply counts only where the program succeeded, and the pointer is asked
/// for only of Hyprland.
pub proof fn law_a_failed_probe_says_nothing(probe: Probe, replies: (Reply, Reply))
    ensures
        replies.0 is Err ==> probe_told(probe, replies) is None,
        replies.0 matches Ok(output) ==> (!output.success ==> probe_told(probe, replies) is None),
        replies.0 matches Ok(output) ==> (output.success ==> probe_told(probe, replies)
            == probe.reply(
            output.stdout@,
            if probe is Hyprland {
                cursor_told(replies.1)
            } else {
                None
            },
        )),
        replies.1 matches Ok(output) ==> (!output.success ==> cursor_told(replies.1) is None),
        replies.1 is Err ==> cursor_told(replies.1) is None,
        replies.1 matches Ok(output) ==> (output.success && valid_utf8(output.stdout@) ==> (
        cursor_in(decode_utf8(output.stdout@)) matches Some((x, y)) ==> cursor_told(replies.1)
            == Some((x as i64, y as i64)))),
{
}

/// Only Hyprland's reply settles the matter without naming an output, and only
/// one that ended well and can be read as a list; after any other reply that
/// names none the next probe is asked.
pub proof fn law_only_a_readable_hyprland_list_settles(
    probes: Seq<Probe>,
    replies: Seq<(Reply, Reply)>,
)
    requires
        probes.len() > 0,
        replies.len() > 0,
        probe_told(probes[0], replies[0]) is None,
    ensures
        probes[0] != Probe::Hyprland || replies[0].0 is Err || !replies[0].0->Ok_0.success
            || list_reading(replies[0].0->Ok_0.stdout@) is Err ==> first_told(probes, replies)
            == first_told(probes.skip(1), replies.skip(1)),
        probes[0] == Probe::Hyprland && (replies[0].0 matches Ok(output) && output.success
            && list_reading(output.stdout@) is Ok) ==> first_told(probes, replies) is None,
{
    assert(probes.skip(1) =~= probes.drop_first());
    assert(replies.skip(1) =~= replies.drop_first());
}

/// A name that is printed as the only entry of a tuple, in quotes, is read back
/// without them; so is one that a line holds as it is.
pub proof fn law_a_printed_output_name_is_read_back(name: Seq<char>)
    requires
        name.len() > 0,
        forall|i: int| 0 <= i < name.len() ==> !is_space(#[trigger] name[i]),
        name[0] != '\'' && name[0] != '"',
        name.last() != '\'' && name.last() != '"',
    ensures
        kwin_name(seq!['(', '\''] + name + seq!['\'', ',', ')']) == Some(name),
        name[0] != '(' && name.last() != ')' && name.last() != ',' ==> kwin_name(name) == Some(
            name,
        ),
        kwin_name(Seq::empty()) is None,
{
    let none = Seq::<char>::empty();
    let quoted = seq!['\''] + name + seq!['\''];
    let text = seq!['(', '\''] + name + seq!['\'', ',', ')'];
    lemma_solid_tuple(name, text, quoted);
    law_a_line_holds_no_line_break(none);
    lemma_unquoted(name);
    assert(name_in_line(text) == name) by {
        lemma_trimmed_of_solid(none, text, none);
        lemma_tuple_stripped(name);
        lemma_trimmed_of_solid(none, quoted, none);
        lemma_trimmed_of_solid(none, name, none);
    }
    lemma_line_of_solid(text);
    if name[0] != '(' && name.last() != ')' && name.last() != ',' {
        assert(name_in_line(name) == name) by {
            lemma_trimmed_of_solid(none, name, none);
        }
        lemma_line_of_solid(name);
    }
}

proof fn lemma_solid_tuple(name: Seq<char>, text: Seq<char>, quoted: Seq<char>)
    requires
        text == seq!['(', '\''] + name + seq!['\'', ',', ')'],
        quoted == seq!['\''] + name + seq!['\''],
        forall|i: int| 0 <= i < name.len() ==> !is_space(#[trigger] name[i]),
    ensures
        forall|i: int| 0 <= i < text.len() ==> !is_space(#[trigger] text[i]),
        forall|i: int| 0 <= i < quoted.len() ==> !is_space(#[trigger] quoted[i]),
{
    assert forall|i: int| 0 <= i < text.len() implies !is_space(#[trigger] text[i]) by {
        if 2 <= i < name.len() + 2 {
            assert(text[i] == name[i - 2]);
        }
    }
    assert forall|i: int| 0 <= i < quoted.len() implies !is_space(#[trigger] quoted[i]) by {
        if 1 <= i < name.len() + 1 {
            assert(quoted[i] == name[i - 1]);
        }
    }
}

proof fn lemma_tuple_stripped(name: Seq<char>)
    ensures
        without_last(
            without_last(
                without_first(seq!['(', '\''] + name + seq!['\'', ',', ')'], '('),
                ')',
            ),
            ',',
        ) == seq!['\''] + name + seq!['\''],
{
    let text = seq!['(', '\''] + name + seq!['\'', ',', ')'];
    let quoted = seq!['\''] + name + seq!['\''];
    assert(without_first(text, '(') =~= quoted + seq![',', ')']);
    assert(without_last(quoted + seq![',', ')'], ')') =~= quoted + seq![',']);
    assert(without_last(quoted + seq![','], ',') =~= quoted);
}

proof fn lemma_unquoted(name: Seq<char>)
    requires
        name.len() > 0,
        !is_quote(name[0]),
        !is_quote(name.last()),
    ensures
        unquoted(seq!['\''] + name + seq!['\'']) == name,
        unquoted(name) == name,
{
    let n = name.len() as int;
    let quoted = seq!['\''] + name + seq!['\''];
    assert(quoted[0] == '\'' && quoted[1] == name[0]);
    assert(quoted[n] == name[n - 1] && quoted[n + 1] == '\'');
    assert(first_unquoted(quoted, 1) == 1);
    assert(first_unquoted(quoted, 0) == 1);
    assert(last_unquoted(quoted, 1, n + 1) == n + 1);
    assert(last_unquoted(quoted, 1, n + 2) == n + 1);
    assert(quoted.subrange(1, n + 1) =~= name);
    assert(first_unquoted(name, 0) == 0);
    assert(last_unquoted(name, 0, n) == n);
    assert(name.subrange(0, n) =~= name);
}

proof fn lemma_line_of_solid(text: Seq<char>)
    requires
        text.len() > 0,
        forall|i: int| 0 <= i < text.len() ==> !is_space(#[trigger] text[i]),
    ensures
        lines(text) == seq![text],
{
    law_a_line_holds_no_line_break(text);
    if text.contains('\n') {
        let i = choose|i: int| 0 <= i < text.len() && text[i] == '\n';
        assert(!is_space(text[i]));
    }
}

} // verus!
