//! The windows a compositor shows.
//!
//! Each compositor is asked with a command of its own; which commands, and what
//! their output says, is decided here.  Window lists come in stacking order,
//! bottom to top, so the last window under a point is the one on top.

use vstd::prelude::*;
use vstd::utf8::{decode_utf8, valid_utf8};

use crate::binary64::{at_most, is_positive, scale_length, scaled_length, ONE};
use crate::error::{message_of, Result, VshotError};
use crate::geometry::{Point, Rect, Size};
use crate::json::{member_from, parse as parse_json, reading, trees, Json, Tree};
use crate::text::{
    concat2, concat3, decimal_text, decimal_value, eq_ignore_ascii_case, format_i64, join, joined, lines,
    parse_i32, parse_u32, read_utf8, same_ignoring_case, same_text, split_lines, split_whitespace,
    texts, trim, trimmed, utf8_complaint, within_bounds, words,
};

use super::active_output::{optional_str, session_of, Session};

verus! {

/// Who said where the active window is.
#[derive(Clone, Copy, Debug, PartialEq, Eq, Structural)]
pub enum WindowSource {
    Hyprland,
    Sway,
    KWin,
    /// Detected from the captured frame.
    Pixel,
}

/// The active window, in global logical pixels.
#[derive(Clone, Copy, Debug, PartialEq, Eq, Structural)]
pub struct ActiveWindow {
    pub geometry: Rect,
    pub source: WindowSource,
}

/// One window the compositor shows, with the label the user can recognise it
/// by.
#[derive(Clone, Debug, PartialEq, Eq)]
pub struct WindowCandidate {
    pub geometry: Rect,
    /// `class — title`, or what the compositor reports of the two.
    pub label: String,
}

impl WindowCandidate {
    pub open spec fn view(&self) -> (Rect, Seq<char>) {
        (self.geometry, self.label@)
    }
}

/// The geometries and labels behind a list of windows.
pub open spec fn listed(windows: Seq<WindowCandidate>) -> Seq<(Rect, Seq<char>)> {
    Seq::new(windows.len(), |i: int| windows[i]@)
}

// ---------------------------------------------------------------------------
// Commands
// ---------------------------------------------------------------------------
/// A program with its arguments.
#[derive(Clone, Debug, PartialEq, Eq)]
pub struct WindowCommand {
    pub program: String,
    pub args: Vec<String>,
}

/// What a finished program left behind.
#[derive(Clone, Debug, PartialEq, Eq)]
pub struct CommandOutput {
    pub success: bool,
    /// The exit status in words.
    pub status: String,
    pub stdout: Vec<u8>,
    pub stderr: Vec<u8>,
}

impl WindowCommand {
    pub open spec fn view(&self) -> (Seq<char>, Seq<Seq<char>>) {
        (self.program@, texts(self.args@))
    }

    fn of(program: &str, args: Vec<String>) -> (command: Self)
        ensures
            command@ == (program@, texts(args@)),
    {
        WindowCommand { program: program.to_owned(), args }
    }

    /// The focused Hyprland window.
    pub fn hyprland() -> (command: Self)
        ensures
            command@ == ("hyprctl"@, seq!["activewindow"@, "-j"@]),
    {
        let args = vec!["activewindow".to_owned(), "-j".to_owned()];
        assert(texts(args@) =~= seq!["activewindow"@, "-j"@]);
        WindowCommand::of("hyprctl", args)
    }

    /// Every client Hyprland knows.
    pub fn hyprland_clients() -> (command: Self)
        ensures
            command@ == ("hyprctl"@, seq!["clients"@, "-j"@]),
    {
        let args = vec!["clients".to_owned(), "-j".to_owned()];
        assert(texts(args@) =~= seq!["clients"@, "-j"@]);
        WindowCommand::of("hyprctl", args)
    }

    /// The monitor list that goes with the clients.
    pub fn hyprland_monitors() -> (command: Self)
        ensures
            command@ == ("hyprctl"@, seq!["monitors"@, "-j"@]),
    {
        let args = vec!["monitors".to_owned(), "-j".to_owned()];
        assert(texts(args@) =~= seq!["monitors"@, "-j"@]);
        WindowCommand::of("hyprctl", args)
    }

    /// Sway's window tree.
    pub fn sway() -> (command: Self)
        ensures
            command@ == ("swaymsg"@, seq!["-t"@, "get_tree"@]),
    {
        let args = vec!["-t".to_owned(), "get_tree".to_owned()];
        assert(texts(args@) =~= seq!["-t"@, "get_tree"@]);
        WindowCommand::of("swaymsg", args)
    }

    /// KWin's focused window, through the scripting probe.
    pub fn kwin() -> (command: Self)
        ensures
            command@ == ("bash"@, seq!["-c"@, KWIN_PROBE@, "vshot"@, "active"@]),
    {
        kwin_probe("active")
    }

    /// KWin's windows, through the same probe.
    pub fn kwin_list() -> (command: Self)
        ensures
            command@ == ("bash"@, seq!["-c"@, KWIN_PROBE@, "vshot"@, "list"@]),
    {
        kwin_probe("list")
    }
}

/// `bash -c SCRIPT vshot MODE` makes the script's `$1` the mode.
fn kwin_probe(mode: &str) -> (command: WindowCommand)
    ensures
        command@ == ("bash"@, seq!["-c"@, KWIN_PROBE@, "vshot"@, mode@]),
{
    let args = vec!["-c".to_owned(), KWIN_PROBE.to_owned(), "vshot".to_owned(), mode.to_owned()];
    assert(texts(args@) =~= seq!["-c"@, KWIN_PROBE@, "vshot"@, mode@]);
    WindowCommand::of("bash", args)
}

/// Asks KWin through its scripting interface.  `$1` selects `active` (the
/// focused window) or `list` (every window).  Each result line is
/// `x y width height` in global logical pixels; any other outcome exits
/// non-zero or prints nothing.
pub const KWIN_PROBE: &'static str = r##"
set -u
mode="${1:-active}"
marker="VSHOTMARK_$$"
run_limited() {
    if command -v timeout >/dev/null 2>&1; then
        timeout 3 "$@"
    else
        "$@"
    fi
}
tmp="$(mktemp "${TMPDIR:-/tmp}/vshot-kwin-XXXXXX.js")" || exit 3
trap 'rm -f "$tmp"' EXIT

# kdotool answers only the active-window question; listing goes through the
# scripting probe either way.
if [ "$mode" = active ] && command -v kdotool >/dev/null 2>&1; then
    # `getwindowgeometry` has no `--shell` form — kdotool 0.2.1 offers that only
    # for `getmouselocation`, and asking anyway fails the whole command — so its
    # labelled output is parsed instead:
    #
    #   Window {1d5f...}
    #     Position: 400.0702150216,167.68492081784424
    #     Geometry: 1066x709.9999999999989
    #
    # The fractions are kdotool's own arithmetic on whole logical pixels, so
    # they are rounded back.
    geo="$(run_limited kdotool getactivewindow getwindowgeometry 2>/dev/null)" || geo=""
    if [ -n "$geo" ] && command -v awk >/dev/null 2>&1; then
        geo="$(printf '%s\n' "$geo" | awk '
            /^[[:space:]]*Position:/ { split($2, at, ","); x = at[1]; y = at[2] }
            /^[[:space:]]*Geometry:/ { split($2, size, "x"); w = size[1]; h = size[2] }
            END {
                if (w > 0 && h > 0) {
                    printf "%d %d %d %d\n", int(x + 0.5), int(y + 0.5), int(w + 0.5), int(h + 0.5)
                }
            }
        ')"
        if [ -n "$geo" ]; then
            printf '%s\n' "$geo"
            exit 0
        fi
    fi
fi

if command -v gdbus >/dev/null 2>&1; then
    tool=gdbus
elif command -v dbus-send >/dev/null 2>&1; then
    tool=dbus-send
else
    exit 3
fi

if [ "$mode" = active ]; then
cat > "$tmp" <<EOF
const w = workspace.activeWindow || workspace.activeClient;
if (w) {
    const g = w.frameGeometry || w.geometry;
    if (g && g.width > 0 && g.height > 0) {
        console.info("$marker " + Math.round(g.x) + " " + Math.round(g.y)
            + " " + Math.round(g.width) + " " + Math.round(g.height));
    } else {
        console.info("$marker null");
    }
} else {
    console.info("$marker null");
}
EOF
else
cat > "$tmp" <<EOF
// Stacking order, bottom to top: the picker takes the last window under the
// pointer, so the order is what makes that window the one on top.  KWin's own
// hit test walks this same list from its end for the same reason.  It is a
// property, not a method; `windowList()` is creation order and only stands in
// for a KWin too old to have the stacking order at all.
let stacking = workspace.stackingOrder;
if (typeof stacking === "function") {
    stacking = stacking.call(workspace);
}
const windows = stacking && stacking.length ? stacking
    : (workspace.windowList ? workspace.windowList()
        : (workspace.clientList ? workspace.clientList() : []));
for (let index = 0; index < windows.length; ++index) {
    const w = windows[index];
    if (!w || w.deleted || w.hidden || w.minimized) {
        continue;
    }
    // Panels, docks and splash screens are not pickable windows.
    if (w.normalWindow === false) {
        continue;
    }
    // The picker's own overlay is a normal, full-screen window as far as KWin
    // is concerned (layer-shell surfaces are not special-cased here), and it
    // sits on top of the stack while the session is open.  Re-listing the
    // windows mid-session would otherwise offer the overlay itself as the
    // candidate under the pointer — a full-screen rectangle that wins every
    // hit test, so the highlight covers the whole desktop and no real window
    // can be picked.  Match on the class and on our own scope name.
    const klass = String(w.resourceClass || "");
    if (klass === "vshot-qt-ui" || klass.indexOf("vshot") === 0) {
        continue;
    }
    const g = w.frameGeometry || w.geometry;
    if (!g || !(g.width > 0) || !(g.height > 0)) {
        continue;
    }
    console.info("$marker " + Math.round(g.x) + " " + Math.round(g.y)
        + " " + Math.round(g.width) + " " + Math.round(g.height));
}
EOF
fi

if [ "$tool" = gdbus ]; then
    run_limited gdbus call --session --dest org.kde.KWin --object-path /Scripting \
        --method org.kde.kwin.Scripting.loadScript "$tmp" "vshot$$" >/dev/null 2>&1 || exit 3
    run_limited gdbus call --session --dest org.kde.KWin --object-path /Scripting \
        --method org.kde.kwin.Scripting.start >/dev/null 2>&1 || exit 3
else
    run_limited dbus-send --session --print-reply=literal --dest=org.kde.KWin /Scripting \
        org.kde.kwin.Scripting.loadScript string:"$tmp" string:"vshot$$" >/dev/null 2>&1 || exit 3
    run_limited dbus-send --session --print-reply=literal --dest=org.kde.KWin /Scripting \
        org.kde.kwin.Scripting.start >/dev/null 2>&1 || exit 3
fi

# The active probe reports one window (or `null`); the list probe reports one
# line per window.  Both are collected the same way and the null lines dropped.
lines=""
if command -v journalctl >/dev/null 2>&1; then
    for _ in 1 2 3 4 5 6 7 8 9 10 11 12 13 14 15; do
        sleep 0.06
        if [ "$mode" = active ]; then
            lines="$(journalctl --user -n 200 --output=cat 2>/dev/null \
                | grep -aF "$marker" | tail -n 1)"
        else
            lines="$(journalctl --user -n 200 --output=cat 2>/dev/null \
                | grep -aF "$marker" | tail -n 40)"
        fi
        [ -n "$lines" ] && break
    done
fi

# Best-effort cleanup of the loaded script; output was already captured.
if [ "$tool" = gdbus ]; then
    run_limited gdbus call --session --dest org.kde.KWin --object-path /Scripting \
        --method org.kde.kwin.Scripting.unloadScript "vshot$$" >/dev/null 2>&1
else
    run_limited dbus-send --session --print-reply=literal --dest=org.kde.KWin /Scripting \
        org.kde.kwin.Scripting.unloadScript string:"vshot$$" >/dev/null 2>&1
fi

[ -n "$lines" ] || exit 4
payload="$(printf '%s\n' "$lines" | while IFS= read -r entry; do
    window="${entry#* }"
    [ "$window" = "null" ] && continue
    printf '%s\n' "$window"
done)"
[ -n "$payload" ] || exit 4
printf '%s\n' "$payload"
"##;

// ---------------------------------------------------------------------------
// Fields of a reply
// ---------------------------------------------------------------------------
/// A number that fits an `i32`.
pub open spec fn fits_i32(number: Option<i64>) -> Option<i32> {
    match number {
        Some(n) => if i32::MIN <= n <= i32::MAX {
            Some(n as i32)
        } else {
            None
        },
        None => None,
    }
}

/// A number that fits a `u32`.
pub open spec fn fits_u32(number: Option<u64>) -> Option<u32> {
    match number {
        Some(n) => if n <= u32::MAX {
            Some(n as u32)
        } else {
            None
        },
        None => None,
    }
}

fn to_i32(number: Option<i64>) -> (small: Option<i32>)
    ensures
        small == fits_i32(number),
{
    match number {
        Some(n) => if n >= i32::MIN as i64 && n <= i32::MAX as i64 {
            Some(n as i32)
        } else {
            None
        },
        None => None,
    }
}

fn to_u32(number: Option<u64>) -> (small: Option<u32>)
    ensures
        small == fits_u32(number),
{
    match number {
        Some(n) => if n <= u32::MAX as u64 {
            Some(n as u32)
        } else {
            None
        },
        None => None,
    }
}

/// The two numbers of a Hyprland position, or what is wrong with it.
pub open spec fn position_field(value: Tree, key: Seq<char>) -> core::result::Result<
    (i32, i32),
    Seq<char>,
> {
    match value.items_field(key) {
        Some(pair) => if pair.len() != 2 {
            Err("Hyprland field `"@ + key + "` is not a two-element array"@)
        } else {
            match (fits_i32(pair[0].signed()), fits_i32(pair[1].signed())) {
                (Some(x), Some(y)) => Ok((x, y)),
                _ => Err("Hyprland field `"@ + key + "` contains a non-integer"@),
            }
        },
        None => Err("Hyprland field `"@ + key + "` is not a two-element array"@),
    }
}

/// The two numbers of a Hyprland size, or what is wrong with it.
pub open spec fn size_field(value: Tree, key: Seq<char>) -> core::result::Result<
    (u32, u32),
    Seq<char>,
> {
    match value.items_field(key) {
        Some(pair) => if pair.len() != 2 {
            Err("Hyprland field `"@ + key + "` is not a two-element array"@)
        } else {
            match (fits_u32(pair[0].unsigned()), fits_u32(pair[1].unsigned())) {
                (Some(width), Some(height)) => Ok((width, height)),
                (None, _) => Err("Hyprland field `"@ + key + "` contains an invalid width"@),
                _ => Err("Hyprland field `"@ + key + "` contains an invalid height"@),
            }
        },
        None => Err("Hyprland field `"@ + key + "` is not a two-element array"@),
    }
}

fn pair_i32(value: &Json, key: &str) -> (pair: core::result::Result<(i32, i32), String>)
    ensures
        match pair {
            Ok(pair) => position_field(value@, key@) == Ok::<(i32, i32), Seq<char>>(pair),
            Err(why) => position_field(value@, key@) == Err::<(i32, i32), Seq<char>>(why@),
        },
{
    let pair = match value.items_field(key) {
        Some(pair) => pair,
        None => {
            return Err(concat3("Hyprland field `", key, "` is not a two-element array"));
        },
    };
    if pair.len() != 2 {
        return Err(concat3("Hyprland field `", key, "` is not a two-element array"));
    }
    assert(trees(pair@)[0] == pair@[0]@ && trees(pair@)[1] == pair@[1]@);
    match (to_i32(pair[0].as_i64()), to_i32(pair[1].as_i64())) {
        (Some(x), Some(y)) => Ok((x, y)),
        _ => Err(concat3("Hyprland field `", key, "` contains a non-integer")),
    }
}

fn pair_u32(value: &Json, key: &str) -> (pair: core::result::Result<(u32, u32), String>)
    ensures
        match pair {
            Ok(pair) => size_field(value@, key@) == Ok::<(u32, u32), Seq<char>>(pair),
            Err(why) => size_field(value@, key@) == Err::<(u32, u32), Seq<char>>(why@),
        },
{
    let pair = match value.items_field(key) {
        Some(pair) => pair,
        None => {
            return Err(concat3("Hyprland field `", key, "` is not a two-element array"));
        },
    };
    if pair.len() != 2 {
        return Err(concat3("Hyprland field `", key, "` is not a two-element array"));
    }
    assert(trees(pair@)[0] == pair@[0]@ && trees(pair@)[1] == pair@[1]@);
    match (to_u32(pair[0].as_u64()), to_u32(pair[1].as_u64())) {
        (Some(width), Some(height)) => Ok((width, height)),
        (None, _) => Err(concat3("Hyprland field `", key, "` contains an invalid width")),
        _ => Err(concat3("Hyprland field `", key, "` contains an invalid height")),
    }
}

pub open spec fn rect_of(x: i32, y: i32, width: u32, height: u32) -> Rect {
    Rect { origin: Point { x, y }, size: Size { width, height } }
}

// ---------------------------------------------------------------------------
// The active window
// ---------------------------------------------------------------------------
/// The geometry of Hyprland's active window, or what is wrong with it.
pub open spec fn hyprland_active(value: Tree) -> core::result::Result<Rect, Seq<char>> {
    match position_field(value, "at"@) {
        Ok((x, y)) => match size_field(value, "size"@) {
            Ok((width, height)) => if width == 0 || height == 0 {
                Err("Hyprland active window has an empty size"@)
            } else {
                Ok(rect_of(x, y, width, height))
            },
            Err(why) => Err(why),
        },
        Err(why) => Err(why),
    }
}

/// An active window as its geometry, or what the error says.
pub open spec fn active_outcome(
    window: core::result::Result<ActiveWindow, VshotError>,
    source: WindowSource,
    expected: core::result::Result<Rect, Seq<char>>,
) -> bool {
    match window {
        Ok(window) => expected == Ok::<Rect, Seq<char>>(window.geometry) && window.source == source,
        Err(error) => error matches VshotError::ActiveWindowUnavailable(text) && expected == Err::<
            Rect,
            Seq<char>,
        >(text@),
    }
}

/// Reads Hyprland's active window.
pub fn hyprland_active_window(value: &Json) -> (window: Result<ActiveWindow>)
    ensures
        active_outcome(window, WindowSource::Hyprland, hyprland_active(value@)),
{
    let (x, y): (i32, i32) = match pair_i32(value, "at") {
        Ok(at) => at,
        Err(why) => {
            return Err(VshotError::ActiveWindowUnavailable(why));
        },
    };
    let (width, height): (u32, u32) = match pair_u32(value, "size") {
        Ok(size) => size,
        Err(why) => {
            return Err(VshotError::ActiveWindowUnavailable(why));
        },
    };
    if width == 0 || height == 0 {
        return Err(
            VshotError::ActiveWindowUnavailable(
                "Hyprland active window has an empty size".to_owned(),
            ),
        );
    }
    Ok(
        ActiveWindow {
            geometry: Rect::new(x, y, width, height),
            source: WindowSource::Hyprland,
        },
    )
}

/// What `hyprctl activewindow -j` says.
pub open spec fn hyprland_active_reply(bytes: Seq<u8>) -> core::result::Result<Rect, Seq<char>> {
    match reading(bytes) {
        Ok(value) => hyprland_active(value),
        Err(why) => Err("invalid Hyprland JSON: "@ + why),
    }
}

/// Reads `hyprctl activewindow -j`.
pub fn parse_hyprland_active_window(bytes: &[u8]) -> (window: Result<ActiveWindow>)
    ensures
        active_outcome(window, WindowSource::Hyprland, hyprland_active_reply(bytes@)),
{
    match parse_json(bytes) {
        Ok(value) => hyprland_active_window(&value),
        Err(why) => Err(
            VshotError::ActiveWindowUnavailable(
                concat2("invalid Hyprland JSON: ", why.as_str()),
            ),
        ),
    }
}

/// What a node of a tree holds under a key is smaller than the node.
pub proof fn lemma_items_smaller(value: Tree, key: Seq<char>)
    ensures
        value.items_field(key) matches Some(items) ==> decreases_to!(value => items),
{
    if let Tree::Object(members) = value {
        lemma_member_smaller(members, key, 0);
        assert(decreases_to!(value => value->Object_0));
        if let Some(member) = value.field(key) {
            assert(decreases_to!(members => member));
            if let Tree::Array(items) = member {
                assert(decreases_to!(member => member->Array_0));
            }
        }
    }
}

proof fn lemma_member_smaller(members: Seq<(Seq<char>, Tree)>, key: Seq<char>, from: int)
    requires
        0 <= from,
    ensures
        member_from(members, key, from) matches Some(member) ==> decreases_to!(members => member),
    decreases members.len() - from,
{
    if from < members.len() {
        if members[from].0 == key {
            assert(decreases_to!(members => members[from]));
            assert(decreases_to!(members[from] => members[from].1));
        } else {
            lemma_member_smaller(members, key, from + 1);
        }
    }
}

/// The first focused node, depth first: the node itself, its tiled children,
/// its floating children.
pub open spec fn focused(value: Tree) -> Option<Tree>
    decreases value, 0int,
{
    if value.flag_field("focused"@) == Some(true) {
        Some(value)
    } else {
        proof {
            lemma_items_smaller(value, "nodes"@);
            lemma_items_smaller(value, "floating_nodes"@);
        }
        let tiled = match value.items_field("nodes"@) {
            Some(nodes) => focused_among(nodes, 0),
            None => None,
        };
        match tiled {
            Some(found) => Some(found),
            None => match value.items_field("floating_nodes"@) {
                Some(nodes) => focused_among(nodes, 0),
                None => None,
            },
        }
    }
}

/// The first focused node among these and their children, from `from` on.
pub open spec fn focused_among(nodes: Seq<Tree>, from: int) -> Option<Tree>
    decreases nodes, nodes.len() - from,
{
    if from < 0 || from >= nodes.len() {
        None
    } else {
        match focused(nodes[from]) {
            Some(found) => Some(found),
            None => focused_among(nodes, from + 1),
        }
    }
}

fn focused_node(value: &Json) -> (found: Option<&Json>)
    ensures
        match found {
            Some(node) => focused(value@) == Some(node@),
            None => focused(value@) is None,
        },
    decreases value, 0int,
{
    if let Some(true) = value.flag_field("focused") {
        return Some(value);
    }
    if let Some(nodes) = value.items_field("nodes") {
        if let Some(found) = focused_in_list(nodes) {
            return Some(found);
        }
    }
    match value.items_field("floating_nodes") {
        Some(nodes) => focused_in_list(nodes),
        None => None,
    }
}

fn focused_in_list(nodes: &Vec<Json>) -> (found: Option<&Json>)
    ensures
        match found {
            Some(node) => focused_among(trees(nodes@), 0) == Some(node@),
            None => focused_among(trees(nodes@), 0) is None,
        },
    decreases nodes, 1int,
{
    let ghost all = trees(nodes@);
    let mut i: usize = 0;
    while i < nodes.len()
        invariant
            all == trees(nodes@),
            i <= nodes@.len(),
            focused_among(all, 0) == focused_among(all, i as int),
        decreases nodes.len() - i,
    {
        proof {
            assert(all[i as int] == nodes@[i as int]@);
            assert(decreases_to!(nodes => nodes@));
            assert(decreases_to!(nodes@ => nodes@[i as int]));
        }
        if let Some(found) = focused_node(&nodes[i]) {
            return Some(found);
        }
        i = i + 1;
    }
    None
}

/// One integer of a Sway rectangle, or what is wrong with it.
pub open spec fn sway_i32(rect: Tree, key: Seq<char>) -> core::result::Result<i32, Seq<char>> {
    match fits_i32(rect.signed_field(key)) {
        Some(n) => Ok(n),
        None => Err("Sway rect field `"@ + key + "` is not an integer"@),
    }
}

pub open spec fn sway_u32(rect: Tree, key: Seq<char>) -> core::result::Result<u32, Seq<char>> {
    match fits_u32(rect.unsigned_field(key)) {
        Some(n) => Ok(n),
        None => Err("Sway rect field `"@ + key + "` is not a non-negative integer"@),
    }
}

fn json_i32(rect: &Json, key: &str) -> (number: core::result::Result<i32, String>)
    ensures
        match number {
            Ok(n) => sway_i32(rect@, key@) == Ok::<i32, Seq<char>>(n),
            Err(why) => sway_i32(rect@, key@) == Err::<i32, Seq<char>>(why@),
        },
{
    match to_i32(rect.signed_field(key)) {
        Some(n) => Ok(n),
        None => Err(concat3("Sway rect field `", key, "` is not an integer")),
    }
}

fn json_u32(rect: &Json, key: &str) -> (number: core::result::Result<u32, String>)
    ensures
        match number {
            Ok(n) => sway_u32(rect@, key@) == Ok::<u32, Seq<char>>(n),
            Err(why) => sway_u32(rect@, key@) == Err::<u32, Seq<char>>(why@),
        },
{
    match to_u32(rect.unsigned_field(key)) {
        Some(n) => Ok(n),
        None => Err(concat3("Sway rect field `", key, "` is not a non-negative integer")),
    }
}

/// A Sway rectangle, or what is wrong with it.
pub open spec fn sway_rect(rect: Tree) -> core::result::Result<Rect, Seq<char>> {
    match sway_i32(rect, "x"@) {
        Err(why) => Err(why),
        Ok(x) => match sway_i32(rect, "y"@) {
            Err(why) => Err(why),
            Ok(y) => match sway_u32(rect, "width"@) {
                Err(why) => Err(why),
                Ok(width) => match sway_u32(rect, "height"@) {
                    Err(why) => Err(why),
                    Ok(height) => Ok(rect_of(x, y, width, height)),
                },
            },
        },
    }
}

fn read_sway_rect(rect: &Json) -> (found: core::result::Result<Rect, String>)
    ensures
        match found {
            Ok(found) => sway_rect(rect@) == Ok::<Rect, Seq<char>>(found),
            Err(why) => sway_rect(rect@) == Err::<Rect, Seq<char>>(why@),
        },
{
    let x: i32 = match json_i32(rect, "x") {
        Ok(n) => n,
        Err(why) => {
            return Err(why);
        },
    };
    let y: i32 = match json_i32(rect, "y") {
        Ok(n) => n,
        Err(why) => {
            return Err(why);
        },
    };
    let width: u32 = match json_u32(rect, "width") {
        Ok(n) => n,
        Err(why) => {
            return Err(why);
        },
    };
    let height: u32 = match json_u32(rect, "height") {
        Ok(n) => n,
        Err(why) => {
            return Err(why);
        },
    };
    Ok(Rect::new(x, y, width, height))
}

/// The geometry of Sway's focused node, or what is wrong with it.
pub open spec fn sway_active(value: Tree) -> core::result::Result<Rect, Seq<char>> {
    match focused(value) {
        None => Err("Sway tree contains no focused node"@),
        Some(node) => match node.field("rect"@) {
            None => Err("focused Sway node has no rect"@),
            Some(rect) => match sway_rect(rect) {
                Err(why) => Err(why),
                Ok(rect) => if rect.size.width == 0 || rect.size.height == 0 {
                    Err("focused Sway node has an empty rect"@)
                } else {
                    Ok(rect)
                },
            },
        },
    }
}

/// Reads the focused node of Sway's tree.
pub fn sway_active_window(value: &Json) -> (window: Result<ActiveWindow>)
    ensures
        active_outcome(window, WindowSource::Sway, sway_active(value@)),
{
    let node = match focused_node(value) {
        Some(node) => node,
        None => {
            return Err(
                VshotError::ActiveWindowUnavailable(
                    "Sway tree contains no focused node".to_owned(),
                ),
            );
        },
    };
    let rect = match node.get("rect") {
        Some(rect) => rect,
        None => {
            return Err(
                VshotError::ActiveWindowUnavailable("focused Sway node has no rect".to_owned()),
            );
        },
    };
    match read_sway_rect(rect) {
        Ok(rect) => {
            if rect.size.width == 0 || rect.size.height == 0 {
                return Err(
                    VshotError::ActiveWindowUnavailable(
                        "focused Sway node has an empty rect".to_owned(),
                    ),
                );
            }
            Ok(ActiveWindow { geometry: rect, source: WindowSource::Sway })
        },
        Err(why) => Err(VshotError::ActiveWindowUnavailable(why)),
    }
}

/// What `swaymsg -t get_tree` says of the focused window.
pub open spec fn sway_active_reply(bytes: Seq<u8>) -> core::result::Result<Rect, Seq<char>> {
    match reading(bytes) {
        Ok(value) => sway_active(value),
        Err(why) => Err("invalid Sway JSON: "@ + why),
    }
}

/// Reads the focused window out of `swaymsg -t get_tree`.
pub fn parse_sway_active_window(bytes: &[u8]) -> (window: Result<ActiveWindow>)
    ensures
        active_outcome(window, WindowSource::Sway, sway_active_reply(bytes@)),
{
    match parse_json(bytes) {
        Ok(value) => sway_active_window(&value),
        Err(why) => Err(
            VshotError::ActiveWindowUnavailable(concat2("invalid Sway JSON: ", why.as_str())),
        ),
    }
}

pub open spec fn word_i32(word: Seq<char>) -> Option<int> {
    within_bounds(decimal_value(word, true), i32::MIN as int, i32::MAX as int)
}

pub open spec fn word_u32(word: Seq<char>) -> Option<int> {
    within_bounds(decimal_value(word, false), 0, u32::MAX as int)
}

/// The geometry `x y width height` writes, or what is wrong with it.
pub open spec fn kwin_geometry(text: Seq<char>) -> core::result::Result<Rect, Seq<char>> {
    let parts = words(text);
    if parts.len() != 4 {
        Err("KWin probe did not report x y width height"@)
    } else if word_i32(parts[0]) is None {
        Err("KWin probe coordinate `"@ + parts[0] + "` is not an integer"@)
    } else if word_i32(parts[1]) is None {
        Err("KWin probe coordinate `"@ + parts[1] + "` is not an integer"@)
    } else if word_u32(parts[2]) is None {
        Err("KWin probe dimension `"@ + parts[2] + "` is invalid"@)
    } else if word_u32(parts[3]) is None {
        Err("KWin probe dimension `"@ + parts[3] + "` is invalid"@)
    } else if word_u32(parts[2]) == Some(0int) || word_u32(parts[3]) == Some(0int) {
        Err("KWin probe reported an empty window size"@)
    } else {
        Ok(
            rect_of(
                word_i32(parts[0])->0 as i32,
                word_i32(parts[1])->0 as i32,
                word_u32(parts[2])->0 as u32,
                word_u32(parts[3])->0 as u32,
            ),
        )
    }
}

/// Reads the KWin probe's `x y width height`.
pub fn kwin_active_window(text: &str) -> (window: Result<ActiveWindow>)
    ensures
        active_outcome(window, WindowSource::KWin, kwin_geometry(text@)),
{
    let parts = split_whitespace(text);
    let ghost all = texts(parts@);
    if parts.len() != 4 {
        return Err(
            VshotError::ActiveWindowUnavailable(
                "KWin probe did not report x y width height".to_owned(),
            ),
        );
    }
    assert(all[0] == parts@[0]@ && all[1] == parts@[1]@ && all[2] == parts@[2]@ && all[3]
        == parts@[3]@);
    let x: i32 = match parse_i32(parts[0].as_str()) {
        Some(n) => n,
        None => {
            return Err(
                VshotError::ActiveWindowUnavailable(
                    concat3(
                        "KWin probe coordinate `",
                        parts[0].as_str(),
                        "` is not an integer",
                    ),
                ),
            );
        },
    };
    let y: i32 = match parse_i32(parts[1].as_str()) {
        Some(n) => n,
        None => {
            return Err(
                VshotError::ActiveWindowUnavailable(
                    concat3(
                        "KWin probe coordinate `",
                        parts[1].as_str(),
                        "` is not an integer",
                    ),
                ),
            );
        },
    };
    let width: u32 = match parse_u32(parts[2].as_str()) {
        Some(n) => n,
        None => {
            return Err(
                VshotError::ActiveWindowUnavailable(
                    concat3("KWin probe dimension `", parts[2].as_str(), "` is invalid"),
                ),
            );
        },
    };
    let height: u32 = match parse_u32(parts[3].as_str()) {
        Some(n) => n,
        None => {
            return Err(
                VshotError::ActiveWindowUnavailable(
                    concat3("KWin probe dimension `", parts[3].as_str(), "` is invalid"),
                ),
            );
        },
    };
    if width == 0 || height == 0 {
        return Err(
            VshotError::ActiveWindowUnavailable(
                "KWin probe reported an empty window size".to_owned(),
            ),
        );
    }
    Ok(ActiveWindow { geometry: Rect::new(x, y, width, height), source: WindowSource::KWin })
}

/// What the KWin probe says of the focused window.
pub open spec fn kwin_active_reply(bytes: Seq<u8>) -> core::result::Result<Rect, Seq<char>> {
    if valid_utf8(bytes) {
        kwin_geometry(decode_utf8(bytes))
    } else {
        Err("invalid KWin probe output: "@ + utf8_complaint(bytes))
    }
}

/// Reads the KWin probe's output: global logical pixels, the coordinates may
/// be negative.
pub fn parse_kwin_active_window(bytes: &[u8]) -> (window: Result<ActiveWindow>)
    ensures
        active_outcome(window, WindowSource::KWin, kwin_active_reply(bytes@)),
{
    match read_utf8(bytes) {
        Ok(text) => kwin_active_window(text.as_str()),
        Err(why) => Err(
            VshotError::ActiveWindowUnavailable(
                concat2("invalid KWin probe output: ", why.as_str()),
            ),
        ),
    }
}

// ---------------------------------------------------------------------------
// Labels
// ---------------------------------------------------------------------------
/// `class — title`, collapsing the cases where either side is missing or both
/// say the same thing.
pub open spec fn label_of(class: Seq<char>, title: Seq<char>) -> Seq<char> {
    let (class, title) = (trimmed(class), trimmed(title));
    if class.len() == 0 {
        title
    } else if title.len() == 0 || same_ignoring_case(class, title) {
        class
    } else {
        class + " — "@ + title
    }
}

/// `class — title`, collapsing the cases where either side is missing or both
/// say the same thing.
pub fn join_label(class: &str, title: &str) -> (label: String)
    ensures
        label@ == label_of(class@, title@),
{
    let class = trim(class);
    let title = trim(title);
    if class.as_str().is_empty() {
        title
    } else if title.as_str().is_empty() || eq_ignore_ascii_case(class.as_str(), title.as_str()) {
        class
    } else {
        concat3(class.as_str(), " — ", title.as_str())
    }
}

/// The text, or nothing.
pub open spec fn text_or_empty(text: Option<Seq<char>>) -> Seq<char> {
    match text {
        Some(text) => text,
        None => Seq::empty(),
    }
}

fn or_empty(text: Option<&str>) -> (whole: String)
    ensures
        whole@ == text_or_empty(
            match text {
                Some(text) => Some(text@),
                None => None,
            },
        ),
{
    match text {
        Some(text) => text.to_owned(),
        None => String::new(),
    }
}

// ---------------------------------------------------------------------------
// Hyprland's windows
// ---------------------------------------------------------------------------
/// How far outside its monitor a reported rectangle may reach before it is
/// treated as stale.
pub const MONITOR_SLACK: i32 = 4;

/// The monitor a client sits on: the workspaces it shows and its logical
/// bounds.
pub struct Shown {
    pub active: Seq<char>,
    pub special: Seq<char>,
    pub bounds: Rect,
}

/// The identity under one key of a workspace: a text that is not empty, or an
/// integer.
pub open spec fn identity_under(workspace: Tree, key: Seq<char>) -> Option<Seq<char>> {
    match workspace.field(key) {
        Some(value) => match value {
            Tree::Text(text) => if text.len() > 0 {
                Some(text)
            } else {
                None
            },
            _ => match value.signed() {
                Some(number) => Some(decimal_text(number as int)),
                None => None,
            },
        },
        None => None,
    }
}

/// Workspace identity across the shapes Hyprland reports.
pub open spec fn identity(workspace: Option<Tree>) -> Seq<char> {
    match workspace {
        None => Seq::empty(),
        Some(workspace) => match identity_under(workspace, "address"@) {
            Some(text) => text,
            None => match identity_under(workspace, "name"@) {
                Some(text) => text,
                None => match identity_under(workspace, "id"@) {
                    Some(text) => text,
                    None => Seq::empty(),
                },
            },
        },
    }
}

fn read_identity(workspace: &Json, key: &str) -> (found: Option<String>)
    ensures
        match found {
            Some(text) => identity_under(workspace@, key@) == Some(text@),
            None => identity_under(workspace@, key@) is None,
        },
{
    match workspace.get(key) {
        Some(value) => match value.as_str() {
            Some(text) => if !text.is_empty() {
                Some(text.to_owned())
            } else {
                None
            },
            None => match value.as_i64() {
                Some(number) => Some(format_i64(number)),
                None => None,
            },
        },
        None => None,
    }
}

fn workspace_identity(workspace: Option<&Json>) -> (name: String)
    ensures
        name@ == identity(
            match workspace {
                Some(workspace) => Some(workspace@),
                None => None,
            },
        ),
{
    let workspace = match workspace {
        Some(workspace) => workspace,
        None => {
            return String::new();
        },
    };
    if let Some(text) = read_identity(workspace, "address") {
        return text;
    }
    if let Some(text) = read_identity(workspace, "name") {
        return text;
    }
    if let Some(text) = read_identity(workspace, "id") {
        return text;
    }
    String::new()
}

/// The first monitor, from `from` on, with this id.
pub open spec fn monitor_with(monitors: Seq<Tree>, id: u64, from: int) -> Option<Tree>
    decreases monitors.len() - from,
{
    if from < 0 || from >= monitors.len() {
        None
    } else if monitors[from].unsigned_field("id"@) == Some(id) {
        Some(monitors[from])
    } else {
        monitor_with(monitors, id, from + 1)
    }
}

/// The scale to divide a monitor's size by.
pub open spec fn usable_scale(monitor: Tree) -> u64 {
    match monitor.double_field("scale"@) {
        Some(bits) => if is_positive(bits) {
            bits
        } else {
            ONE
        },
        None => ONE,
    }
}

/// What a monitor shows, unless its entry is unusable.
pub open spec fn shown_on(monitor: Tree) -> Option<Shown> {
    let scale = usable_scale(monitor);
    match (
        monitor.unsigned_field("width"@),
        monitor.unsigned_field("height"@),
        fits_i32(monitor.signed_field("x"@)),
        fits_i32(monitor.signed_field("y"@)),
    ) {
        (Some(width), Some(height), Some(x), Some(y)) => Some(
            Shown {
                active: identity(monitor.field("activeWorkspace"@)),
                special: identity(monitor.field("specialWorkspace"@)),
                bounds: rect_of(
                    x,
                    y,
                    at_most(scaled_length(width as int, scale), u32::MAX as int) as u32,
                    at_most(scaled_length(height as int, scale), u32::MAX as int) as u32,
                ),
            },
        ),
        _ => None,
    }
}

/// What the monitor that a client reports shows.
pub open spec fn shown_to(client: Tree, monitors: Seq<Tree>) -> Option<Shown> {
    match client.unsigned_field("monitor"@) {
        Some(id) => match monitor_with(monitors, id, 0) {
            Some(monitor) => shown_on(monitor),
            None => None,
        },
        None => None,
    }
}

impl Shown {
    /// The monitor shows the workspace the client is on.
    pub open spec fn shows(self, client: Tree) -> bool {
        let name = identity(client.field("workspace"@));
        name.len() > 0 && (name == self.active || name == self.special)
    }

    /// The rectangle lands on the monitor, give or take the slack.
    pub open spec fn holds(self, geometry: Rect) -> bool {
        &&& geometry.right_edge() <= i32::MAX
        &&& geometry.bottom_edge() <= i32::MAX
        &&& self.bounds.right_edge() <= i32::MAX
        &&& self.bounds.bottom_edge() <= i32::MAX
        &&& geometry.origin.x >= self.bounds.origin.x - MONITOR_SLACK
        &&& geometry.origin.y >= self.bounds.origin.y - MONITOR_SLACK
        &&& geometry.right_edge() <= self.bounds.right_edge() + MONITOR_SLACK
        &&& geometry.bottom_edge() <= self.bounds.bottom_edge() + MONITOR_SLACK
    }
}

/// The layer a client is drawn in: tiled, floating, pinned and floating.
pub open spec fn layer_of(client: Tree) -> int {
    if client.flag_field("floating"@) != Some(true) {
        0
    } else if client.flag_field("pinned"@) != Some(true) {
        1
    } else {
        2
    }
}

/// The window a client is, when it really is on screen: its monitor shows its
/// workspace (or it is pinned), and its rectangle lands on that monitor.
pub open spec fn client_window(client: Tree, monitors: Seq<Tree>) -> Option<(Rect, Seq<char>)> {
    match (
        shown_to(client, monitors),
        position_field(client, "at"@),
        size_field(client, "size"@),
    ) {
        (Some(shown), Ok((x, y)), Ok((width, height))) => {
            let geometry = rect_of(x, y, width, height);
            if width > 0 && height > 0 && (client.flag_field("pinned"@) == Some(true)
                || shown.shows(client)) && shown.holds(geometry) {
                Some(
                    (
                        geometry,
                        label_of(
                            text_or_empty(client.text_field("class"@)),
                            text_or_empty(client.text_field("title"@)),
                        ),
                    ),
                )
            } else {
                None
            }
        },
        _ => None,
    }
}

/// The windows of one layer among the first `n` clients.
pub open spec fn layer_windows(clients: Seq<Tree>, monitors: Seq<Tree>, layer: int, n: int) -> Seq<
    (Rect, Seq<char>),
>
    decreases n,
{
    if n <= 0 {
        Seq::empty()
    } else {
        let before = layer_windows(clients, monitors, layer, n - 1);
        match client_window(clients[n - 1], monitors) {
            Some(window) => if layer_of(clients[n - 1]) == layer {
                before.push(window)
            } else {
                before
            },
            None => before,
        }
    }
}

/// The windows on screen in stacking order: layer by layer, and inside a layer
/// in Hyprland's own order.
pub open spec fn hyprland_stack(clients: Seq<Tree>, monitors: Seq<Tree>) -> Seq<
    (Rect, Seq<char>),
> {
    let n = clients.len() as int;
    layer_windows(clients, monitors, 0, n) + layer_windows(clients, monitors, 1, n)
        + layer_windows(clients, monitors, 2, n)
}

/// The client is on screen at the rectangle: its monitor shows its workspace,
/// or it is pinned, and the rectangle lands on that monitor.
pub open spec fn on_screen(client: Tree, monitors: Seq<Tree>, geometry: Rect) -> bool {
    shown_to(client, monitors) matches Some(shown) && (client.flag_field("pinned"@) == Some(true)
        || shown.shows(client)) && shown.holds(geometry)
}

/// Every listed window is one of the clients, and that client is on screen at
/// the listed rectangle: what a hidden workspace holds is never listed.
pub proof fn law_a_listed_window_is_on_screen(clients: Seq<Tree>, monitors: Seq<Tree>, i: int)
    requires
        0 <= i < hyprland_stack(clients, monitors).len(),
    ensures
        exists|c: int|
            0 <= c < clients.len() && #[trigger] client_window(clients[c], monitors) == Some(
                hyprland_stack(clients, monitors)[i],
            ) && on_screen(clients[c], monitors, hyprland_stack(clients, monitors)[i].0),
{
    let n = clients.len() as int;
    let tiled = layer_windows(clients, monitors, 0, n);
    let floating = layer_windows(clients, monitors, 1, n);
    if i < tiled.len() {
        lemma_layer_holds_clients(clients, monitors, 0, n, i);
    } else if i < tiled.len() + floating.len() {
        lemma_layer_holds_clients(clients, monitors, 1, n, i - tiled.len());
    } else {
        lemma_layer_holds_clients(clients, monitors, 2, n, i - tiled.len() - floating.len());
    }
}

proof fn lemma_layer_holds_clients(
    clients: Seq<Tree>,
    monitors: Seq<Tree>,
    layer: int,
    n: int,
    i: int,
)
    requires
        0 <= n <= clients.len(),
        0 <= i < layer_windows(clients, monitors, layer, n).len(),
    ensures
        exists|c: int|
            0 <= c < n && #[trigger] client_window(clients[c], monitors) == Some(
                layer_windows(clients, monitors, layer, n)[i],
            ) && on_screen(
                clients[c],
                monitors,
                layer_windows(clients, monitors, layer, n)[i].0,
            ),
    decreases n,
{
    if n > 0 {
        if i < layer_windows(clients, monitors, layer, n - 1).len() {
            lemma_layer_holds_clients(clients, monitors, layer, n - 1, i);
        }
    }
}

struct ShownMonitor {
    active: String,
    special: String,
    bounds: Rect,
}

impl ShownMonitor {
    spec fn view(&self) -> Shown {
        Shown { active: self.active@, special: self.special@, bounds: self.bounds }
    }

    fn is_showing_client_workspace(&self, client: &Json) -> (showing: bool)
        ensures
            showing == self@.shows(client@),
    {
        let name = workspace_identity(client.get("workspace"));
        !name.as_str().is_empty() && (same_text(name.as_str(), self.active.as_str()) || same_text(
            name.as_str(),
            self.special.as_str(),
        ))
    }

    fn contains(&self, geometry: Rect) -> (inside: bool)
        ensures
            inside == self@.holds(geometry),
    {
        match (geometry.right(), geometry.bottom(), self.bounds.right(), self.bounds.bottom()) {
            (Ok(right), Ok(bottom), Ok(bounds_right), Ok(bounds_bottom)) => {
                let slack: i64 = MONITOR_SLACK as i64;
                geometry.left() as i64 >= self.bounds.left() as i64 - slack && geometry.top() as i64
                    >= self.bounds.top() as i64 - slack && right as i64 <= bounds_right as i64
                    + slack && bottom as i64 <= bounds_bottom as i64 + slack
            },
            _ => false,
        }
    }
}

fn read_shown(monitor: &Json) -> (shown: Option<ShownMonitor>)
    ensures
        match shown {
            Some(shown) => shown_on(monitor@) == Some(shown@),
            None => shown_on(monitor@) is None,
        },
{
    let scale: u64 = match monitor.double_field("scale") {
        Some(bits) => if bits > 0 && bits <= crate::binary64::INFINITY {
            bits
        } else {
            ONE
        },
        None => ONE,
    };
    match (
        monitor.unsigned_field("width"),
        monitor.unsigned_field("height"),
        to_i32(monitor.signed_field("x")),
        to_i32(monitor.signed_field("y")),
    ) {
        (Some(width), Some(height), Some(x), Some(y)) => {
            let width: u64 = scale_length(width, scale);
            let height: u64 = scale_length(height, scale);
            Some(
                ShownMonitor {
                    active: workspace_identity(monitor.get("activeWorkspace")),
                    special: workspace_identity(monitor.get("specialWorkspace")),
                    bounds: Rect::new(x, y, clip_u32(width), clip_u32(height)),
                },
            )
        },
        _ => None,
    }
}

fn clip_u32(n: u64) -> (small: u32)
    ensures
        small == at_most(n as int, u32::MAX as int),
{
    if n <= u32::MAX as u64 {
        n as u32
    } else {
        u32::MAX
    }
}

fn shown_workspaces(client: &Json, monitors: &Vec<Json>) -> (shown: Option<ShownMonitor>)
    ensures
        match shown {
            Some(shown) => shown_to(client@, trees(monitors@)) == Some(shown@),
            None => shown_to(client@, trees(monitors@)) is None,
        },
{
    let id: u64 = match client.unsigned_field("monitor") {
        Some(id) => id,
        None => {
            return None;
        },
    };
    let ghost all = trees(monitors@);
    let mut i: usize = 0;
    while i < monitors.len()
        invariant
            all == trees(monitors@),
            client@.unsigned_field("monitor"@) == Some(id),
            i <= monitors@.len(),
            monitor_with(all, id, 0) == monitor_with(all, id, i as int),
        decreases monitors.len() - i,
    {
        assert(all[i as int] == monitors@[i as int]@);
        if let Some(found) = monitors[i].unsigned_field("id") {
            if found == id {
                return read_shown(&monitors[i]);
            }
        }
        i = i + 1;
    }
    None
}

fn read_client(client: &Json, monitors: &Vec<Json>) -> (window: Option<WindowCandidate>)
    ensures
        match window {
            Some(window) => client_window(client@, trees(monitors@)) == Some(window@),
            None => client_window(client@, trees(monitors@)) is None,
        },
{
    match (shown_workspaces(client, monitors), pair_i32(client, "at"), pair_u32(client, "size")) {
        (Some(shown), Ok((x, y)), Ok((width, height))) => {
            if width == 0 || height == 0 {
                return None;
            }
            let geometry = Rect::new(x, y, width, height);
            let pinned = match client.flag_field("pinned") {
                Some(pinned) => pinned,
                None => false,
            };
            if !pinned && !shown.is_showing_client_workspace(client) {
                return None;
            }
            if !shown.contains(geometry) {
                return None;
            }
            let class = or_empty(client.text_field("class"));
            let title = or_empty(client.text_field("title"));
            let label = join_label(class.as_str(), title.as_str());
            Some(WindowCandidate { geometry, label })
        },
        _ => None,
    }
}

/// The windows that are really on screen, in stacking order.
///
/// Hyprland lists clients from every workspace, and those on hidden ones keep a
/// stale position.  So a client's workspace must be one its monitor shows, and
/// its rectangle must land on that monitor.
pub fn hyprland_windows(clients: &Vec<Json>, monitors: &Vec<Json>) -> (windows: Vec<WindowCandidate>)
    ensures
        listed(windows@) == hyprland_stack(trees(clients@), trees(monitors@)),
{
    let ghost (all, screens) = (trees(clients@), trees(monitors@));
    let mut tiled: Vec<WindowCandidate> = Vec::new();
    let mut floating: Vec<WindowCandidate> = Vec::new();
    let mut pinned: Vec<WindowCandidate> = Vec::new();
    let mut i: usize = 0;
    assert(listed(tiled@) =~= Seq::empty() && listed(floating@) =~= Seq::empty() && listed(pinned@)
        =~= Seq::empty());
    while i < clients.len()
        invariant
            all == trees(clients@),
            screens == trees(monitors@),
            i <= clients@.len(),
            listed(tiled@) == layer_windows(all, screens, 0, i as int),
            listed(floating@) == layer_windows(all, screens, 1, i as int),
            listed(pinned@) == layer_windows(all, screens, 2, i as int),
        decreases clients.len() - i,
    {
        assert(all[i as int] == clients@[i as int]@);
        let client = &clients[i];
        if let Some(window) = read_client(client, monitors) {
            let floats = match client.flag_field("floating") {
                Some(floats) => floats,
                None => false,
            };
            let pins = match client.flag_field("pinned") {
                Some(pins) => pins,
                None => false,
            };
            if !floats {
                let ghost held = tiled@;
                tiled.push(window);
                assert(listed(tiled@) =~= listed(held).push(window@));
            } else if !pins {
                let ghost held = floating@;
                floating.push(window);
                assert(listed(floating@) =~= listed(held).push(window@));
            } else {
                let ghost held = pinned@;
                pinned.push(window);
                assert(listed(pinned@) =~= listed(held).push(window@));
            }
        }
        i = i + 1;
    }
    let ghost (a, b, c) = (listed(tiled@), listed(floating@), listed(pinned@));
    tiled.append(&mut floating);
    tiled.append(&mut pinned);
    assert(listed(tiled@) =~= a + b + c);
    tiled
}

/// What `hyprctl clients -j` and `hyprctl monitors -j` say of the windows.
pub open spec fn hyprland_windows_reply(
    clients: Seq<u8>,
    monitors: Seq<u8>,
) -> core::result::Result<Seq<(Rect, Seq<char>)>, Seq<char>> {
    match reading(clients) {
        Err(why) => Err("invalid Hyprland client JSON: "@ + why),
        Ok(clients) => match reading(monitors) {
            Err(why) => Err("invalid Hyprland monitor JSON: "@ + why),
            Ok(monitors) => match clients.items() {
                None => Err("Hyprland client list is not an array"@),
                Some(clients) => match monitors.items() {
                    None => Err("Hyprland monitor list is not an array"@),
                    Some(monitors) => Ok(hyprland_stack(clients, monitors)),
                },
            },
        },
    }
}

/// A window list as geometries and labels, or what the error says.
pub open spec fn list_outcome(
    windows: core::result::Result<Vec<WindowCandidate>, VshotError>,
    expected: core::result::Result<Seq<(Rect, Seq<char>)>, Seq<char>>,
) -> bool {
    match windows {
        Ok(windows) => expected == Ok::<Seq<(Rect, Seq<char>)>, Seq<char>>(listed(windows@)),
        Err(error) => error matches VshotError::WindowPickUnavailable(text) && expected == Err::<
            Seq<(Rect, Seq<char>)>,
            Seq<char>,
        >(text@),
    }
}

/// Reads `hyprctl clients -j` together with `hyprctl monitors -j`.
pub fn parse_hyprland_windows(clients: &[u8], monitors: &[u8]) -> (windows: Result<
    Vec<WindowCandidate>,
>)
    ensures
        list_outcome(windows, hyprland_windows_reply(clients@, monitors@)),
{
    let clients = match parse_json(clients) {
        Ok(clients) => clients,
        Err(why) => {
            return Err(
                VshotError::WindowPickUnavailable(
                    concat2("invalid Hyprland client JSON: ", why.as_str()),
                ),
            );
        },
    };
    let monitors = match parse_json(monitors) {
        Ok(monitors) => monitors,
        Err(why) => {
            return Err(
                VshotError::WindowPickUnavailable(
                    concat2("invalid Hyprland monitor JSON: ", why.as_str()),
                ),
            );
        },
    };
    match (clients.as_array(), monitors.as_array()) {
        (Some(clients), Some(monitors)) => Ok(hyprland_windows(clients, monitors)),
        (None, _) => Err(
            VshotError::WindowPickUnavailable("Hyprland client list is not an array".to_owned()),
        ),
        _ => Err(
            VshotError::WindowPickUnavailable("Hyprland monitor list is not an array".to_owned()),
        ),
    }
}

// ---------------------------------------------------------------------------
// Sway's windows
// ---------------------------------------------------------------------------
/// A window of Sway's tree, and whether it floats.
pub struct Leaf {
    pub floating: bool,
    pub rect: Rect,
    pub label: Seq<char>,
}

/// The children of a node: the tiled ones, and then the floating ones.
pub open spec fn children_of(node: Tree, key: Seq<char>) -> Seq<Tree> {
    match node.items_field(key) {
        Some(nodes) => nodes,
        None => Seq::empty(),
    }
}

/// A hidden workspace hides its whole subtree.
pub open spec fn hides(node: Tree) -> bool {
    node.text_field("type"@) == Some("workspace"@) && node.flag_field("visible"@) == Some(false)
}

/// The class a Sway leaf is labelled with.
pub open spec fn sway_class(node: Tree) -> Seq<char> {
    match node.text_field("app_id"@) {
        Some(text) => if text.len() > 0 {
            text
        } else {
            x11_class(node)
        },
        None => x11_class(node),
    }
}

pub open spec fn x11_class(node: Tree) -> Seq<char> {
    match node.field("window_properties"@) {
        Some(properties) => text_or_empty(properties.text_field("class"@)),
        None => Seq::empty(),
    }
}

/// The window a leaf of the tree is.
pub open spec fn leaf_of(node: Tree, floating: bool) -> Seq<Leaf> {
    match node.field("rect"@) {
        Some(rect) => match sway_rect(rect) {
            Ok(rect) => if rect.size.width > 0 && rect.size.height > 0 {
                seq![
                    Leaf {
                        floating,
                        rect,
                        label: label_of(sway_class(node), text_or_empty(node.text_field("name"@))),
                    },
                ]
            } else {
                Seq::empty()
            },
            Err(_) => Seq::empty(),
        },
        None => Seq::empty(),
    }
}

/// The windows of a subtree, in the order of the tree.  Everything below
/// `floating_nodes` floats.
pub open spec fn leaves(node: Tree, visible: bool, floating: bool) -> Seq<Leaf>
    decreases node, 0int,
{
    let seen = visible && !hides(node);
    let tiled = children_of(node, "nodes"@);
    let raised = children_of(node, "floating_nodes"@);
    if tiled.len() == 0 && raised.len() == 0 {
        if seen {
            leaf_of(node, floating)
        } else {
            Seq::empty()
        }
    } else {
        proof {
            lemma_items_smaller(node, "nodes"@);
            lemma_items_smaller(node, "floating_nodes"@);
        }
        let first = if tiled.len() > 0 {
            leaves_among(tiled, seen, floating, tiled.len() as int)
        } else {
            Seq::empty()
        };
        let second = if raised.len() > 0 {
            leaves_among(raised, seen, true, raised.len() as int)
        } else {
            Seq::empty()
        };
        first + second
    }
}

/// The windows of the first `n` subtrees.
pub open spec fn leaves_among(nodes: Seq<Tree>, visible: bool, floating: bool, n: int) -> Seq<Leaf>
    decreases nodes, n,
{
    if n <= 0 || n > nodes.len() {
        Seq::empty()
    } else {
        leaves_among(nodes, visible, floating, n - 1) + leaves(nodes[n - 1], visible, floating)
    }
}

/// The leaves that float (or do not), as windows.
pub open spec fn leaf_windows(all: Seq<Leaf>, floating: bool) -> Seq<(Rect, Seq<char>)>
    decreases all.len(),
{
    if all.len() == 0 {
        Seq::empty()
    } else {
        let before = leaf_windows(all.drop_last(), floating);
        if all.last().floating == floating {
            before.push((all.last().rect, all.last().label))
        } else {
            before
        }
    }
}

proof fn lemma_leaf_windows_concat(a: Seq<Leaf>, b: Seq<Leaf>, floating: bool)
    ensures
        leaf_windows(a + b, floating) == leaf_windows(a, floating) + leaf_windows(b, floating),
    decreases b.len(),
{
    if b.len() == 0 {
        assert(a + b =~= a);
        assert(leaf_windows(a, floating) + leaf_windows(b, floating) =~= leaf_windows(a, floating));
    } else {
        lemma_leaf_windows_concat(a, b.drop_last(), floating);
        assert((a + b).drop_last() =~= a + b.drop_last());
        assert((a + b).last() == b.last());
        assert(leaf_windows(a + b, floating) =~= leaf_windows(a, floating) + leaf_windows(
            b,
            floating,
        ));
    }
}

/// The windows of Sway's tree in stacking order: floating containers are drawn
/// above the tiling tree, so they come last.
pub open spec fn sway_stack(tree: Tree) -> Seq<(Rect, Seq<char>)> {
    let all = leaves(tree, true, false);
    leaf_windows(all, false) + leaf_windows(all, true)
}

fn read_leaf(node: &Json) -> (window: Option<WindowCandidate>)
    ensures
        forall|floating: bool|
            match window {
                Some(window) => #[trigger] leaf_of(node@, floating) == seq![
                    Leaf { floating, rect: window.geometry, label: window.label@ },
                ],
                None => leaf_of(node@, floating) == Seq::<Leaf>::empty(),
            },
{
    let rect = match node.get("rect") {
        Some(rect) => rect,
        None => {
            return None;
        },
    };
    match read_sway_rect(rect) {
        Ok(geometry) => {
            if geometry.size.width == 0 || geometry.size.height == 0 {
                return None;
            }
            let class = read_sway_class(node);
            let name = or_empty(node.text_field("name"));
            let label = join_label(class.as_str(), name.as_str());
            Some(WindowCandidate { geometry, label })
        },
        Err(_) => None,
    }
}

fn read_sway_class(node: &Json) -> (class: String)
    ensures
        class@ == sway_class(node@),
{
    if let Some(text) = node.text_field("app_id") {
        if !text.is_empty() {
            return text.to_owned();
        }
    }
    match node.get("window_properties") {
        Some(properties) => or_empty(properties.text_field("class")),
        None => String::new(),
    }
}

/// Adds the windows of a subtree to the lists.
fn collect_sway_windows(
    node: &Json,
    visible: bool,
    is_floating: bool,
    tiled: &mut Vec<WindowCandidate>,
    floating: &mut Vec<WindowCandidate>,
)
    ensures
        ({
            let all = leaves(node@, visible, is_floating);
            &&& listed(final(tiled)@) == listed(old(tiled)@) + leaf_windows(all, false)
            &&& listed(final(floating)@) == listed(old(floating)@) + leaf_windows(all, true)
        }),
    decreases node, 0int,
{
    let ghost (tiled0, floating0) = (listed(tiled@), listed(floating@));
    let ghost all = leaves(node@, visible, is_floating);
    let is_workspace = match node.text_field("type") {
        Some(kind) => same_text(kind, "workspace"),
        None => false,
    };
    let is_hidden = match node.flag_field("visible") {
        Some(shown) => !shown,
        None => false,
    };
    let seen = visible && !(is_workspace && is_hidden);
    let nodes = node.items_field("nodes");
    let raised = node.items_field("floating_nodes");
    let tiled_count: usize = match nodes {
        Some(nodes) => nodes.len(),
        None => 0,
    };
    let raised_count: usize = match raised {
        Some(raised) => raised.len(),
        None => 0,
    };
    if tiled_count == 0 && raised_count == 0 {
        if seen {
            if let Some(window) = read_leaf(node) {
                let ghost leaf = Leaf {
                    floating: is_floating,
                    rect: window.geometry,
                    label: window.label@,
                };
                proof {
                    assert(leaf_of(node@, is_floating) == seq![leaf]);
                    lemma_single_leaf(leaf);
                }
                if is_floating {
                    let ghost held = floating@;
                    floating.push(window);
                    assert(listed(floating@) =~= listed(held).push(window@));
                    assert(listed(floating@) =~= floating0 + seq![window@]);
                    assert(listed(tiled@) =~= tiled0 + Seq::<(Rect, Seq<char>)>::empty());
                } else {
                    let ghost held = tiled@;
                    tiled.push(window);
                    assert(listed(tiled@) =~= listed(held).push(window@));
                    assert(listed(tiled@) =~= tiled0 + seq![window@]);
                    assert(listed(floating@) =~= floating0 + Seq::<(Rect, Seq<char>)>::empty());
                }
                return ;
            }
            assert(leaf_of(node@, is_floating) == Seq::<Leaf>::empty());
        }
        assert(all == Seq::<Leaf>::empty());
        assert(listed(tiled@) =~= tiled0 + Seq::<(Rect, Seq<char>)>::empty());
        assert(listed(floating@) =~= floating0 + Seq::<(Rect, Seq<char>)>::empty());
        return ;
    }
    let ghost first = if tiled_count > 0 {
        leaves_among(
            children_of(node@, "nodes"@),
            seen,
            is_floating,
            children_of(node@, "nodes"@).len() as int,
        )
    } else {
        Seq::empty()
    };
    let ghost second = if raised_count > 0 {
        leaves_among(
            children_of(node@, "floating_nodes"@),
            seen,
            true,
            children_of(node@, "floating_nodes"@).len() as int,
        )
    } else {
        Seq::empty()
    };
    assert(all == first + second);
    if let Some(nodes) = nodes {
        if nodes.len() > 0 {
            collect_sway_list(nodes, seen, is_floating, tiled, floating);
        }
    }
    proof {
        assert(listed(tiled@) =~= tiled0 + leaf_windows(first, false));
        assert(listed(floating@) =~= floating0 + leaf_windows(first, true));
    }
    if let Some(raised) = raised {
        if raised.len() > 0 {
            collect_sway_list(raised, seen, true, tiled, floating);
        }
    }
    proof {
        lemma_leaf_windows_concat(first, second, false);
        lemma_leaf_windows_concat(first, second, true);
        assert(listed(tiled@) =~= tiled0 + leaf_windows(all, false));
        assert(listed(floating@) =~= floating0 + leaf_windows(all, true));
    }
}

proof fn lemma_single_leaf(leaf: Leaf)
    ensures
        leaf_windows(seq![leaf], leaf.floating) == seq![(leaf.rect, leaf.label)],
        leaf_windows(seq![leaf], !leaf.floating) == Seq::<(Rect, Seq<char>)>::empty(),
{
    let one = seq![leaf];
    assert(one.drop_last() =~= Seq::<Leaf>::empty());
    assert(leaf_windows(one.drop_last(), leaf.floating) =~= Seq::empty());
    assert(leaf_windows(one.drop_last(), !leaf.floating) =~= Seq::empty());
    assert(leaf_windows(one, leaf.floating) =~= seq![(leaf.rect, leaf.label)]);
}

/// Adds the windows of several subtrees to the lists.
fn collect_sway_list(
    nodes: &Vec<Json>,
    visible: bool,
    is_floating: bool,
    tiled: &mut Vec<WindowCandidate>,
    floating: &mut Vec<WindowCandidate>,
)
    ensures
        ({
            let all = leaves_among(trees(nodes@), visible, is_floating, nodes@.len() as int);
            &&& listed(final(tiled)@) == listed(old(tiled)@) + leaf_windows(all, false)
            &&& listed(final(floating)@) == listed(old(floating)@) + leaf_windows(all, true)
        }),
    decreases nodes, 1int,
{
    let ghost (tiled0, floating0) = (listed(tiled@), listed(floating@));
    let ghost all = trees(nodes@);
    let mut i: usize = 0;
    proof {
        assert(leaves_among(all, visible, is_floating, 0) =~= Seq::empty());
        assert(listed(tiled@) =~= tiled0 + leaf_windows(Seq::empty(), false));
        assert(listed(floating@) =~= floating0 + leaf_windows(Seq::empty(), true));
    }
    while i < nodes.len()
        invariant
            all == trees(nodes@),
            i <= nodes@.len(),
            listed(tiled@) == tiled0 + leaf_windows(
                leaves_among(all, visible, is_floating, i as int),
                false,
            ),
            listed(floating@) == floating0 + leaf_windows(
                leaves_among(all, visible, is_floating, i as int),
                true,
            ),
        decreases nodes.len() - i,
    {
        let ghost before = leaves_among(all, visible, is_floating, i as int);
        let ghost own = leaves(nodes@[i as int]@, visible, is_floating);
        proof {
            assert(all[i as int] == nodes@[i as int]@);
            assert(decreases_to!(nodes => nodes@));
            assert(decreases_to!(nodes@ => nodes@[i as int]));
            lemma_leaf_windows_concat(before, own, false);
            lemma_leaf_windows_concat(before, own, true);
        }
        collect_sway_windows(&nodes[i], visible, is_floating, tiled, floating);
        proof {
            assert(listed(tiled@) =~= tiled0 + (leaf_windows(before, false) + leaf_windows(
                own,
                false,
            )));
            assert(listed(floating@) =~= floating0 + (leaf_windows(before, true) + leaf_windows(
                own,
                true,
            )));
        }
        i = i + 1;
    }
}

/// The windows of Sway's tree in stacking order.
pub fn sway_windows(tree: &Json) -> (windows: Vec<WindowCandidate>)
    ensures
        listed(windows@) == sway_stack(tree@),
{
    let mut tiled: Vec<WindowCandidate> = Vec::new();
    let mut floating: Vec<WindowCandidate> = Vec::new();
    collect_sway_windows(tree, true, false, &mut tiled, &mut floating);
    let ghost (a, b) = (listed(tiled@), listed(floating@));
    tiled.append(&mut floating);
    proof {
        assert(listed(tiled@) =~= a + b);
        assert(a + b =~= sway_stack(tree@));
    }
    tiled
}

/// What `swaymsg -t get_tree` says of the windows.
pub open spec fn sway_windows_reply(bytes: Seq<u8>) -> core::result::Result<
    Seq<(Rect, Seq<char>)>,
    Seq<char>,
> {
    match reading(bytes) {
        Ok(tree) => Ok(sway_stack(tree)),
        Err(why) => Err("invalid Sway tree JSON: "@ + why),
    }
}

/// Reads the windows out of `swaymsg -t get_tree`: the leaves of the tree, but
/// for those on hidden workspaces.
pub fn parse_sway_windows(bytes: &[u8]) -> (windows: Result<Vec<WindowCandidate>>)
    ensures
        list_outcome(windows, sway_windows_reply(bytes@)),
{
    match parse_json(bytes) {
        Ok(tree) => Ok(sway_windows(&tree)),
        Err(why) => Err(
            VshotError::WindowPickUnavailable(concat2("invalid Sway tree JSON: ", why.as_str())),
        ),
    }
}

// ---------------------------------------------------------------------------
// KWin's windows
// ---------------------------------------------------------------------------
/// The windows the first `n` lines describe; a line that describes none is
/// passed over.
pub open spec fn line_windows(list: Seq<Seq<char>>, n: int) -> Seq<(Rect, Seq<char>)>
    decreases n,
{
    if n <= 0 {
        Seq::empty()
    } else {
        let before = line_windows(list, n - 1);
        let line = trimmed(list[n - 1]);
        if line.len() == 0 {
            before
        } else {
            match kwin_geometry(line) {
                Ok(rect) => before.push((rect, Seq::empty())),
                Err(_) => before,
            }
        }
    }
}

/// The windows the KWin probe lists, unlabelled, in stacking order.
pub fn kwin_windows(text: &str) -> (windows: Vec<WindowCandidate>)
    ensures
        listed(windows@) == line_windows(lines(text@), lines(text@).len() as int),
{
    let list = split_lines(text);
    let ghost all = texts(list@);
    let mut windows: Vec<WindowCandidate> = Vec::new();
    let mut i: usize = 0;
    assert(listed(windows@) =~= Seq::empty());
    while i < list.len()
        invariant
            all == texts(list@),
            i <= list@.len(),
            listed(windows@) == line_windows(all, i as int),
        decreases list.len() - i,
    {
        assert(all[i as int] == list@[i as int]@);
        let line = trim(list[i].as_str());
        if !line.as_str().is_empty() {
            if let Ok(window) = kwin_active_window(line.as_str()) {
                let ghost held = windows@;
                let candidate = WindowCandidate {
                    geometry: window.geometry,
                    label: String::new(),
                };
                windows.push(candidate);
                proof {
                    assert(candidate@.1 =~= Seq::empty());
                    assert(listed(windows@) =~= listed(held).push(candidate@));
                }
            }
        }
        i = i + 1;
    }
    windows
}

/// What the KWin probe says of the windows.
pub open spec fn kwin_windows_reply(bytes: Seq<u8>) -> core::result::Result<
    Seq<(Rect, Seq<char>)>,
    Seq<char>,
> {
    if valid_utf8(bytes) {
        let list = lines(decode_utf8(bytes));
        Ok(line_windows(list, list.len() as int))
    } else {
        Err("invalid KWin list output: "@ + utf8_complaint(bytes))
    }
}

/// Reads the KWin probe's list: one `x y width height` line per window.
pub fn parse_kwin_windows(bytes: &[u8]) -> (windows: Result<Vec<WindowCandidate>>)
    ensures
        list_outcome(windows, kwin_windows_reply(bytes@)),
{
    match read_utf8(bytes) {
        Ok(text) => Ok(kwin_windows(text.as_str())),
        Err(why) => Err(
            VshotError::WindowPickUnavailable(concat2("invalid KWin list output: ", why.as_str())),
        ),
    }
}

// ---------------------------------------------------------------------------
// The window under a point
// ---------------------------------------------------------------------------
/// The last rectangle among the first `n` that covers the point.
pub open spec fn topmost(rects: Seq<Rect>, point: Point, n: int) -> Option<Rect>
    decreases n,
{
    if n <= 0 {
        None
    } else if rects[n - 1].covers(point.x as int, point.y as int) {
        Some(rects[n - 1])
    } else {
        topmost(rects, point, n - 1)
    }
}

/// The last rectangle that contains the point.  Window lists are ordered
/// bottom to top, so the last hit is the one on top.
pub fn topmost_containing(rects: &Vec<Rect>, point: Point) -> (rect: Option<Rect>)
    ensures
        rect == topmost(rects@, point, rects@.len() as int),
{
    let mut n: usize = rects.len();
    while n > 0
        invariant
            n <= rects@.len(),
            topmost(rects@, point, rects@.len() as int) == topmost(rects@, point, n as int),
        decreases n,
    {
        if rects[n - 1].contains(point) {
            return Some(rects[n - 1]);
        }
        n = n - 1;
    }
    None
}

/// What is on top covers the point, and nothing above it does.
pub proof fn law_topmost_is_the_last_hit(rects: Seq<Rect>, point: Point, n: int, i: int)
    requires
        0 <= n <= rects.len(),
        0 <= i < n,
        rects[i].covers(point.x as int, point.y as int),
    ensures
        exists|k: int|
            i <= k < n && topmost(rects, point, n) == Some(#[trigger] rects[k])
                && rects[k].covers(point.x as int, point.y as int) && forall|above: int|
                k < above < n ==> !(#[trigger] rects[above]).covers(point.x as int, point.y as int),
    decreases n,
{
    if rects[n - 1].covers(point.x as int, point.y as int) {
        assert(topmost(rects, point, n) == Some(rects[n - 1]));
    } else {
        law_topmost_is_the_last_hit(rects, point, n - 1, i);
        let k = choose|k: int|
            i <= k < n - 1 && topmost(rects, point, n - 1) == Some(#[trigger] rects[k])
                && rects[k].covers(point.x as int, point.y as int) && forall|above: int|
                k < above < n - 1 ==> !(#[trigger] rects[above]).covers(
                    point.x as int,
                    point.y as int,
                );
        assert(topmost(rects, point, n) == Some(rects[k]));
    }
}

/// Floating windows of a Sway tree lie above every tiled one, and Hyprland's
/// layers above one another: what a higher layer shows under a point hides what
/// a lower one does.
pub proof fn law_a_higher_layer_hides_a_lower_one(
    below: Seq<Rect>,
    above: Seq<Rect>,
    point: Point,
)
    ensures
        topmost(above, point, above.len() as int) is Some ==> topmost(
            below + above,
            point,
            (below + above).len() as int,
        ) == topmost(above, point, above.len() as int),
        topmost(above, point, above.len() as int) is None ==> topmost(
            below + above,
            point,
            (below + above).len() as int,
        ) == topmost(below, point, below.len() as int),
{
    lemma_topmost_concat(below, above, point, above.len() as int);
}

proof fn lemma_topmost_concat(below: Seq<Rect>, above: Seq<Rect>, point: Point, n: int)
    requires
        0 <= n <= above.len(),
    ensures
        topmost(above, point, n) is Some ==> topmost(below + above, point, below.len() + n)
            == topmost(above, point, n),
        topmost(above, point, n) is None ==> topmost(below + above, point, below.len() + n)
            == topmost(below, point, below.len() as int),
    decreases n,
{
    if n > 0 {
        lemma_topmost_concat(below, above, point, n - 1);
        assert((below + above)[below.len() + n - 1] == above[n - 1]);
    } else {
        lemma_topmost_prefix(below, above, point, below.len() as int);
    }
}

proof fn lemma_topmost_prefix(below: Seq<Rect>, above: Seq<Rect>, point: Point, n: int)
    requires
        0 <= n <= below.len(),
    ensures
        topmost(below + above, point, n) == topmost(below, point, n),
    decreases n,
{
    if n > 0 {
        assert((below + above)[n - 1] == below[n - 1]);
        lemma_topmost_prefix(below, above, point, n - 1);
    }
}

// ---------------------------------------------------------------------------
// Asking the compositors
// ---------------------------------------------------------------------------
/// A compositor that can be asked about windows.
#[derive(Clone, Copy, Debug, PartialEq, Eq, Structural)]
pub enum Compositor {
    Hyprland,
    Sway,
    KWin,
}

/// The compositors in the order they are asked.
pub open spec fn all_compositors() -> Seq<Compositor> {
    seq![Compositor::Hyprland, Compositor::Sway, Compositor::KWin]
}

/// The first `n` compositors that are worth asking in a session: only its own,
/// because a second one running alongside answers for itself.
pub open spec fn compositors_asked(session: Session, n: int) -> Seq<Compositor>
    decreases n,
{
    if n <= 0 {
        Seq::empty()
    } else if session == Session::Unknown || all_compositors()[n - 1].own_session() == session {
        compositors_asked(session, n - 1).push(all_compositors()[n - 1])
    } else {
        compositors_asked(session, n - 1)
    }
}

/// What a run of a program came to: its output, or what kept it from running.
pub type Reply = core::result::Result<CommandOutput, VshotError>;

impl Compositor {
    pub open spec fn own_session(self) -> Session {
        match self {
            Compositor::Hyprland => Session::Hyprland,
            Compositor::Sway => Session::Sway,
            Compositor::KWin => Session::KWin,
        }
    }

    pub open spec fn title(self) -> Seq<char> {
        match self {
            Compositor::Hyprland => "Hyprland"@,
            Compositor::Sway => "Sway"@,
            Compositor::KWin => "KWin"@,
        }
    }

    pub open spec fn own_source(self) -> WindowSource {
        match self {
            Compositor::Hyprland => WindowSource::Hyprland,
            Compositor::Sway => WindowSource::Sway,
            Compositor::KWin => WindowSource::KWin,
        }
    }

    pub open spec fn own_program(self) -> Seq<char> {
        match self {
            Compositor::Hyprland => "hyprctl"@,
            Compositor::Sway => "swaymsg"@,
            Compositor::KWin => "bash"@,
        }
    }

    /// What the compositor's output says of the active window.
    pub open spec fn active_reply(self, bytes: Seq<u8>) -> core::result::Result<Rect, Seq<char>> {
        match self {
            Compositor::Hyprland => hyprland_active_reply(bytes),
            Compositor::Sway => sway_active_reply(bytes),
            Compositor::KWin => kwin_active_reply(bytes),
        }
    }

    /// What a failed query is reported with.
    pub open spec fn failure(self, status: Seq<char>) -> Seq<char> {
        match self {
            Compositor::KWin => "the KWin scripting probe exited with "@ + status
                + " — it loads a script over D-Bus (`gdbus` or `dbus-send`) and reads the answer back from the user journal"@,
            _ => "`"@ + self.own_program() + "` exited with "@ + status,
        }
    }

    /// The active window a reply amounts to, or what the error says.
    pub open spec fn judged_active(self, output: CommandOutput) -> core::result::Result<
        Rect,
        Seq<char>,
    > {
        if output.success {
            self.active_reply(output.stdout@)
        } else {
            Err(self.failure(output.status@))
        }
    }

    /// What asking for the active window came to with this reply: the window,
    /// or the sentence that says why there is none.
    pub open spec fn active_attempt(self, reply: Reply) -> core::result::Result<Rect, Seq<char>> {
        match reply {
            Ok(output) => match self.judged_active(output) {
                Ok(rect) => Ok(rect),
                Err(why) => Err("the active window is unavailable: "@ + why),
            },
            Err(error) => Err(message_of(error)),
        }
    }

    pub fn name(self) -> (name: &'static str)
        ensures
            name@ == self.title(),
    {
        match self {
            Compositor::Hyprland => "Hyprland",
            Compositor::Sway => "Sway",
            Compositor::KWin => "KWin",
        }
    }

    pub fn session(self) -> (session: Session)
        ensures
            session == self.own_session(),
    {
        match self {
            Compositor::Hyprland => Session::Hyprland,
            Compositor::Sway => Session::Sway,
            Compositor::KWin => Session::KWin,
        }
    }

    /// What is asked for the active window.
    pub open spec fn active_question(self) -> Question {
        match self {
            Compositor::Hyprland => ("hyprctl"@, seq!["activewindow"@, "-j"@]),
            Compositor::Sway => ("swaymsg"@, seq!["-t"@, "get_tree"@]),
            Compositor::KWin => ("bash"@, seq!["-c"@, KWIN_PROBE@, "vshot"@, "active"@]),
        }
    }

    /// The command that asks for the active window.
    pub fn active_window_command(self) -> (command: WindowCommand)
        ensures
            command@ == self.active_question(),
    {
        match self {
            Compositor::Hyprland => WindowCommand::hyprland(),
            Compositor::Sway => WindowCommand::sway(),
            Compositor::KWin => WindowCommand::kwin(),
        }
    }

    /// Reads the compositor's output.
    pub fn parse_active_window(self, stdout: &[u8]) -> (window: Result<ActiveWindow>)
        ensures
            active_outcome(window, self.own_source(), self.active_reply(stdout@)),
    {
        match self {
            Compositor::Hyprland => parse_hyprland_active_window(stdout),
            Compositor::Sway => parse_sway_active_window(stdout),
            Compositor::KWin => parse_kwin_active_window(stdout),
        }
    }

    /// The active window a finished query amounts to.
    pub fn judge_active(self, output: &CommandOutput) -> (window: Result<ActiveWindow>)
        ensures
            active_outcome(window, self.own_source(), self.judged_active(*output)),
    {
        if !output.success {
            let text = match self {
                Compositor::KWin => concat3(
                    "the KWin scripting probe exited with ",
                    output.status.as_str(),
                    " — it loads a script over D-Bus (`gdbus` or `dbus-send`) and reads the answer back from the user journal",
                ),
                Compositor::Hyprland => {
                    let said = concat3("`", "hyprctl", "` exited with ");
                    concat2(said.as_str(), output.status.as_str())
                },
                Compositor::Sway => {
                    let said = concat3("`", "swaymsg", "` exited with ");
                    concat2(said.as_str(), output.status.as_str())
                },
            };
            return Err(VshotError::ActiveWindowUnavailable(text));
        }
        self.parse_active_window(output.stdout.as_slice())
    }

    /// The active window as this compositor reports it.
    fn active_window<R: WindowCommandRunner>(self, runner: &R) -> (answer: (
        Result<ActiveWindow>,
        Ghost<Reply>,
    ))
        ensures
            match answer.0 {
                Ok(window) => self.active_attempt(answer.1@) == Ok::<Rect, Seq<char>>(
                    window.geometry,
                ) && window.source == self.own_source(),
                Err(error) => self.active_attempt(answer.1@) == Err::<Rect, Seq<char>>(
                    message_of(error),
                ),
            },
            answered(runner, self.active_question(), answer.1@),
    {
        let command = self.active_window_command();
        let reply = ask(runner, &command);
        let ghost said = reply;
        match reply {
            Ok(output) => (self.judge_active(&output), Ghost(said)),
            Err(error) => (Err(error), Ghost(said)),
        }
    }
}

/// Runs commands; what they leave behind is not this library's to say.
pub trait WindowCommandRunner {
    fn run(&self, command: &WindowCommand) -> Result<CommandOutput>;
}

/// What a command is: its program and its arguments.
pub type Question = (Seq<char>, Seq<Seq<char>>);

/// The reply is one that the runner came back with when it was given the
/// command.
pub open spec fn answered<R: WindowCommandRunner>(
    runner: &R,
    question: Question,
    reply: Reply,
) -> bool {
    exists|command: WindowCommand|
        command@ == question && #[trigger] call_ensures(R::run, (runner, &command), reply)
}

/// Runs a command.
pub(crate) fn ask<R: WindowCommandRunner>(runner: &R, command: &WindowCommand) -> (reply: Result<
    CommandOutput,
>)
    ensures
        answered(runner, command@, reply),
{
    let reply = runner.run(command);
    assert(call_ensures(R::run, (runner, command), reply));
    reply
}

/// The compositors worth asking in a session.
pub fn compositors_for(session: Session) -> (compositors: Vec<Compositor>)
    ensures
        compositors@ == compositors_asked(session, all_compositors().len() as int),
{
    let all: Vec<Compositor> = vec![Compositor::Hyprland, Compositor::Sway, Compositor::KWin];
    assert(all@ =~= all_compositors());
    let mut compositors: Vec<Compositor> = Vec::new();
    let mut i: usize = 0;
    while i < all.len()
        invariant
            all@ == all_compositors(),
            i <= all@.len(),
            compositors@ == compositors_asked(session, i as int),
        decreases all.len() - i,
    {
        let compositor = all[i];
        if session == Session::Unknown || compositor.session() == session {
            compositors.push(compositor);
        }
        i = i + 1;
    }
    compositors
}

/// A session asks nobody but its own compositor, and niri's, which none of the
/// queries is for, asks nobody.
pub proof fn law_only_the_sessions_compositor_is_asked(session: Session, n: int, i: int)
    requires
        session != Session::Unknown,
        0 <= n <= all_compositors().len(),
        0 <= i < compositors_asked(session, n).len(),
    ensures
        compositors_asked(session, n)[i].own_session() == session,
        session != Session::Niri,
    decreases n,
{
    if n > 0 && i < compositors_asked(session, n - 1).len() {
        law_only_the_sessions_compositor_is_asked(session, n - 1, i);
    }
}

/// What the first `n` compositors that were asked for the active window said
/// instead of naming one.
pub open spec fn active_reasons(asked: Seq<Compositor>, replies: Seq<Reply>, n: int) -> Seq<
    Seq<char>,
>
    decreases n,
{
    if n <= 0 {
        Seq::empty()
    } else {
        active_reasons(asked, replies, n - 1).push(
            asked[n - 1].title() + ": "@ + asked[n - 1].active_attempt(replies[n - 1])->Err_0,
        )
    }
}

/// Whether this is what comes of asking a session's compositors for the active
/// window when `replies` are what the commands that were run came to: the
/// first window anybody names, or, when nobody does, what each of them said.
pub open spec fn found_active(
    session: Session,
    replies: Seq<Reply>,
    window: core::result::Result<ActiveWindow, VshotError>,
) -> bool {
    let asked = compositors_asked(session, all_compositors().len() as int);
    let n = replies.len() as int;
    match window {
        Ok(window) => {
            &&& 0 < n <= asked.len()
            &&& asked[n - 1].active_attempt(replies[n - 1]) == Ok::<Rect, Seq<char>>(
                window.geometry,
            )
            &&& window.source == asked[n - 1].own_source()
            &&& forall|j: int|
                0 <= j < n - 1 ==> (#[trigger] asked[j].active_attempt(replies[j])) is Err
        },
        Err(error) => {
            &&& n == asked.len()
            &&& forall|j: int|
                0 <= j < n ==> (#[trigger] asked[j].active_attempt(replies[j])) is Err
            &&& error matches VshotError::ActiveWindowUnavailable(text)
            &&& text@ == no_active_text(active_reasons(asked, replies, n))
        },
    }
}

/// Each of the replies is the runner's to what that compositor is asked for the
/// active window.
pub open spec fn asked_for_active<R: WindowCommandRunner>(
    session: Session,
    runner: &R,
    replies: Seq<Reply>,
) -> bool {
    let asked = compositors_asked(session, all_compositors().len() as int);
    forall|j: int|
        0 <= j < replies.len() ==> answered(
            runner,
            asked[j].active_question(),
            #[trigger] replies[j],
        )
}

/// Asks a session's compositors for the active window, one after the other,
/// and returns the first answer.
///
/// A session whose compositor has no such query is answered without running
/// anything.
pub fn find_active_window_for<R: WindowCommandRunner>(session: Session, runner: &R) -> (window:
    Result<ActiveWindow>)
    ensures
        exists|replies: Seq<Reply>| #[trigger]
            found_active(session, replies, window) && asked_for_active(session, runner, replies),
{
    let compositors = compositors_for(session);
    let mut reasons: Vec<String> = Vec::new();
    let ghost mut replies: Seq<Reply> = Seq::empty();
    let mut i: usize = 0;
    while i < compositors.len()
        invariant
            compositors@ == compositors_asked(session, all_compositors().len() as int),
            i <= compositors@.len(),
            replies.len() == i,
            forall|j: int|
                0 <= j < i ==> (#[trigger] compositors@[j].active_attempt(replies[j])) is Err,
            asked_for_active(session, runner, replies),
            texts(reasons@) == active_reasons(compositors@, replies, i as int),
        decreases compositors.len() - i,
    {
        let compositor = compositors[i];
        let (answer, Ghost(reply)) = compositor.active_window(runner);
        let ghost before = replies;
        proof {
            replies = replies.push(reply);
            assert forall|j: int| 0 <= j < i implies replies[j] == before[j] by {}
            lemma_active_reasons_prefix(compositors@, before, replies, i as int);
        }
        match answer {
            Ok(window) => {
                assert(found_active(session, replies, Ok(window)));
                return Ok(window);
            },
            Err(error) => {
                let said = error.message();
                let ghost earlier = reasons@;
                reasons.push(concat3(compositor.name(), ": ", said.as_str()));
                assert(texts(reasons@) =~= texts(earlier).push(reasons@.last()@));
            },
        }
        i = i + 1;
    }
    let window = no_active_window(&reasons);
    assert(found_active(session, replies, window));
    window
}

/// Asks the compositors of the session that `XDG_CURRENT_DESKTOP` and
/// `XDG_SESSION_DESKTOP` name.
pub fn find_active_window<R: WindowCommandRunner>(
    current: Option<&str>,
    session: Option<&str>,
    runner: &R,
) -> (window: Result<
    ActiveWindow,
>)
    ensures
        exists|replies: Seq<Reply>| #[trigger]
            found_active(
                session_of(optional_str(current), optional_str(session)),
                replies,
                window,
            ) && asked_for_active(
                session_of(optional_str(current), optional_str(session)),
                runner,
                replies,
            ),
{
    find_active_window_for(Session::from_desktops(current, session), runner)
}

proof fn lemma_active_reasons_prefix(
    asked: Seq<Compositor>,
    a: Seq<Reply>,
    b: Seq<Reply>,
    n: int,
)
    requires
        0 <= n <= asked.len(),
        n <= a.len(),
        n <= b.len(),
        forall|j: int| 0 <= j < n ==> a[j] == b[j],
    ensures
        active_reasons(asked, a, n) == active_reasons(asked, b, n),
    decreases n,
{
    if n > 0 {
        lemma_active_reasons_prefix(asked, a, b, n - 1);
    }
}

/// What is reported when nobody knew the active window.
pub open spec fn no_active_text(reasons: Seq<Seq<char>>) -> Seq<char> {
    if reasons.len() == 0 {
        "this session's compositor has no active-window query (only Hyprland, Sway and KWin have one)"@
    } else {
        "no compositor reported an active window ("@ + joined(
            reasons,
            "; "@,
            reasons.len() as int,
        ) + ")"@
    }
}

fn no_active_window(reasons: &Vec<String>) -> (window: Result<ActiveWindow>)
    ensures
        window matches Err(error) && error matches VshotError::ActiveWindowUnavailable(text)
            && text@ == no_active_text(texts(reasons@)),
{
    if reasons.len() == 0 {
        return Err(
            VshotError::ActiveWindowUnavailable(
                "this session's compositor has no active-window query (only Hyprland, Sway and KWin have one)".to_owned(),
            ),
        );
    }
    let list = join(reasons, "; ");
    Err(
        VshotError::ActiveWindowUnavailable(
            concat3("no compositor reported an active window (", list.as_str(), ")"),
        ),
    )
}

/// The output of a window query that went well.
pub open spec fn queried(program: Seq<char>, output: CommandOutput) -> core::result::Result<
    Seq<u8>,
    Seq<char>,
> {
    if output.success {
        Ok(output.stdout@)
    } else {
        Err("`"@ + program + "` exited with "@ + output.status@)
    }
}

/// The output of a finished window query, or why it cannot be used.
pub fn query_output(command: &WindowCommand, output: CommandOutput) -> (bytes: Result<Vec<u8>>)
    ensures
        match bytes {
            Ok(bytes) => queried(command.program@, output) == Ok::<Seq<u8>, Seq<char>>(bytes@),
            Err(error) => error matches VshotError::WindowPickUnavailable(text) && queried(
                command.program@,
                output,
            ) == Err::<Seq<u8>, Seq<char>>(text@),
        },
{
    if !output.success {
        let said = concat3("`", command.program.as_str(), "` exited with ");
        return Err(
            VshotError::WindowPickUnavailable(
                concat2(said.as_str(), output.status.as_str()),
            ),
        );
    }
    Ok(output.stdout)
}

/// What a run of a window query came to: its output, or the sentence that says
/// why there is none.
pub open spec fn query_attempt(program: Seq<char>, reply: Reply) -> core::result::Result<
    Seq<u8>,
    Seq<char>,
> {
    match reply {
        Ok(output) => match queried(program, output) {
            Ok(bytes) => Ok(bytes),
            Err(why) => Err("no window can be picked: "@ + why),
        },
        Err(error) => Err(message_of(error)),
    }
}

fn run_command<R: WindowCommandRunner>(runner: &R, command: &WindowCommand) -> (answer: (
    Result<Vec<u8>>,
    Ghost<Reply>,
))
    ensures
        match answer.0 {
            Ok(bytes) => query_attempt(command.program@, answer.1@) == Ok::<Seq<u8>, Seq<char>>(
                bytes@,
            ),
            Err(error) => query_attempt(command.program@, answer.1@) == Err::<Seq<u8>, Seq<char>>(
                message_of(error),
            ),
        },
        answered(runner, command@, answer.1@),
{
    let reply = ask(runner, command);
    let ghost said = reply;
    match reply {
        Ok(output) => (query_output(command, output), Ghost(said)),
        Err(error) => (Err(error), Ghost(said)),
    }
}

impl Compositor {
    /// The windows these bytes list: the output of the window query, and of the
    /// monitor query that goes with it where there is one.
    pub open spec fn list_reply(self, bytes: Seq<u8>, monitors: Seq<u8>) -> core::result::Result<
        Seq<(Rect, Seq<char>)>,
        Seq<char>,
    > {
        match self {
            Compositor::Hyprland => hyprland_windows_reply(bytes, monitors),
            Compositor::Sway => sway_windows_reply(bytes),
            Compositor::KWin => kwin_windows_reply(bytes),
        }
    }

    /// What is asked for the windows.
    pub open spec fn list_question(self) -> Question {
        match self {
            Compositor::Hyprland => ("hyprctl"@, seq!["clients"@, "-j"@]),
            Compositor::Sway => ("swaymsg"@, seq!["-t"@, "get_tree"@]),
            Compositor::KWin => ("bash"@, seq!["-c"@, KWIN_PROBE@, "vshot"@, "list"@]),
        }
    }

    /// The replies are the runner's to what is asked for the windows.  Hyprland
    /// is asked for its monitors too, once its clients are known.
    pub open spec fn list_answered<R: WindowCommandRunner>(
        self,
        runner: &R,
        replies: (Reply, Reply),
    ) -> bool {
        &&& answered(runner, self.list_question(), replies.0)
        &&& self is Hyprland && query_attempt(self.own_program(), replies.0) is Ok ==> answered(
            runner,
            ("hyprctl"@, seq!["monitors"@, "-j"@]),
            replies.1,
        )
    }

    /// The command that asks for the windows.
    pub fn window_list_command(self) -> (command: WindowCommand)
        ensures
            command@ == self.list_question(),
    {
        match self {
            Compositor::Hyprland => WindowCommand::hyprland_clients(),
            Compositor::Sway => WindowCommand::sway(),
            Compositor::KWin => WindowCommand::kwin_list(),
        }
    }

    /// Reads the window list; `monitors` is what the monitor query returned,
    /// which only Hyprland's list is read with.
    pub fn parse_window_list(self, bytes: &[u8], monitors: &[u8]) -> (windows: Result<
        Vec<WindowCandidate>,
    >)
        ensures
            list_outcome(windows, self.list_reply(bytes@, monitors@)),
    {
        match self {
            Compositor::Hyprland => parse_hyprland_windows(bytes, monitors),
            Compositor::Sway => parse_sway_windows(bytes),
            Compositor::KWin => parse_kwin_windows(bytes),
        }
    }

    /// What asking for the windows came to with these replies, the second of
    /// which is the monitor query's where there is one: the list, or the
    /// sentence that says why there is none.
    pub open spec fn list_attempt(self, replies: (Reply, Reply)) -> core::result::Result<
        Seq<(Rect, Seq<char>)>,
        Seq<char>,
    > {
        match query_attempt(self.own_program(), replies.0) {
            Err(why) => Err(why),
            Ok(bytes) => {
                let monitors = if self is Hyprland {
                    query_attempt(self.own_program(), replies.1)
                } else {
                    Ok(Seq::<u8>::empty())
                };
                match monitors {
                    Err(why) => Err(why),
                    Ok(monitors) => match self.list_reply(bytes, monitors) {
                        Ok(windows) => Ok(windows),
                        Err(why) => Err("no window can be picked: "@ + why),
                    },
                }
            },
        }
    }

    /// The windows this compositor shows.
    fn window_list<R: WindowCommandRunner>(self, runner: &R) -> (answer: (
        Result<Vec<WindowCandidate>>,
        Ghost<(Reply, Reply)>,
    ))
        ensures
            match answer.0 {
                Ok(windows) => self.list_attempt(answer.1@) == Ok::<
                    Seq<(Rect, Seq<char>)>,
                    Seq<char>,
                >(listed(windows@)),
                Err(error) => self.list_attempt(answer.1@) == Err::<
                    Seq<(Rect, Seq<char>)>,
                    Seq<char>,
                >(message_of(error)),
            },
            self.list_answered(runner, answer.1@),
    {
        let command = self.window_list_command();
        let (bytes, Ghost(first)) = run_command(runner, &command);
        let bytes = match bytes {
            Ok(bytes) => bytes,
            Err(error) => {
                return (Err(error), Ghost((first, first)));
            },
        };
        if self == Compositor::Hyprland {
            let command = WindowCommand::hyprland_monitors();
            let (monitors, Ghost(second)) = run_command(runner, &command);
            match monitors {
                Ok(monitors) => (
                    self.parse_window_list(bytes.as_slice(), monitors.as_slice()),
                    Ghost((first, second)),
                ),
                Err(error) => (Err(error), Ghost((first, second))),
            }
        } else {
            let none: Vec<u8> = Vec::new();
            assert(none@ =~= Seq::<u8>::empty());
            (self.parse_window_list(bytes.as_slice(), none.as_slice()), Ghost((first, first)))
        }
    }
}

/// What the first `n` compositors that were asked for their windows said
/// instead of listing any.
pub open spec fn list_reasons(asked: Seq<Compositor>, replies: Seq<(Reply, Reply)>, n: int) -> Seq<
    Seq<char>,
>
    decreases n,
{
    if n <= 0 {
        Seq::empty()
    } else {
        list_reasons(asked, replies, n - 1).push(
            match asked[n - 1].list_attempt(replies[n - 1]) {
                Ok(_) => asked[n - 1].title() + " shows no window"@,
                Err(why) => asked[n - 1].title() + ": "@ + why,
            },
        )
    }
}

/// Whether a compositor listed a window.
pub open spec fn lists_windows(compositor: Compositor, replies: (Reply, Reply)) -> bool {
    compositor.list_attempt(replies) matches Ok(windows) && windows.len() > 0
}

/// Whether this is what comes of asking a session's compositors for their
/// windows when `replies` are what the commands that were run came to: the
/// first list that is not empty, or, when there is none, what each of them
/// said.
pub open spec fn found_windows(
    session: Session,
    replies: Seq<(Reply, Reply)>,
    windows: core::result::Result<Vec<WindowCandidate>, VshotError>,
) -> bool {
    let asked = compositors_asked(session, all_compositors().len() as int);
    let n = replies.len() as int;
    match windows {
        Ok(windows) => {
            &&& 0 < n <= asked.len()
            &&& windows@.len() > 0
            &&& asked[n - 1].list_attempt(replies[n - 1]) == Ok::<
                Seq<(Rect, Seq<char>)>,
                Seq<char>,
            >(listed(windows@))
            &&& forall|j: int| 0 <= j < n - 1 ==> !(#[trigger] lists_windows(asked[j], replies[j]))
        },
        Err(error) => {
            &&& n == asked.len()
            &&& forall|j: int| 0 <= j < n ==> !(#[trigger] lists_windows(asked[j], replies[j]))
            &&& error matches VshotError::WindowPickUnavailable(text)
            &&& text@ == no_windows_text(list_reasons(asked, replies, n))
        },
    }
}

proof fn lemma_list_reasons_prefix(
    asked: Seq<Compositor>,
    a: Seq<(Reply, Reply)>,
    b: Seq<(Reply, Reply)>,
    n: int,
)
    requires
        0 <= n <= asked.len(),
        n <= a.len(),
        n <= b.len(),
        forall|j: int| 0 <= j < n ==> a[j] == b[j],
    ensures
        list_reasons(asked, a, n) == list_reasons(asked, b, n),
    decreases n,
{
    if n > 0 {
        lemma_list_reasons_prefix(asked, a, b, n - 1);
    }
}

/// What is reported when nobody listed a window.
pub open spec fn no_windows_text(reasons: Seq<Seq<char>>) -> Seq<char> {
    if reasons.len() == 0 {
        "this session's compositor has no window list to offer (only Hyprland, Sway and KWin have one)"@
    } else {
        "no compositor reported a window list ("@ + joined(reasons, "; "@, reasons.len() as int)
            + ")"@
    }
}

fn no_windows(reasons: &Vec<String>) -> (windows: Result<Vec<WindowCandidate>>)
    ensures
        windows matches Err(error) && error matches VshotError::WindowPickUnavailable(text)
            && text@ == no_windows_text(texts(reasons@)),
{
    if reasons.len() == 0 {
        return Err(
            VshotError::WindowPickUnavailable(
                "this session's compositor has no window list to offer (only Hyprland, Sway and KWin have one)".to_owned(),
            ),
        );
    }
    let list = join(reasons, "; ");
    Err(
        VshotError::WindowPickUnavailable(
            concat3("no compositor reported a window list (", list.as_str(), ")"),
        ),
    )
}

/// Each of the replies is the runner's to what that compositor is asked for its
/// windows.
pub open spec fn asked_for_windows<R: WindowCommandRunner>(
    session: Session,
    runner: &R,
    replies: Seq<(Reply, Reply)>,
) -> bool {
    let asked = compositors_asked(session, all_compositors().len() as int);
    forall|j: int|
        0 <= j < replies.len() ==> asked[j].list_answered(runner, #[trigger] replies[j])
}

/// Asks a session's compositors for their windows, one after the other, and
/// returns the first list that is not empty.
pub fn find_windows_for<R: WindowCommandRunner>(session: Session, runner: &R) -> (windows: Result<
    Vec<WindowCandidate>,
>)
    ensures
        exists|replies: Seq<(Reply, Reply)>| #[trigger]
            found_windows(session, replies, windows) && asked_for_windows(session, runner, replies),
{
    let compositors = compositors_for(session);
    let mut reasons: Vec<String> = Vec::new();
    let ghost mut replies: Seq<(Reply, Reply)> = Seq::empty();
    let mut i: usize = 0;
    while i < compositors.len()
        invariant
            compositors@ == compositors_asked(session, all_compositors().len() as int),
            i <= compositors@.len(),
            replies.len() == i,
            forall|j: int|
                0 <= j < i ==> !(#[trigger] lists_windows(compositors@[j], replies[j])),
            asked_for_windows(session, runner, replies),
            texts(reasons@) == list_reasons(compositors@, replies, i as int),
        decreases compositors.len() - i,
    {
        let compositor = compositors[i];
        let (answer, Ghost(reply)) = compositor.window_list(runner);
        let ghost before = replies;
        let ghost earlier = reasons@;
        proof {
            replies = replies.push(reply);
            assert forall|j: int| 0 <= j < i implies !(#[trigger] lists_windows(
                compositors@[j],
                replies[j],
            )) by {
                assert(replies[j] == before[j]);
                assert(!lists_windows(compositors@[j], before[j]));
            }
            lemma_list_reasons_prefix(compositors@, before, replies, i as int);
        }
        match answer {
            Ok(windows) => {
                if windows.len() > 0 {
                    assert(found_windows(session, replies, Ok(windows)));
                    return Ok(windows);
                }
                reasons.push(concat2(compositor.name(), " shows no window"));
            },
            Err(error) => {
                let said = error.message();
                reasons.push(concat3(compositor.name(), ": ", said.as_str()));
            },
        }
        assert(texts(reasons@) =~= texts(earlier).push(reasons@.last()@));
        i = i + 1;
    }
    let windows = no_windows(&reasons);
    assert(found_windows(session, replies, windows));
    windows
}

/// Asks the compositors of the session that `XDG_CURRENT_DESKTOP` and
/// `XDG_SESSION_DESKTOP` name.
pub fn find_windows<R: WindowCommandRunner>(
    current: Option<&str>,
    session: Option<&str>,
    runner: &R,
) -> (windows: Result<
    Vec<WindowCandidate>,
>)
    ensures
        exists|replies: Seq<(Reply, Reply)>| #[trigger]
            found_windows(
                session_of(optional_str(current), optional_str(session)),
                replies,
                windows,
            ) && asked_for_windows(
                session_of(optional_str(current), optional_str(session)),
                runner,
                replies,
            ),
{
    find_windows_for(Session::from_desktops(current, session), runner)
}

// ---------------------------------------------------------------------------
// Providers
// ---------------------------------------------------------------------------
/// Somebody who knows the windows.
pub trait CompositorWindowProvider {
    fn active_window(&self) -> Result<ActiveWindow>;

    /// Every window the compositor shows, for interactive picking.
    fn windows(&self) -> Result<Vec<WindowCandidate>>;
}

/// Asks a session's compositors through commands.
#[derive(Clone, Copy, Debug)]
pub struct ProcessWindowProvider<R> {
    pub session: Session,
    pub runner: R,
}

impl<R: WindowCommandRunner> CompositorWindowProvider for ProcessWindowProvider<R> {
    fn active_window(&self) -> (window: Result<ActiveWindow>)
        ensures
            exists|replies: Seq<Reply>| #[trigger]
                found_active(self.session, replies, window) && asked_for_active(
                    self.session,
                    &self.runner,
                    replies,
                ),
    {
        find_active_window_for(self.session, &self.runner)
    }

    fn windows(&self) -> (windows: Result<Vec<WindowCandidate>>)
        ensures
            exists|replies: Seq<(Reply, Reply)>| #[trigger]
                found_windows(self.session, replies, windows) && asked_for_windows(
                    self.session,
                    &self.runner,
                    replies,
                ),
    {
        find_windows_for(self.session, &self.runner)
    }
}

/// The geometries of a window list.
pub open spec fn geometries(windows: Seq<WindowCandidate>) -> Seq<Rect> {
    Seq::new(windows.len(), |i: int| windows[i].geometry)
}

/// The window on top under the point.
pub fn window_under(windows: &Vec<WindowCandidate>, point: Point) -> (rect: Option<Rect>)
    ensures
        rect == topmost(geometries(windows@), point, windows@.len() as int),
{
    let mut rects: Vec<Rect> = Vec::new();
    while rects.len() < windows.len()
        invariant
            rects@.len() <= windows@.len(),
            forall|i: int|
                0 <= i < rects@.len() ==> #[trigger] rects@[i] == geometries(windows@)[i],
        decreases windows.len() - rects.len(),
    {
        rects.push(windows[rects.len()].geometry);
    }
    assert(rects@ =~= geometries(windows@));
    topmost_containing(&rects, point)
}

impl<R: WindowCommandRunner> ProcessWindowProvider<R> {
    /// The window under `point` in the compositor's list right now: the one on
    /// top.  `None` means that the compositor cannot answer, or that nothing is
    /// there.
    pub fn window_at(&self, point: Point) -> (rect: Option<Rect>)
        ensures
            exists|replies: Seq<(Reply, Reply)>, windows: Result<Vec<WindowCandidate>>|
                #[trigger] found_windows(self.session, replies, windows) && asked_for_windows(
                    self.session,
                    &self.runner,
                    replies,
                ) && rect == match windows {
                    Ok(windows) => topmost(geometries(windows@), point, windows@.len() as int),
                    Err(_) => None,
                },
    {
        let found = find_windows_for(self.session, &self.runner);
        let ghost windows = found;
        match found {
            Ok(list) => window_under(&list, point),
            Err(_) => None,
        }
    }
}

} // verus!
