//! Windows on niri, as its command line describes them.
//!
//! niri reports the size of a window but, as long as it is tiled, no place for
//! it on the screen.  It can draw a window into a file instead, and
//! [`super::niri_composite`] puts that picture back on the screen.

use std::collections::HashMap;

use vstd::arithmetic::power2::pow2;
use vstd::prelude::*;

use crate::binary64::{
    at_most, law_a_number_is_rounded_to_the_nearest_integer, round_number, rounded_number,
    to_53_digits, INFINITY, ONE,
};
use crate::doubles::{
    clamped, finite, is_finite, lemma_rounds_up_from_zero, nearest, units, whole, Double,
};
use crate::error::{settles, ErrorView, Result, VshotError};
use crate::geometry::{Point, Rect, Size};
use crate::json::{list_reading, member_trees, parse as parse_json, parse_list, reading, trees, Json, Tree};
use crate::model::Frame;
use crate::path::FilePath;
use crate::text::{
    chars_of, concat2, concat3, contains_text, decimal_text, format_u64, has_part, is_digit,
    lemma_decimal_text_is_solid, lemma_pieces_of_joined, lossy_text, natural_text, pieces,
    read_lossy, same_text, split_char, texts, trim, trimmed,
};

use super::window::{
    answered, ask, join_label, label_of, CommandOutput, Reply, WindowCommand, WindowCommandRunner,
};
use super::window_pid::{label_field, niri_command, niri_question};

verus! {

/// How long niri may take to write a window's picture, in seconds.
pub const SCREENSHOT_TIMEOUT: u64 = 5;

/// The wait between two looks at that file, in milliseconds.
pub const POLL_INTERVAL: u64 = 25;

/// One window as niri describes it.
///
/// The sizes and positions are in logical pixels; each is a pair of binary64
/// bit patterns, one for either axis.
#[derive(Clone, Debug, PartialEq, Eq)]
pub struct NiriWindow {
    pub id: u64,
    /// `app_id — title`, when niri reports either.
    pub label: String,
    pub app_id: String,
    pub title: String,
    /// What places the window on an output.
    pub workspace_id: Option<u64>,
    /// The size of the tile, borders included.
    pub tile_size: Option<(u64, u64)>,
    /// Where the window sits inside its tile: the width of its borders.
    pub offset_in_tile: Option<(u64, u64)>,
    /// Where the tile sits in its workspace; only a floating window has one.
    pub tile_pos_in_workspace_view: Option<(u64, u64)>,
}

/// What niri says of a window.
pub struct WindowFacts {
    pub id: u64,
    pub label: Seq<char>,
    pub app_id: Seq<char>,
    pub title: Seq<char>,
    pub workspace_id: Option<u64>,
    pub tile_size: Option<(u64, u64)>,
    pub offset_in_tile: Option<(u64, u64)>,
    pub tile_pos_in_workspace_view: Option<(u64, u64)>,
}

impl View for NiriWindow {
    type V = WindowFacts;

    open spec fn view(&self) -> WindowFacts {
        WindowFacts {
            id: self.id,
            label: self.label@,
            app_id: self.app_id@,
            title: self.title@,
            workspace_id: self.workspace_id,
            tile_size: self.tile_size,
            offset_in_tile: self.offset_in_tile,
            tile_pos_in_workspace_view: self.tile_pos_in_workspace_view,
        }
    }
}

// ---------------------------------------------------------------------------
// Where a window is
// ---------------------------------------------------------------------------
/// The scale to calculate with; an output cannot have one below one.
pub open spec fn factor(scale: u32) -> int {
    if scale == 0 {
        1
    } else {
        scale as int
    }
}

/// A length in logical pixels as the nearest whole number of device pixels.
pub open spec fn in_device_pixels(length: int, scale: u32) -> int {
    whole(nearest(length * factor(scale)))
}

/// Where a window starts along one axis, in device pixels, as long as that is a
/// position at all.
pub open spec fn origin_along(position: u64, offset: u64, scale: u32) -> Option<i32> {
    let start = in_device_pixels(nearest(units(position) + units(offset)), scale);
    if is_finite(position) && is_finite(offset) && i32::MIN <= start <= i32::MAX {
        Some(start as i32)
    } else {
        None
    }
}

/// How far a picture reaches past its window along one axis, on either side,
/// and how wide the border around the window is, both in device pixels.
pub open spec fn margins_along(offset: u64, tile: u64, picture: u32, scale: u32) -> Option<
    (u32, u32),
> {
    let window = nearest(units(tile) - 2 * units(offset));
    let excess = picture - clamped(in_device_pixels(window, scale));
    if is_finite(offset) && is_finite(tile) && units(offset) >= 0 && window > 0 && excess >= 0
        && excess % 2 == 0 {
        Some(((excess / 2) as u32, as_length(in_device_pixels(units(offset), scale))))
    } else {
        None
    }
}

/// As much of an integer as a `u32` holds.
pub open spec fn as_length(n: int) -> u32 {
    if n < 0 {
        0
    } else {
        at_most(n, u32::MAX as int) as u32
    }
}

impl WindowFacts {
    /// Where the window itself starts on its output.
    pub open spec fn origin(self, scale: u32) -> Option<(i32, i32)> {
        match (self.tile_pos_in_workspace_view, self.offset_in_tile) {
            (Some(position), Some(offset)) => match (
                origin_along(position.0, offset.0, scale),
                origin_along(position.1, offset.1, scale),
            ) {
                (Some(x), Some(y)) => Some((x, y)),
                _ => None,
            },
            _ => None,
        }
    }

    /// The excess and the border on either axis.
    pub open spec fn margins(self, picture: (u32, u32), scale: u32) -> Option<
        (u32, u32, u32, u32),
    > {
        match (self.offset_in_tile, self.tile_size) {
            (Some(offset), Some(tile)) => match (
                margins_along(offset.0, tile.0, picture.0, scale),
                margins_along(offset.1, tile.1, picture.1, scale),
            ) {
                (Some(x), Some(y)) => Some((x.0, y.0, x.1, y.1)),
                _ => None,
            },
            _ => None,
        }
    }

    /// The tile on its output, for a window that niri places: the window
    /// without the shadow that its picture may show, and the border around it.
    pub open spec fn tile(self, picture: (u32, u32), scale: u32) -> Option<Rect> {
        match (self.origin(scale), self.margins(picture, scale)) {
            (Some(start), Some(m)) => rect_of(
                start.0 - m.2,
                start.1 - m.3,
                picture.0 - 2 * m.0 + 2 * m.2,
                picture.1 - 2 * m.1 + 2 * m.3,
            ),
            _ => None,
        }
    }
}

/// The rectangle with these sides, when they fit one.
pub open spec fn rect_of(x: int, y: int, width: int, height: int) -> Option<Rect> {
    if i32::MIN <= x <= i32::MAX && i32::MIN <= y <= i32::MAX && 0 <= width <= u32::MAX && 0
        <= height <= u32::MAX {
        Some(
            Rect {
                origin: Point { x: x as i32, y: y as i32 },
                size: Size { width: width as u32, height: height as u32 },
            },
        )
    } else {
        None
    }
}

/// The rectangle with these sides, when they fit one.
pub fn make_rect(x: i64, y: i64, width: i64, height: i64) -> (rect: Option<Rect>)
    ensures
        rect == rect_of(x as int, y as int, width as int, height as int),
{
    if i32::MIN as i64 <= x && x <= i32::MAX as i64 && i32::MIN as i64 <= y && y <= i32::MAX as i64
        && 0 <= width && width <= u32::MAX as i64 && 0 <= height && height <= u32::MAX as i64 {
        Some(Rect::new(x as i32, y as i32, width as u32, height as u32))
    } else {
        None
    }
}

fn device_pixels(length: Double, scale: u32) -> (pixels: i64)
    requires
        length.short(),
        length.shift <= 2200,
    ensures
        pixels == clamped(in_device_pixels(length@, scale)),
{
    let times: u32 = if scale == 0 {
        1
    } else {
        scale
    };
    length.times(times).to_whole()
}

fn start_along(position: u64, offset: u64, scale: u32) -> (start: Option<i32>)
    ensures
        start == origin_along(position, offset, scale),
{
    if !finite(position) || !finite(offset) {
        return None;
    }
    let sum = Double::read(position).plus(Double::read(offset));
    let start: i64 = device_pixels(sum, scale);
    if i32::MIN as i64 <= start && start <= i32::MAX as i64 {
        Some(start as i32)
    } else {
        None
    }
}

fn measure_along(offset: u64, tile: u64, picture: u32, scale: u32) -> (margins: Option<(u32, u32)>)
    ensures
        margins == margins_along(offset, tile, picture, scale),
{
    if !finite(offset) || !finite(tile) {
        return None;
    }
    let border = Double::read(offset);
    if border.below_zero() {
        return None;
    }
    let window = Double::read(tile).plus(border.doubled().negated());
    if !window.above_zero() {
        return None;
    }
    let shown: i64 = device_pixels(window, scale);
    let excess: i128 = picture as i128 - shown as i128;
    if excess < 0 || excess % 2 != 0 {
        return None;
    }
    proof {
        assert(window@ * factor(scale) >= 0) by (nonlinear_arith)
            requires
                window@ > 0,
                factor(scale) >= 1,
        ;
        lemma_rounds_up_from_zero(window@ * factor(scale));
    }
    let width: i64 = device_pixels(border, scale);
    let width: u32 = if width < 0 {
        0
    } else if width > u32::MAX as i64 {
        u32::MAX
    } else {
        width as u32
    };
    Some(((excess / 2) as u32, width))
}

impl NiriWindow {
    /// Where the window itself starts on its output, in device pixels; only a
    /// floating window has such a place. A picture that shows nothing but the
    /// window starts there, one with a shadow starts that much before it.
    pub fn render_origin(&self, scale: u32) -> (origin: Option<(i32, i32)>)
        ensures
            origin == self@.origin(scale),
    {
        match (self.tile_pos_in_workspace_view, self.offset_in_tile) {
            (Some(position), Some(offset)) => match (
                start_along(position.0, offset.0, scale),
                start_along(position.1, offset.1, scale),
            ) {
                (Some(x), Some(y)) => Some((x, y)),
                _ => None,
            },
            _ => None,
        }
    }

    /// How to get from a picture of this size to the tile: take the first two
    /// numbers off every side, which leaves the window, and put the last two
    /// around it, which are its borders.
    pub fn tile_from_render(&self, render_size: (u32, u32), scale: u32) -> (margins: Option<
        (u32, u32, u32, u32),
    >)
        ensures
            margins == self@.margins(render_size, scale),
    {
        match (self.offset_in_tile, self.tile_size) {
            (Some(offset), Some(tile)) => match (
                measure_along(offset.0, tile.0, render_size.0, scale),
                measure_along(offset.1, tile.1, render_size.1, scale),
            ) {
                (Some(x), Some(y)) => Some((x.0, y.0, x.1, y.1)),
                _ => None,
            },
            _ => None,
        }
    }

    /// The tile on its output in device pixels, for a window that niri places.
    /// A shadow in the picture comes off before the border goes on.
    pub fn tile_rect(&self, render_size: (u32, u32), scale: u32) -> (rect: Option<Rect>)
        ensures
            rect == self@.tile(render_size, scale),
    {
        match (self.render_origin(scale), self.tile_from_render(render_size, scale)) {
            (Some(start), Some(m)) => make_rect(
                start.0 as i64 - m.2 as i64,
                start.1 as i64 - m.3 as i64,
                render_size.0 as i64 - 2 * m.0 as i64 + 2 * m.2 as i64,
                render_size.1 as i64 - 2 * m.1 as i64 + 2 * m.3 as i64,
            ),
            _ => None,
        }
    }
}

// ---------------------------------------------------------------------------
// Whose niri answers
// ---------------------------------------------------------------------------
/// The last of the first `n` pieces of a path that names a file.
pub open spec fn last_name(path: Seq<Seq<char>>, n: int) -> Option<Seq<char>>
    decreases n,
{
    if n <= 0 {
        None
    } else if path[n - 1].len() == 0 || path[n - 1] == "."@ {
        last_name(path, n - 1)
    } else if path[n - 1] == ".."@ {
        None
    } else {
        Some(path[n - 1])
    }
}

/// The name of the file a path leads to.
pub open spec fn file_name(path: Seq<char>) -> Option<Seq<char>> {
    last_name(pieces(path, '/'), pieces(path, '/').len() as int)
}

pub open spec fn only_digits(text: Seq<char>) -> bool {
    forall|i: int| 0 <= i < text.len() ==> is_digit(#[trigger] text[i])
}

/// Whether a socket is called `niri.<display>.<pid>.sock` after this display,
/// both of which may be given as paths.
pub open spec fn names_display(socket: Seq<char>, display: Seq<char>) -> bool {
    match (file_name(socket), file_name(display)) {
        (Some(name), Some(display)) => {
            let parts = pieces(name, '.');
            &&& parts.len() == 4
            &&& parts[0] == "niri"@
            &&& parts[1] == display
            &&& parts[2].len() > 0
            &&& only_digits(parts[2])
            &&& parts[3] == "sock"@
        },
        _ => false,
    }
}

fn find_file_name(path: &str) -> (name: Option<String>)
    ensures
        match name {
            Some(name) => file_name(path@) == Some(name@),
            None => file_name(path@) is None,
        },
{
    let list = split_char(path, '/');
    let ghost all = pieces(path@, '/');
    let mut n: usize = list.len();
    while n > 0
        invariant
            texts(list@) == all,
            all == pieces(path@, '/'),
            n <= list@.len(),
            last_name(all, n as int) == last_name(all, list@.len() as int),
        decreases n,
    {
        let piece = list[n - 1].as_str();
        assert(piece@ == all[n - 1]);
        if piece.is_empty() || same_text(piece, ".") {
            assert(piece@.len() == 0 || piece@ == "."@);
            n = n - 1;
        } else if same_text(piece, "..") {
            return None;
        } else {
            return Some(piece.to_owned());
        }
    }
    None
}

fn holds_only_digits(text: &str) -> (digits: bool)
    ensures
        digits == only_digits(text@),
{
    let chars = chars_of(text);
    let mut i: usize = 0;
    while i < chars.len()
        invariant
            chars@ == text@,
            i <= chars@.len(),
            forall|k: int| 0 <= k < i ==> is_digit(#[trigger] text@[k]),
        decreases chars.len() - i,
    {
        let c: u32 = chars[i] as u32;
        if c < 0x30 || c > 0x39 {
            assert(!is_digit(text@[i as int]));
            return false;
        }
        i = i + 1;
    }
    true
}

/// Whether the niri behind a socket serves this display: niri names its socket
/// after the display it made.  The parts of the name are compared one by one,
/// so `wayland-1` is not taken for `wayland-11`.
pub fn socket_names_display(socket: &str, display: &str) -> (names: bool)
    ensures
        names == names_display(socket@, display@),
{
    let (name, display) = match (find_file_name(socket), find_file_name(display)) {
        (Some(name), Some(display)) => (name, display),
        _ => {
            return false;
        },
    };
    let parts = split_char(name.as_str(), '.');
    let ghost all = pieces(name@, '.');
    assert(texts(parts@) == all);
    if parts.len() != 4 {
        return false;
    }
    assert(parts@[0]@ == all[0] && parts@[1]@ == all[1] && parts@[2]@ == all[2] && parts@[3]@
        == all[3]);
    same_text(parts[0].as_str(), "niri") && same_text(parts[1].as_str(), display.as_str())
        && !parts[2].as_str().is_empty() && holds_only_digits(parts[2].as_str()) && same_text(
        parts[3].as_str(),
        "sock",
    )
}

/// Whether the niri that answers is the compositor of this connection, from
/// `NIRI_SOCKET`, `WAYLAND_DISPLAY` and whether a file is there under the first:
/// a socket of another display is somebody else's, and one that is gone is a
/// stale variable.
pub fn owns_this_connection(socket: Option<&str>, display: Option<&str>, present: bool) -> (owns:
    bool)
    ensures
        owns == (present && match (socket, display) {
            (Some(socket), Some(display)) => names_display(socket@, display@),
            _ => false,
        }),
{
    match (socket, display) {
        (Some(socket), Some(display)) => present && socket_names_display(socket, display),
        _ => false,
    }
}

// ---------------------------------------------------------------------------
// Reading niri's answers
// ---------------------------------------------------------------------------
/// A pair of numbers under a key of a window's layout.
pub open spec fn layout_pair(window: Tree, key: Seq<char>) -> Option<(u64, u64)> {
    match window.field("layout"@) {
        Some(layout) => match layout.items_field(key) {
            Some(pair) => if pair.len() == 2 {
                match (pair[0].double(), pair[1].double()) {
                    (Some(first), Some(second)) => Some((first, second)),
                    _ => None,
                }
            } else {
                None
            },
            None => None,
        },
        None => None,
    }
}

/// The window a document describes; `null` stands for none.
pub open spec fn window_in(value: Tree, what: Seq<char>) -> core::result::Result<
    Option<WindowFacts>,
    ErrorView,
> {
    if value is Null {
        Ok(None)
    } else {
        match value.unsigned_field("id"@) {
            None => Err(
                ErrorView::NiriScreenshot("niri's "@ + what + " reply names no window id"@),
            ),
            Some(id) => {
                let (app_id, title) = (
                    label_field(value, "app_id"@),
                    label_field(value, "title"@),
                );
                Ok(
                    Some(
                        WindowFacts {
                            id,
                            label: label_of(app_id, title),
                            app_id,
                            title,
                            workspace_id: value.unsigned_field("workspace_id"@),
                            tile_size: layout_pair(value, "tile_size"@),
                            offset_in_tile: layout_pair(value, "window_offset_in_tile"@),
                            tile_pos_in_workspace_view: layout_pair(
                                value,
                                "tile_pos_in_workspace_view"@,
                            ),
                        },
                    ),
                )
            },
        }
    }
}

/// The window in what niri printed as the answer to `what`.
pub open spec fn window_said(bytes: Seq<u8>, what: Seq<char>) -> core::result::Result<
    Option<WindowFacts>,
    ErrorView,
> {
    match reading(bytes) {
        Ok(value) => window_in(value, what),
        Err(why) => Err(
            ErrorView::NiriScreenshot("niri's "@ + what + " reply is not JSON: "@ + why),
        ),
    }
}

/// Whether a result holds the window that was to come out.
pub open spec fn holds_window(
    window: core::result::Result<Option<NiriWindow>, VshotError>,
    outcome: core::result::Result<Option<WindowFacts>, ErrorView>,
) -> bool {
    match window {
        Ok(Some(window)) => outcome == Ok::<Option<WindowFacts>, ErrorView>(Some(window@)),
        Ok(None) => outcome == Ok::<Option<WindowFacts>, ErrorView>(None),
        Err(error) => outcome == Err::<Option<WindowFacts>, ErrorView>(error@),
    }
}

fn read_pair(window: &Json, key: &str) -> (pair: Option<(u64, u64)>)
    ensures
        pair == layout_pair(window@, key@),
{
    let pair = match window.get("layout") {
        Some(layout) => match layout.items_field(key) {
            Some(pair) => pair,
            None => {
                return None;
            },
        },
        None => {
            return None;
        },
    };
    if pair.len() != 2 {
        return None;
    }
    assert(trees(pair@)[0] == pair@[0]@ && trees(pair@)[1] == pair@[1]@);
    match (pair[0].as_double(), pair[1].as_double()) {
        (Some(first), Some(second)) => Some((first, second)),
        _ => None,
    }
}

fn read_label(window: &Json, key: &str) -> (label: String)
    ensures
        label@ == label_field(window@, key@),
{
    match window.text_field(key) {
        Some(text) => text.to_owned(),
        None => String::new(),
    }
}

/// The window a document describes.  Members it does not know are passed over.
pub fn window_from(value: &Json, what: &str) -> (window: Result<Option<NiriWindow>>)
    ensures
        holds_window(window, window_in(value@, what@)),
{
    if let Json::Null = value {
        return Ok(None);
    }
    let id: u64 = match value.unsigned_field("id") {
        Some(id) => id,
        None => {
            return Err(
                VshotError::NiriScreenshot(concat3("niri's ", what, " reply names no window id")),
            );
        },
    };
    let app_id = read_label(value, "app_id");
    let title = read_label(value, "title");
    Ok(
        Some(
            NiriWindow {
                id,
                label: join_label(app_id.as_str(), title.as_str()),
                app_id,
                title,
                workspace_id: value.unsigned_field("workspace_id"),
                tile_size: read_pair(value, "tile_size"),
                offset_in_tile: read_pair(value, "window_offset_in_tile"),
                tile_pos_in_workspace_view: read_pair(value, "tile_pos_in_workspace_view"),
            },
        ),
    )
}

/// Reads the window niri printed as the answer to `what`.
pub fn parse_window(bytes: &[u8], what: &str) -> (window: Result<Option<NiriWindow>>)
    ensures
        holds_window(window, window_said(bytes@, what@)),
{
    match parse_json(bytes) {
        Ok(value) => window_from(&value, what),
        Err(why) => {
            let mut text = concat3("niri's ", what, " reply is not JSON: ");
            text.append(why.as_str());
            Err(VshotError::NiriScreenshot(text))
        },
    }
}

/// The output of each workspace among the first `n` of a list; one that names
/// no output is passed over, and of two with one id the later one counts.
pub open spec fn outputs_in(list: Seq<Tree>, n: int) -> Map<u64, Seq<char>>
    decreases n,
{
    if n <= 0 {
        Map::empty()
    } else {
        let before = outputs_in(list, n - 1);
        match (list[n - 1].unsigned_field("id"@), list[n - 1].text_field("output"@)) {
            (Some(id), Some(name)) => before.insert(id, name),
            _ => before,
        }
    }
}

/// The output of each workspace in what niri printed.
pub open spec fn outputs_said(bytes: Seq<u8>) -> core::result::Result<
    Map<u64, Seq<char>>,
    ErrorView,
> {
    match list_reading(bytes) {
        Ok(list) => Ok(outputs_in(list, list.len() as int)),
        Err(why) => Err(ErrorView::NiriScreenshot("niri's workspace list is not JSON: "@ + why)),
    }
}

/// The texts of a map.
pub open spec fn named(map: Map<u64, String>) -> Map<u64, Seq<char>> {
    map.map_values(|name: String| name@)
}

/// The output of each workspace in a list.
pub fn workspace_outputs(list: &Vec<Json>) -> (outputs: HashMap<u64, String>)
    ensures
        named(outputs@) == outputs_in(trees(list@), list@.len() as int),
{
    broadcast use vstd::std_specs::hash::group_hash_axioms;

    let mut outputs: HashMap<u64, String> = HashMap::new();
    assert(named(outputs@) =~= outputs_in(trees(list@), 0));
    let mut i: usize = 0;
    while i < list.len()
        invariant
            i <= list@.len(),
            named(outputs@) == outputs_in(trees(list@), i as int),
        decreases list.len() - i,
    {
        let value = &list[i];
        assert(trees(list@)[i as int] == value@);
        if let (Some(id), Some(name)) = (
            value.unsigned_field("id"),
            value.text_field("output"),
        ) {
            let ghost before = outputs@;
            let name = name.to_owned();
            outputs.insert(id, name);
            assert(named(outputs@) =~= named(before).insert(id, name@));
        }
        i = i + 1;
    }
    outputs
}

/// Reads the output of each workspace from what `niri msg --json workspaces`
/// printed.
pub fn parse_workspace_outputs(bytes: &[u8]) -> (outputs: Result<HashMap<u64, String>>)
    ensures
        match outputs {
            Ok(outputs) => outputs_said(bytes@) == Ok::<Map<u64, Seq<char>>, ErrorView>(
                named(outputs@),
            ),
            Err(error) => outputs_said(bytes@) == Err::<Map<u64, Seq<char>>, ErrorView>(error@),
        },
{
    match parse_list(bytes) {
        Ok(list) => {
            assert(trees(list@).len() == list@.len());
            Ok(workspace_outputs(&list))
        },
        Err(why) => Err(
            VshotError::NiriScreenshot(
                concat2("niri's workspace list is not JSON: ", why.as_str()),
            ),
        ),
    }
}

/// The scale of an output, rounded to whole device pixels per logical pixel; a
/// disabled output has none.
pub open spec fn scale_in(output: Tree) -> Option<u32> {
    match output.field("logical"@) {
        Some(logical) => match logical.double_field("scale"@) {
            Some(bits) => if ONE <= bits < INFINITY {
                Some(at_most(rounded_number(bits), u32::MAX as int) as u32)
            } else if bits == INFINITY {
                Some(u32::MAX)
            } else {
                None
            },
            None => None,
        },
        None => None,
    }
}

/// The scales of the outputs among the first `n` members that have one.
pub open spec fn scales_in(outputs: Seq<(Seq<char>, Tree)>, n: int) -> Seq<(Seq<char>, u32)>
    decreases n,
{
    if n <= 0 {
        Seq::empty()
    } else {
        let before = scales_in(outputs, n - 1);
        match scale_in(outputs[n - 1].1) {
            Some(scale) => before.push((outputs[n - 1].0, scale)),
            None => before,
        }
    }
}

/// The scale of each output in the document niri prints.
pub open spec fn output_scales_in(value: Tree) -> core::result::Result<
    Seq<(Seq<char>, u32)>,
    ErrorView,
> {
    match value.members() {
        Some(outputs) => Ok(scales_in(outputs, outputs.len() as int)),
        None => Err(
            ErrorView::NiriScreenshot(
                "niri's output list is not an object keyed by output name"@,
            ),
        ),
    }
}

/// The scale of each output in what niri printed.
pub open spec fn scales_said(bytes: Seq<u8>) -> core::result::Result<
    Seq<(Seq<char>, u32)>,
    ErrorView,
> {
    match reading(bytes) {
        Ok(value) => output_scales_in(value),
        Err(why) => Err(ErrorView::NiriScreenshot("niri's output list is not JSON: "@ + why)),
    }
}

/// The names and scales of a list.
pub open spec fn rated(scales: Seq<(String, u32)>) -> Seq<(Seq<char>, u32)> {
    Seq::new(scales.len(), |i: int| (scales[i].0@, scales[i].1))
}

/// Whether a result holds the scales that were to come out.
pub open spec fn holds_scales(
    scales: core::result::Result<Vec<(String, u32)>, VshotError>,
    outcome: core::result::Result<Seq<(Seq<char>, u32)>, ErrorView>,
) -> bool {
    match scales {
        Ok(scales) => outcome == Ok::<Seq<(Seq<char>, u32)>, ErrorView>(rated(scales@)),
        Err(error) => outcome == Err::<Seq<(Seq<char>, u32)>, ErrorView>(error@),
    }
}

fn read_scale(output: &Json) -> (scale: Option<u32>)
    ensures
        scale == scale_in(output@),
{
    let bits: u64 = match output.get("logical") {
        Some(logical) => match logical.double_field("scale") {
            Some(bits) => bits,
            None => {
                return None;
            },
        },
        None => {
            return None;
        },
    };
    if bits == INFINITY {
        Some(u32::MAX)
    } else if ONE <= bits && bits < INFINITY {
        let rounded: u64 = round_number(bits);
        if rounded > u32::MAX as u64 {
            Some(u32::MAX)
        } else {
            Some(rounded as u32)
        }
    } else {
        None
    }
}

/// The scale of each output in a document, in its order.
pub fn output_scales(value: &Json) -> (scales: Result<Vec<(String, u32)>>)
    ensures
        holds_scales(scales, output_scales_in(value@)),
{
    let outputs = match value.as_object() {
        Some(outputs) => outputs,
        None => {
            return Err(
                VshotError::NiriScreenshot(
                    "niri's output list is not an object keyed by output name".to_owned(),
                ),
            );
        },
    };
    let ghost all = member_trees(outputs@);
    let mut scales: Vec<(String, u32)> = Vec::new();
    assert(rated(scales@) =~= scales_in(all, 0));
    let mut i: usize = 0;
    while i < outputs.len()
        invariant
            all == member_trees(outputs@),
            i <= outputs@.len(),
            rated(scales@) == scales_in(all, i as int),
        decreases outputs.len() - i,
    {
        assert(all[i as int] == (outputs@[i as int].0@, outputs@[i as int].1@));
        if let Some(scale) = read_scale(&outputs[i].1) {
            let ghost before = scales@;
            let name = outputs[i].0.clone();
            scales.push((name, scale));
            assert(rated(scales@) =~= rated(before).push((name@, scale)));
        }
        i = i + 1;
    }
    Ok(scales)
}

/// Reads the scale of each output from what `niri msg --json outputs` printed.
pub fn parse_output_scales(bytes: &[u8]) -> (scales: Result<Vec<(String, u32)>>)
    ensures
        holds_scales(scales, scales_said(bytes@)),
{
    match parse_json(bytes) {
        Ok(value) => output_scales(&value),
        Err(why) => Err(
            VshotError::NiriScreenshot(concat2("niri's output list is not JSON: ", why.as_str())),
        ),
    }
}

// ---------------------------------------------------------------------------
// Asking niri
// ---------------------------------------------------------------------------
/// What a failed program said, or how it exited when it said nothing.
pub open spec fn complaint(command: Seq<char>, output: CommandOutput) -> Seq<char> {
    let said = trimmed(lossy_text(output.stderr@));
    if said.len() == 0 {
        "`"@ + command + "` exited with "@ + output.status@
    } else {
        said
    }
}

fn describe_failure(command: &str, output: &CommandOutput) -> (text: String)
    ensures
        text@ == complaint(command@, *output),
{
    let said = trim(read_lossy(output.stderr.as_slice()).as_str());
    if said.as_str().is_empty() {
        let mut text = concat3("`", command, "` exited with ");
        text.append(output.status.as_str());
        text
    } else {
        said
    }
}

/// What a question to niri brought: what it printed, or why there is nothing.
pub open spec fn printed(reply: Reply) -> core::result::Result<Seq<u8>, ErrorView> {
    match reply {
        Err(error) => Err(error@),
        Ok(output) => if output.success {
            Ok(output.stdout@)
        } else {
            Err(ErrorView::NiriScreenshot(complaint("niri"@, output)))
        },
    }
}

/// What a question to niri brought.
pub fn judge_reply(reply: Result<CommandOutput>) -> (bytes: Result<Vec<u8>>)
    ensures
        match bytes {
            Ok(bytes) => printed(reply) == Ok::<Seq<u8>, ErrorView>(bytes@),
            Err(error) => printed(reply) == Err::<Seq<u8>, ErrorView>(error@),
        },
{
    let output = match reply {
        Ok(output) => output,
        Err(error) => {
            return Err(error);
        },
    };
    if output.success {
        Ok(output.stdout)
    } else {
        Err(VshotError::NiriScreenshot(describe_failure("niri", &output)))
    }
}

/// The window niri answers a question with.
pub open spec fn window_told(reply: Reply, what: Seq<char>) -> core::result::Result<
    Option<WindowFacts>,
    ErrorView,
> {
    match printed(reply) {
        Ok(bytes) => window_said(bytes, what),
        Err(error) => Err(error),
    }
}

/// Reads the window niri answered a question with.
pub fn judge_window(reply: Result<CommandOutput>, what: &str) -> (window: Result<
    Option<NiriWindow>,
>)
    ensures
        holds_window(window, window_told(reply, what@)),
{
    match judge_reply(reply) {
        Ok(bytes) => parse_window(bytes.as_slice(), what),
        Err(error) => Err(error),
    }
}

/// The focused window; none where something else has the focus.
pub fn focused_window<R: WindowCommandRunner>(runner: &R) -> (window: Result<Option<NiriWindow>>)
    ensures
        exists|reply: Reply|
            holds_window(window, #[trigger] window_told(reply, "focused-window"@)) && answered(
                runner,
                niri_question("focused-window"@),
                reply,
            ),
{
    let reply = ask(runner, &niri_command("focused-window"));
    let window = judge_window(reply, "focused-window");
    assert(holds_window(window, window_told(reply, "focused-window"@)));
    window
}

/// The window the user picks with niri's own picker; none where the pick was
/// cancelled.
pub fn pick_window<R: WindowCommandRunner>(runner: &R) -> (window: Result<Option<NiriWindow>>)
    ensures
        exists|reply: Reply|
            holds_window(window, #[trigger] window_told(reply, "pick-window"@)) && answered(
                runner,
                niri_question("pick-window"@),
                reply,
            ),
{
    let reply = ask(runner, &niri_command("pick-window"));
    let window = judge_window(reply, "pick-window");
    assert(holds_window(window, window_told(reply, "pick-window"@)));
    window
}

/// The scale under a name, the last one where there are more.
pub open spec fn scale_named(scales: Seq<(Seq<char>, u32)>, name: Seq<char>, n: int) -> Option<u32>
    decreases n,
{
    if n <= 0 {
        None
    } else if scales[n - 1].0 == name {
        Some(scales[n - 1].1)
    } else {
        scale_named(scales, name, n - 1)
    }
}

/// The output of a window and its scale, from what niri says of its workspaces
/// and its outputs.
pub open spec fn placement_told(
    workspace: Option<u64>,
    workspaces: Reply,
    outputs: Reply,
) -> core::result::Result<Option<(Seq<char>, u32)>, ErrorView> {
    match workspace {
        None => Ok(None),
        Some(id) => match printed(workspaces) {
            Err(error) => Err(error),
            Ok(bytes) => match outputs_said(bytes) {
                Err(error) => Err(error),
                Ok(names) => if !names.dom().contains(id) {
                    Ok(None)
                } else {
                    match printed(outputs) {
                        Err(error) => Err(error),
                        Ok(bytes) => match scales_said(bytes) {
                            Err(error) => Err(error),
                            Ok(scales) => match scale_named(
                                scales,
                                names[id],
                                scales.len() as int,
                            ) {
                                Some(scale) => Ok(Some((names[id], scale))),
                                None => Ok(None),
                            },
                        },
                    }
                },
            },
        },
    }
}

/// Whether a result is the placement that these replies give.
pub open spec fn placed_by(
    window: WindowFacts,
    workspaces: Reply,
    outputs: Reply,
    placement: core::result::Result<Option<(String, u32)>, VshotError>,
) -> bool {
    let expected = placement_told(window.workspace_id, workspaces, outputs);
    match placement {
        Ok(Some((name, scale))) => expected == Ok::<Option<(Seq<char>, u32)>, ErrorView>(
            Some((name@, scale)),
        ),
        Ok(None) => expected == Ok::<Option<(Seq<char>, u32)>, ErrorView>(None),
        Err(error) => expected == Err::<Option<(Seq<char>, u32)>, ErrorView>(error@),
    }
}

fn find_scale(scales: &Vec<(String, u32)>, name: &str) -> (scale: Option<u32>)
    ensures
        scale == scale_named(rated(scales@), name@, scales@.len() as int),
{
    let mut n: usize = scales.len();
    while n > 0
        invariant
            n <= scales@.len(),
            scale_named(rated(scales@), name@, n as int) == scale_named(
                rated(scales@),
                name@,
                scales@.len() as int,
            ),
        decreases n,
    {
        assert(rated(scales@)[n - 1] == (scales@[n - 1].0@, scales@[n - 1].1));
        if same_text(scales[n - 1].0.as_str(), name) {
            return Some(scales[n - 1].1);
        }
        n = n - 1;
    }
    None
}

/// The output a window is on, from niri's answer about its workspaces.
fn judge_workspaces(reply: Result<CommandOutput>, id: u64) -> (name: Result<Option<String>>)
    ensures
        match name {
            Err(error) => match printed(reply) {
                Err(said) => said == error@,
                Ok(bytes) => outputs_said(bytes) == Err::<Map<u64, Seq<char>>, ErrorView>(error@),
            },
            Ok(name) => {
                &&& printed(reply) is Ok
                &&& outputs_said(printed(reply)->Ok_0) is Ok
                &&& {
                    let names = outputs_said(printed(reply)->Ok_0)->Ok_0;
                    match name {
                        Some(name) => names.dom().contains(id) && names[id] == name@,
                        None => !names.dom().contains(id),
                    }
                }
            },
        },
{
    broadcast use vstd::std_specs::hash::group_hash_axioms;

    let bytes = match judge_reply(reply) {
        Ok(bytes) => bytes,
        Err(error) => {
            return Err(error);
        },
    };
    match parse_workspace_outputs(bytes.as_slice()) {
        Ok(mut outputs) => Ok(outputs.remove(&id)),
        Err(error) => Err(error),
    }
}

/// The scale of an output, from niri's answer about its outputs.
fn judge_outputs(reply: Result<CommandOutput>, name: &str) -> (scale: Result<Option<u32>>)
    ensures
        match scale {
            Err(error) => match printed(reply) {
                Err(said) => said == error@,
                Ok(bytes) => scales_said(bytes) == Err::<Seq<(Seq<char>, u32)>, ErrorView>(error@),
            },
            Ok(scale) => {
                &&& printed(reply) is Ok
                &&& scales_said(printed(reply)->Ok_0) is Ok
                &&& {
                    let scales = scales_said(printed(reply)->Ok_0)->Ok_0;
                    scale == scale_named(scales, name@, scales.len() as int)
                }
            },
        },
{
    let bytes = match judge_reply(reply) {
        Ok(bytes) => bytes,
        Err(error) => {
            return Err(error);
        },
    };
    match parse_output_scales(bytes.as_slice()) {
        Ok(scales) => Ok(find_scale(&scales, name)),
        Err(error) => Err(error),
    }
}

/// The reply names the output of a workspace.
pub open spec fn names_output(workspaces: Reply, id: u64) -> bool {
    &&& printed(workspaces) matches Ok(bytes)
    &&& outputs_said(bytes) matches Ok(names)
    &&& names.dom().contains(id)
}

/// The replies are the runner's to what niri is asked for a window's place: its
/// workspaces where the window is on one, and its outputs where that workspace
/// is on one.
pub open spec fn place_asked<R: WindowCommandRunner>(
    runner: &R,
    workspace: Option<u64>,
    workspaces: Reply,
    outputs: Reply,
) -> bool {
    workspace matches Some(id) ==> {
        &&& answered(runner, niri_question("workspaces"@), workspaces)
        &&& names_output(workspaces, id) ==> answered(runner, niri_question("outputs"@), outputs)
    }
}

/// The output a window sits on and the scale of that output; none where niri
/// cannot place the window.
pub fn window_scale<R: WindowCommandRunner>(runner: &R, window: &NiriWindow) -> (placement: Result<
    Option<(String, u32)>,
>)
    ensures
        exists|workspaces: Reply, outputs: Reply| #[trigger]
            placed_by(window@, workspaces, outputs, placement) && place_asked(
                runner,
                window.workspace_id,
                workspaces,
                outputs,
            ),
        window.workspace_id is None ==> placement == Ok::<Option<(String, u32)>, VshotError>(None),
{
    let ghost nothing: Reply = Err(VshotError::CaptureTimeout);
    let id: u64 = match window.workspace_id {
        Some(id) => id,
        None => {
            assert(placed_by(window@, nothing, nothing, Ok(None)));
            return Ok(None);
        },
    };
    let workspaces = ask(runner, &niri_command("workspaces"));
    let name = match judge_workspaces(workspaces, id) {
        Ok(Some(name)) => name,
        Ok(None) => {
            assert(placed_by(window@, workspaces, nothing, Ok(None)));
            return Ok(None);
        },
        Err(error) => {
            assert(placed_by(window@, workspaces, nothing, Err(error)));
            return Err(error);
        },
    };
    let outputs = ask(runner, &niri_command("outputs"));
    let placement: Result<Option<(String, u32)>> = match judge_outputs(outputs, name.as_str()) {
        Ok(Some(scale)) => Ok(Some((name, scale))),
        Ok(None) => Ok(None),
        Err(error) => Err(error),
    };
    assert(placed_by(window@, workspaces, outputs, placement));
    placement
}

// ---------------------------------------------------------------------------
// A picture of a window
// ---------------------------------------------------------------------------
/// The arguments that make niri write a picture of a window to a file, with or
/// without the pointer.
pub open spec fn screenshot_arguments(id: u64, path: Seq<u8>, cursor: bool) -> Seq<Seq<char>> {
    let plain = seq![
        "msg"@,
        "action"@,
        "screenshot-window"@,
        "--id"@,
        decimal_text(id as int),
        "--write-to-disk"@,
        "true"@,
        "--path"@,
        lossy_text(path),
    ];
    if cursor {
        plain + seq!["--show-pointer"@, "true"@]
    } else {
        plain
    }
}

/// The command that makes niri write a picture of a window to a file.
pub fn command_for_window(id: u64, path: &FilePath, cursor: bool) -> (command: WindowCommand)
    ensures
        command@ == ("niri"@, screenshot_arguments(id, path@, cursor)),
{
    let mut args = vec![
        "msg".to_owned(),
        "action".to_owned(),
        "screenshot-window".to_owned(),
        "--id".to_owned(),
        format_u64(id),
        "--write-to-disk".to_owned(),
        "true".to_owned(),
        "--path".to_owned(),
        read_lossy(path.bytes.as_slice()),
    ];
    assert(texts(args@) =~= screenshot_arguments(id, path@, false));
    if cursor {
        args.push("--show-pointer".to_owned());
        args.push("true".to_owned());
        assert(texts(args@) =~= screenshot_arguments(id, path@, true));
    }
    WindowCommand { program: "niri".to_owned(), args }
}

/// Whether a niri refused the request because it does not know how to draw the
/// pointer.
pub open spec fn knows_no_pointer(stderr: Seq<u8>) -> bool {
    has_part(lossy_text(stderr), "unexpected argument"@) && has_part(
        lossy_text(stderr),
        "show-pointer"@,
    )
}

/// Whether a niri refused the request because it does not know how to draw the
/// pointer.
pub fn rejects_show_pointer(output: &CommandOutput) -> (rejects: bool)
    ensures
        rejects == knows_no_pointer(output.stderr@),
{
    let stderr = read_lossy(output.stderr.as_slice());
    contains_text(stderr.as_str(), "unexpected argument") && contains_text(
        stderr.as_str(),
        "show-pointer",
    )
}

/// Whether a picture with the pointer is to be asked for again without it.
pub open spec fn without_pointer(first: Reply, cursor: bool) -> bool {
    &&& cursor
    &&& first matches Ok(output)
    &&& !output.success
    &&& knows_no_pointer(output.stderr@)
}

/// What asking for a picture came to, when it failed.
pub open spec fn refusal(reply: Reply) -> Option<ErrorView> {
    match reply {
        Err(error) => Some(error@),
        Ok(output) => if output.success {
            None
        } else {
            Some(
                ErrorView::NiriScreenshot(complaint("niri msg action screenshot-window"@, output)),
            )
        },
    }
}

/// Whether this is what comes of asking for a picture when these are niri's
/// replies, the second one to the request without the pointer: whether the
/// pointer had to be left out, or why there is no picture.
pub open spec fn picture_asked(
    first: Reply,
    second: Reply,
    cursor: bool,
    asked: core::result::Result<bool, VshotError>,
) -> bool {
    let again = without_pointer(first, cursor);
    match refusal(if again { second } else { first }) {
        None => asked == Ok::<bool, VshotError>(again),
        Some(error) => asked matches Err(said) && said@ == error,
    }
}

/// Whether to ask again without the pointer, or what the first request came
/// to.
pub fn judge_screenshot(reply: Result<CommandOutput>, cursor: bool) -> (asked: Option<Result<()>>)
    ensures
        match asked {
            None => without_pointer(reply, cursor),
            Some(asked) => !without_pointer(reply, cursor) && match asked {
                Ok(_) => refusal(reply) is None,
                Err(error) => refusal(reply) == Some(error@),
            },
        },
{
    let output = match reply {
        Ok(output) => output,
        Err(error) => {
            return Some(Err(error));
        },
    };
    if output.success {
        Some(Ok(()))
    } else if cursor && rejects_show_pointer(&output) {
        None
    } else {
        Some(
            Err(
                VshotError::NiriScreenshot(
                    describe_failure("niri msg action screenshot-window", &output),
                ),
            ),
        )
    }
}

/// The replies are the runner's to the request for a picture, the second one to
/// the request without the pointer where that is made.
pub open spec fn picture_requested<R: WindowCommandRunner>(
    runner: &R,
    id: u64,
    path: Seq<u8>,
    cursor: bool,
    first: Reply,
    second: Reply,
) -> bool {
    &&& answered(runner, ("niri"@, screenshot_arguments(id, path, cursor)), first)
    &&& without_pointer(first, cursor) ==> answered(
        runner,
        ("niri"@, screenshot_arguments(id, path, false)),
        second,
    )
}

/// Makes niri write a picture of a window to a file.  A niri that cannot draw
/// the pointer is asked again without it, which the result says.
pub fn request_screenshot<R: WindowCommandRunner>(
    runner: &R,
    id: u64,
    path: &FilePath,
    cursor: bool,
) -> (asked: Result<bool>)
    ensures
        exists|first: Reply, second: Reply| #[trigger]
            picture_asked(first, second, cursor, asked) && picture_requested(
                runner,
                id,
                path@,
                cursor,
                first,
                second,
            ),
{
    let first = ask(runner, &command_for_window(id, path, cursor));
    match judge_screenshot(first, cursor) {
        Some(Ok(_)) => {
            assert(picture_asked(first, first, cursor, Ok(false)));
            Ok(false)
        },
        Some(Err(error)) => {
            assert(picture_asked(first, first, cursor, Err(error)));
            Err(error)
        },
        None => {
            let second = ask(runner, &command_for_window(id, path, false));
            let asked: Result<bool> = match judge_screenshot(second, false) {
                Some(Ok(_)) => Ok(true),
                Some(Err(error)) => Err(error),
                None => Ok(true),
            };
            assert(picture_asked(first, second, cursor, asked));
            asked
        },
    }
}

/// What a look at the file niri writes to found.
#[derive(Debug)]
pub enum FileRead {
    /// A whole picture.
    Picture(Frame),
    /// Nothing yet, or only part of a picture.
    Unfinished,
    /// The file cannot be read, and why.
    Failed(String),
}

/// What becomes of the wait for the picture after a look at its file: nothing
/// yet, or its end.
pub open spec fn wait_over(read: FileRead, expired: bool, path: Seq<u8>, seconds: u64) -> Option<
    core::result::Result<Frame, ErrorView>,
> {
    match read {
        FileRead::Picture(frame) => Some(Ok(frame)),
        FileRead::Failed(why) => Some(
            Err(
                ErrorView::NiriScreenshot(
                    "cannot read the screenshot niri wrote to "@ + lossy_text(path) + ": "@ + why@,
                ),
            ),
        ),
        FileRead::Unfinished => if expired {
            Some(
                Err(
                    ErrorView::NiriScreenshot(
                        "niri did not write a window screenshot to "@ + lossy_text(path)
                            + " within "@ + decimal_text(seconds as int) + "s"@,
                    ),
                ),
            )
        } else {
            None
        },
    }
}

/// What becomes of the wait for the picture: `None` is to look again.  A
/// picture that is there counts even when the time is over.
pub fn wait_step(read: FileRead, expired: bool, path: &FilePath, seconds: u64) -> (over: Option<
    Result<Frame>,
>)
    ensures
        match over {
            Some(over) => {
                &&& wait_over(read, expired, path@, seconds) is Some
                &&& settles(over, wait_over(read, expired, path@, seconds)->Some_0)
            },
            None => wait_over(read, expired, path@, seconds) is None,
        },
{
    match read {
        FileRead::Picture(frame) => Some(Ok(frame)),
        FileRead::Failed(why) => {
            let mut text = concat3(
                "cannot read the screenshot niri wrote to ",
                read_lossy(path.bytes.as_slice()).as_str(),
                ": ",
            );
            text.append(why.as_str());
            Some(Err(VshotError::NiriScreenshot(text)))
        },
        FileRead::Unfinished => {
            if !expired {
                return None;
            }
            let mut text = concat3(
                "niri did not write a window screenshot to ",
                read_lossy(path.bytes.as_slice()).as_str(),
                " within ",
            );
            text.append(format_u64(seconds).as_str());
            text.append("s");
            Some(Err(VshotError::NiriScreenshot(text)))
        },
    }
}

// ---------------------------------------------------------------------------
// What holds of all of it
// ---------------------------------------------------------------------------
/// A window that niri does not place, as is every tiled one, has no origin and
/// no tile on the screen.
pub proof fn law_a_tiled_window_has_no_place(
    window: WindowFacts,
    picture: (u32, u32),
    scale: u32,
)
    requires
        window.tile_pos_in_workspace_view is None,
    ensures
        window.origin(scale) is None,
        window.tile(picture, scale) is None,
{
}

/// A tile is exactly its window with the border around it: what is left of it
/// without the border is the picture without its margin.
pub proof fn law_a_tile_is_its_window_and_the_border(
    window: WindowFacts,
    picture: (u32, u32),
    scale: u32,
)
    ensures
        window.tile(picture, scale) matches Some(tile) ==> {
            &&& window.margins(picture, scale) matches Some(m)
            &&& tile.size.width - 2 * m.2 == picture.0 - 2 * m.0
            &&& tile.size.height - 2 * m.3 == picture.1 - 2 * m.1
            &&& 2 * m.0 <= picture.0
            &&& 2 * m.1 <= picture.1
        },
{
    if let Some(tile) = window.tile(picture, scale) {
        let (offset, size) = (window.offset_in_tile->Some_0, window.tile_size->Some_0);
        lemma_margin_fits(offset.0, size.0, picture.0, scale);
        lemma_margin_fits(offset.1, size.1, picture.1, scale);
    }
}

/// A shadow does not move the tile: whatever pictures of a window are measured
/// against, they give the same tile.
pub proof fn law_a_shadow_does_not_move_the_tile(
    window: WindowFacts,
    a: (u32, u32),
    b: (u32, u32),
    scale: u32,
)
    requires
        window.margins(a, scale) is Some,
        window.margins(b, scale) is Some,
    ensures
        window.tile(a, scale) == window.tile(b, scale),
{
    let (offset, size) = (window.offset_in_tile->Some_0, window.tile_size->Some_0);
    lemma_margin_fits(offset.0, size.0, a.0, scale);
    lemma_margin_fits(offset.1, size.1, a.1, scale);
    lemma_margin_fits(offset.0, size.0, b.0, scale);
    lemma_margin_fits(offset.1, size.1, b.1, scale);
}

proof fn lemma_margin_fits(offset: u64, tile: u64, picture: u32, scale: u32)
    ensures
        margins_along(offset, tile, picture, scale) matches Some(m) ==> picture - 2 * m.0
            == clamped(in_device_pixels(nearest(units(tile) - 2 * units(offset)), scale))
            && 2 * m.0 <= picture,
{
    let window = nearest(units(tile) - 2 * units(offset));
    if window > 0 {
        assert(window * factor(scale) >= 0) by (nonlinear_arith)
            requires
                window > 0,
                factor(scale) >= 1,
        ;
        lemma_rounds_up_from_zero(window * factor(scale));
    }
}

/// A socket belongs to one display: it names no two that differ in their file
/// name.
pub proof fn law_a_socket_names_one_display(
    socket: Seq<char>,
    display: Seq<char>,
    other: Seq<char>,
)
    requires
        names_display(socket, display),
        names_display(socket, other),
    ensures
        file_name(display) == file_name(other),
{
}

/// The pointer is left out only of a picture that was asked for with it, and
/// only when niri refused to draw it.
pub proof fn law_the_pointer_is_not_dropped_lightly(first: Reply, second: Reply, cursor: bool)
    requires
        picture_asked(first, second, cursor, Ok(true)),
    ensures
        cursor,
        first matches Ok(output) && !output.success && knows_no_pointer(output.stderr@),
        second matches Ok(output) && output.success,
{
}

/// A picture that has arrived ends the wait, however late it is.
pub proof fn law_a_late_picture_is_still_a_picture(
    frame: Frame,
    expired: bool,
    path: Seq<u8>,
    seconds: u64,
)
    ensures
        wait_over(FileRead::Picture(frame), expired, path, seconds) == Some(
            Ok::<Frame, ErrorView>(frame),
        ),
{
}

/// A window has the number, the names, the workspace and the three places that
/// the document has under those keys, and a label of its two names; there is
/// one exactly where the document is not null and has a number.
pub proof fn law_a_window_is_read_from_its_own_members(value: Tree, what: Seq<char>)
    ensures
        value is Null <==> window_in(value, what) == Ok::<Option<WindowFacts>, ErrorView>(None),
        !(value is Null) ==> (window_in(value, what) is Ok <==> value.unsigned_field("id"@) is Some),
        window_in(value, what) matches Ok(Some(window)) ==> {
            &&& value.unsigned_field("id"@) == Some(window.id)
            &&& window.workspace_id == value.unsigned_field("workspace_id"@)
            &&& value.text_field("app_id"@) matches Some(text) ==> window.app_id == text
            &&& value.text_field("app_id"@) is None ==> window.app_id.len() == 0
            &&& value.text_field("title"@) matches Some(text) ==> window.title == text
            &&& value.text_field("title"@) is None ==> window.title.len() == 0
            &&& window.label == label_of(window.app_id, window.title)
            &&& pair_as_written(window.tile_size, value, "tile_size"@)
            &&& pair_as_written(window.offset_in_tile, value, "window_offset_in_tile"@)
            &&& pair_as_written(
                window.tile_pos_in_workspace_view,
                value,
                "tile_pos_in_workspace_view"@,
            )
        },
{
}

/// The pair is the two numbers the layout has under the key, the first one
/// first; none where there are not exactly two.
pub open spec fn pair_as_written(pair: Option<(u64, u64)>, value: Tree, key: Seq<char>) -> bool {
    match pair {
        Some((first, second)) => {
            &&& value.field("layout"@) matches Some(layout)
            &&& layout.items_field(key) matches Some(items)
            &&& items.len() == 2
            &&& items[0].double() == Some(first)
            &&& items[1].double() == Some(second)
        },
        None => value.field("layout"@) matches Some(layout) ==> (layout.items_field(key) matches Some(
            items,
        ) ==> items.len() != 2 || items[0].double() is None || items[1].double() is None),
    }
}

/// The output of a workspace is the one its last entry names: an entry that
/// names an output counts unless a later one with the same number does too.
pub proof fn law_a_workspace_is_on_the_output_its_last_entry_names(
    list: Seq<Tree>,
    id: u64,
    at: int,
)
    requires
        forall|i: int|
            at < i < list.len() && 0 <= i ==> !names_workspace(#[trigger] list[i], id),
    ensures
        0 <= at < list.len() && names_workspace(list[at], id) ==> {
            &&& outputs_in(list, list.len() as int).dom().contains(id)
            &&& list[at].text_field("output"@) == Some(outputs_in(list, list.len() as int)[id])
        },
        at < 0 ==> !outputs_in(list, list.len() as int).dom().contains(id),
{
    lemma_last_entry(list, id, at, list.len() as int);
}

/// An entry with this number that names an output.
pub open spec fn names_workspace(entry: Tree, id: u64) -> bool {
    entry.unsigned_field("id"@) == Some(id) && entry.text_field("output"@) is Some
}

proof fn lemma_last_entry(list: Seq<Tree>, id: u64, at: int, n: int)
    requires
        0 <= n <= list.len(),
        forall|i: int| at < i < n && 0 <= i ==> !names_workspace(#[trigger] list[i], id),
    ensures
        0 <= at < n && names_workspace(list[at], id) ==> {
            &&& outputs_in(list, n).dom().contains(id)
            &&& list[at].text_field("output"@) == Some(outputs_in(list, n)[id])
        },
        at < 0 ==> !outputs_in(list, n).dom().contains(id),
    decreases n,
{
    if n > 0 {
        if at < n - 1 {
            assert(!names_workspace(list[n - 1], id));
            lemma_last_entry(list, id, at, n - 1);
        }
    }
}

/// An output has the scale its layout names, to the nearest whole number: it
/// has one exactly where the layout names one that is not below one.
pub proof fn law_a_scale_is_the_one_the_layout_names(output: Tree)
    ensures
        scale_in(output) is Some <==> (output.field("logical"@) matches Some(logical)
            && logical.double_field("scale"@) is Some && ONE <= logical.double_field("scale"@)->0
            <= INFINITY),
        scale_in(output) matches Some(scale) ==> {
            let bits = output.field("logical"@)->0.double_field("scale"@)->0;
            &&& bits == INFINITY ==> scale == u32::MAX
            &&& bits < INFINITY && rounded_number(bits) <= u32::MAX ==> scale == rounded_number(
                bits,
            )
            &&& bits < INFINITY && rounded_number(bits) > u32::MAX ==> scale == u32::MAX
        },
{
    if scale_in(output) is Some {
        law_a_number_is_rounded_to_the_nearest_integer(
            output.field("logical"@)->0.double_field("scale"@)->0,
        );
    }
}

/// The scale of a name is the one of the last output that goes by it, as that
/// output's own layout names it; none where no output of that name has one.
pub proof fn law_a_name_has_the_scale_of_its_own_output(
    outputs: Seq<(Seq<char>, Tree)>,
    name: Seq<char>,
    at: int,
)
    requires
        forall|i: int|
            at < i < outputs.len() && 0 <= i ==> !((#[trigger] outputs[i]).0 == name && scale_in(
                outputs[i].1,
            ) is Some),
    ensures
        ({
            let scales = scales_in(outputs, outputs.len() as int);
            &&& 0 <= at < outputs.len() && outputs[at].0 == name && scale_in(outputs[at].1) is Some
                ==> scale_named(scales, name, scales.len() as int) == scale_in(outputs[at].1)
            &&& at < 0 ==> scale_named(scales, name, scales.len() as int) is None
        }),
{
    lemma_scale_of_name(outputs, name, at, outputs.len() as int);
}

proof fn lemma_scale_of_name(outputs: Seq<(Seq<char>, Tree)>, name: Seq<char>, at: int, n: int)
    requires
        0 <= n <= outputs.len(),
        forall|i: int|
            at < i < n && 0 <= i ==> !((#[trigger] outputs[i]).0 == name && scale_in(outputs[i].1)
                is Some),
    ensures
        ({
            let scales = scales_in(outputs, n);
            &&& 0 <= at < n && outputs[at].0 == name && scale_in(outputs[at].1) is Some
                ==> scale_named(scales, name, scales.len() as int) == scale_in(outputs[at].1)
            &&& at < 0 ==> scale_named(scales, name, scales.len() as int) is None
        }),
    decreases n,
{
    if n > 0 {
        let before = scales_in(outputs, n - 1);
        let scales = scales_in(outputs, n);
        if scale_in(outputs[n - 1].1) is Some {
            assert(scales.last() == (outputs[n - 1].0, scale_in(outputs[n - 1].1)->0));
            lemma_scale_prefix(before, scales, name, before.len() as int);
        }
        if at < n - 1 {
            assert(!(outputs[n - 1].0 == name && scale_in(outputs[n - 1].1) is Some));
            lemma_scale_of_name(outputs, name, at, n - 1);
        }
    }
}

proof fn lemma_scale_prefix(
    a: Seq<(Seq<char>, u32)>,
    b: Seq<(Seq<char>, u32)>,
    name: Seq<char>,
    n: int,
)
    requires
        0 <= n <= a.len() <= b.len(),
        forall|i: int| 0 <= i < a.len() ==> #[trigger] a[i] == b[i],
    ensures
        scale_named(a, name, n) == scale_named(b, name, n),
    decreases n,
{
    if n > 0 {
        assert(a[n - 1] == b[n - 1]);
        lemma_scale_prefix(a, b, name, n - 1);
    }
}

/// A window is placed on the output of its own workspace, at that output's own
/// scale; it is placed whenever niri answers both questions and knows both.
pub proof fn law_a_window_is_placed_on_its_workspaces_output(
    workspace: Option<u64>,
    workspaces: Reply,
    outputs: Reply,
)
    ensures
        placement_told(workspace, workspaces, outputs) matches Ok(Some((name, scale))) ==> {
            &&& workspace matches Some(id)
            &&& workspaces matches Ok(first)
            &&& first.success
            &&& outputs matches Ok(second)
            &&& second.success
            &&& list_reading(first.stdout@) matches Ok(list)
            &&& outputs_in(list, list.len() as int).dom().contains(id)
            &&& outputs_in(list, list.len() as int)[id] == name
            &&& reading(second.stdout@) matches Ok(Tree::Object(members))
            &&& scale_named(
                scales_in(members, members.len() as int),
                name,
                scales_in(members, members.len() as int).len() as int,
            ) == Some(scale)
        },
        workspace is None ==> placement_told(workspace, workspaces, outputs) == Ok::<
            Option<(Seq<char>, u32)>,
            ErrorView,
        >(None),
{
}

/// A number of whole logical pixels.
pub open spec fn is_whole(bits: u64, n: int) -> bool {
    is_finite(bits) && units(bits) == n * pow2(1074)
}

/// A window at a whole logical position starts at that position and the width
/// of its border, times the scale.
pub proof fn law_a_window_at_whole_pixels_starts_at_them_times_the_scale(
    position: u64,
    offset: u64,
    p: int,
    o: int,
    scale: u32,
)
    requires
        is_whole(position, p),
        is_whole(offset, o),
        scale >= 1,
        i32::MIN <= (p + o) * scale <= i32::MAX,
    ensures
        origin_along(position, offset, scale) == Some(((p + o) * scale) as i32),
{
    let one = pow2(1074) as int;
    assert(p * one + o * one == (p + o) * one) by (nonlinear_arith);
    lemma_whole_pixels(p + o, scale);
}

/// Of a window whose tile and border are whole logical pixels, a picture
/// reaches past the window by the same on both sides, and the border is as wide
/// as it is times the scale.
pub proof fn law_the_margins_of_whole_pixels(
    offset: u64,
    tile: u64,
    o: int,
    t: int,
    picture: u32,
    scale: u32,
)
    requires
        is_whole(offset, o),
        is_whole(tile, t),
        scale >= 1,
        0 <= o,
        2 * o < t,
        t * scale <= i32::MAX,
    ensures
        match margins_along(offset, tile, picture, scale) {
            Some((excess, border)) => {
                &&& picture == (t - 2 * o) * scale + 2 * excess
                &&& border == o * scale
            },
            None => picture < (t - 2 * o) * scale || (picture - (t - 2 * o) * scale) % 2 == 1,
        },
{
    let one = pow2(1074) as int;
    let s = scale as int;
    vstd::arithmetic::power2::lemma_pow2_pos(1074);
    assert(t * one - 2 * (o * one) == (t - 2 * o) * one) by (nonlinear_arith);
    assert(0 <= (t - 2 * o) * s <= t * s && 0 <= o * s <= t * s) by (nonlinear_arith)
        requires
            0 <= o,
            2 * o < t,
            s >= 1,
    ;
    assert((t - 2 * o) * one > 0) by (nonlinear_arith)
        requires
            t - 2 * o > 0,
            one > 0,
    ;
    assert(o * one >= 0) by (nonlinear_arith)
        requires
            o >= 0,
            one > 0,
    ;
    lemma_whole_pixels(t - 2 * o, scale);
    lemma_whole_pixels(o, scale);
}

/// Whole logical pixels are whole device pixels, multiplied by the scale.
proof fn lemma_whole_pixels(n: int, scale: u32)
    requires
        scale >= 1,
        -0x8000_0000 <= n * scale <= 0x8000_0000,
    ensures
        nearest(n * pow2(1074)) == n * pow2(1074),
        in_device_pixels(n * pow2(1074), scale) == n * scale,
{
    let one = pow2(1074) as int;
    let s = scale as int;
    vstd::arithmetic::power2::lemma_pow2_pos(1074);
    vstd::arithmetic::power2::lemma_pow2_pos(1073);
    vstd::arithmetic::power2::lemma_pow2_unfold(1074);
    assert(-0x8000_0000 <= n <= 0x8000_0000) by (nonlinear_arith)
        requires
            s >= 1,
            -0x8000_0000 <= n * s <= 0x8000_0000,
    ;
    lemma_whole_is_exact(n);
    lemma_whole_is_exact(n * s);
    assert(n * one * s == n * s * one) by (nonlinear_arith);
    let m = if n < 0 {
        -(n * s)
    } else {
        n * s
    };
    if n < 0 {
        assert(n * s < 0) by (nonlinear_arith)
            requires
                n < 0,
                s >= 1,
        ;
    } else {
        assert(n * s >= 0) by (nonlinear_arith)
            requires
                n >= 0,
                s >= 1,
        ;
    }
    assert((n * s) * one < 0 <==> n < 0) by (nonlinear_arith)
        requires
            one > 0,
            (n < 0 && n * s < 0) || (n >= 0 && n * s >= 0),
    ;
    assert(m * one == one * m && -((n * s) * one) == (-(n * s)) * one) by (nonlinear_arith);
    vstd::arithmetic::div_mod::lemma_fundamental_div_mod_converse(
        m * one + pow2(1073),
        one,
        m,
        pow2(1073) as int,
    );
}

/// Rounding to 53 digits leaves whole numbers of that size alone.
proof fn lemma_whole_is_exact(n: int)
    requires
        -0x8000_0000 <= n <= 0x8000_0000,
    ensures
        nearest(n * pow2(1074)) == n * pow2(1074),
{
    let one = pow2(1074) as int;
    vstd::arithmetic::power2::lemma_pow2_pos(1074);
    vstd::arithmetic::power2::lemma2_to64();
    let m = if n < 0 {
        -n
    } else {
        n
    };
    assert(-(n * one) == (-n) * one) by (nonlinear_arith);
    assert(n * one < 0 <==> n < 0) by (nonlinear_arith)
        requires
            one > 0,
    ;
    lemma_exact_from(m, 0);
}

proof fn lemma_exact_from(m: int, k: nat)
    requires
        0 <= m <= 0x8000_0000,
        k <= 1074,
    ensures
        to_53_digits(m * pow2(1074), pow2(k) as int) == m * pow2(1074),
    decreases 1074 - k,
{
    let (one, unit) = (pow2(1074) as int, pow2(k) as int);
    let n = m * one;
    vstd::arithmetic::power2::lemma_pow2_pos(k);
    if n < unit * 0x20_0000_0000_0000 {
        let rest = pow2((1074 - k) as nat) as int;
        vstd::arithmetic::power2::lemma_pow2_adds(k, (1074 - k) as nat);
        assert(n == unit * (m * rest)) by (nonlinear_arith)
            requires
                n == m * one,
                one == unit * rest,
        ;
        vstd::arithmetic::div_mod::lemma_fundamental_div_mod_converse(n, unit, m * rest, 0);
        assert((m * rest) * unit == n) by (nonlinear_arith)
            requires
                n == unit * (m * rest),
        ;
    } else {
        if k == 1074 {
            assert(m * one < one * 0x20_0000_0000_0000) by (nonlinear_arith)
                requires
                    m <= 0x8000_0000,
                    one > 0,
            ;
        }
        vstd::arithmetic::power2::lemma_pow2_unfold((k + 1) as nat);
        lemma_exact_from(m, k + 1);
    }
}

/// niri is asked for the very window, to write it to the very file, and for the
/// pointer exactly where that is wanted; leaving the pointer out changes nothing
/// else.
pub proof fn law_a_picture_is_asked_for_by_number_and_path(id: u64, path: Seq<u8>, cursor: bool)
    ensures
        ({
            let arguments = screenshot_arguments(id, path, cursor);
            &&& arguments[3] == "--id"@ && arguments[4] == decimal_text(id as int)
            &&& arguments[7] == "--path"@ && arguments[8] == lossy_text(path)
            &&& cursor ==> arguments.len() == 11 && arguments[9] == "--show-pointer"@
                && arguments[10] == "true"@
            &&& !cursor ==> arguments.len() == 9
            &&& arguments.take(9) == screenshot_arguments(id, path, false)
        }),
{
    assert(screenshot_arguments(id, path, cursor).take(9) =~= screenshot_arguments(
        id,
        path,
        false,
    ));
}

/// A picture that niri wrote at once was written as it was asked for; a request
/// that failed for another reason than the pointer fails, and is not repeated.
pub proof fn law_a_request_is_repeated_only_for_the_pointer(
    first: Reply,
    second: Reply,
    cursor: bool,
    asked: core::result::Result<bool, VshotError>,
)
    requires
        picture_asked(first, second, cursor, asked),
    ensures
        first matches Ok(output) && output.success ==> asked == Ok::<bool, VshotError>(false),
        asked == Ok::<bool, VshotError>(false) ==> (first matches Ok(output) && output.success),
        first is Err ==> asked is Err,
        !cursor && (first matches Ok(output) && !output.success) ==> asked is Err,
{
}

/// The wait goes on exactly while there is no whole picture and there is time;
/// a file that cannot be read ends it at once.
pub proof fn law_the_wait_ends_with_a_picture_or_the_time(
    read: FileRead,
    expired: bool,
    path: Seq<u8>,
    seconds: u64,
)
    ensures
        wait_over(read, expired, path, seconds) is None <==> read is Unfinished && !expired,
        wait_over(read, expired, path, seconds) matches Some(Ok(frame)) ==> read
            == FileRead::Picture(frame),
        read is Failed ==> (wait_over(read, expired, path, seconds) matches Some(Err(_))),
{
}

/// A socket that niri names after a display is recognised, in whichever
/// directory the two are: it is called `niri`, the display's name, the process
/// number and `sock`.
pub proof fn law_a_socket_of_a_display_is_recognised(
    directory: Seq<char>,
    name: Seq<char>,
    pid: u64,
)
    requires
        name.len() > 0,
        !name.contains('/'),
        !name.contains('.'),
    ensures
        names_display(
            directory.push('/') + ("niri"@.push('.') + (name.push('.') + (decimal_text(
                pid as int,
            ).push('.') + "sock"@))),
            name,
        ),
        names_display(
            "niri"@.push('.') + (name.push('.') + (decimal_text(pid as int).push('.') + "sock"@)),
            directory.push('/') + name,
        ),
{
    let digits = decimal_text(pid as int);
    let tail = digits.push('.') + "sock"@;
    let rest = name.push('.') + tail;
    let socket = "niri"@.push('.') + rest;
    reveal_strlit("niri");
    reveal_strlit("sock");
    reveal_strlit(".");
    reveal_strlit("..");
    lemma_decimal_text_is_solid(pid as int);
    lemma_digits_only(pid);
    assert(!digits.contains('.') && !digits.contains('/'));
    assert(!"sock"@.contains('.') && !"sock"@.contains('/'));
    assert(!"niri"@.contains('.') && !"niri"@.contains('/'));
    lemma_pieces_of_joined("sock"@, '.', Seq::empty());
    lemma_pieces_of_joined(digits, '.', "sock"@);
    lemma_pieces_of_joined(name, '.', tail);
    lemma_pieces_of_joined("niri"@, '.', rest);
    assert(pieces(socket, '.') =~= seq!["niri"@, name, digits, "sock"@]);
    assert(!tail.contains('/')) by {
        lemma_no_slash(digits, '.', "sock"@);
    }
    assert(!rest.contains('/')) by {
        lemma_no_slash(name, '.', tail);
    }
    assert(!socket.contains('/')) by {
        lemma_no_slash("niri"@, '.', rest);
    }
    assert(socket[0] == 'n' && socket.len() > 2);
    assert(name[0] != '.') by {
        if name[0] == '.' {
            assert(name.contains('.'));
        }
    }
    lemma_file_name(directory, socket);
    lemma_file_name(directory, name);
}

proof fn lemma_digits_only(pid: u64)
    ensures
        only_digits(decimal_text(pid as int)),
        decimal_text(pid as int).len() > 0,
        !decimal_text(pid as int).contains('.'),
        !decimal_text(pid as int).contains('/'),
{
    let text = decimal_text(pid as int);
    lemma_decimal_text_is_solid(pid as int);
    lemma_no_minus(pid as nat);
    assert forall|i: int| 0 <= i < text.len() implies is_digit(#[trigger] text[i]) by {}
}

proof fn lemma_no_minus(n: nat)
    ensures
        forall|i: int| 0 <= i < natural_text(n).len() ==> is_digit(#[trigger] natural_text(n)[i]),
    decreases n,
{
    let last = ('0' as int + n % 10) as char;
    assert(is_digit(last));
    if n >= 10 {
        lemma_no_minus(n / 10);
        let before = natural_text(n / 10);
        assert forall|i: int| 0 <= i < natural_text(n).len() implies is_digit(
            #[trigger] natural_text(n)[i],
        ) by {
            if i < before.len() {
                assert(natural_text(n)[i] == before[i]);
            }
        }
    }
}

proof fn lemma_no_slash(a: Seq<char>, middle: char, b: Seq<char>)
    requires
        !a.contains('/'),
        !b.contains('/'),
        middle != '/',
    ensures
        !(a.push(middle) + b).contains('/'),
{
    let all = a.push(middle) + b;
    assert forall|i: int| 0 <= i < all.len() implies #[trigger] all[i] != '/' by {
        if i < a.len() {
            assert(all[i] == a[i]);
        } else if i > a.len() {
            assert(all[i] == b[i - a.len() - 1]);
        }
    }
}

/// The name behind the last slash is the file's, and so is a name without one.
proof fn lemma_file_name(directory: Seq<char>, name: Seq<char>)
    requires
        name.len() > 0,
        !name.contains('/'),
        name[0] != '.',
    ensures
        file_name(directory.push('/') + name) == Some(name),
        file_name(name) == Some(name),
{
    reveal_strlit(".");
    reveal_strlit("..");
    assert("."@[0] == '.' && ".."@[0] == '.');
    lemma_pieces_of_joined(directory, '/', name);
    lemma_pieces_of_joined(name, '/', Seq::empty());
    let parts = pieces(directory.push('/') + name, '/');
    assert(parts.last() == name);
}

/// What niri printed counts only if it ended well; else its failure does.
pub proof fn law_a_failed_question_says_nothing(reply: Reply)
    ensures
        printed(reply) is Ok <==> (reply matches Ok(output) && output.success),
        printed(reply) matches Ok(bytes) ==> (reply matches Ok(output) && bytes == output.stdout@),
        refusal(reply) is None <==> (reply matches Ok(output) && output.success),
        reply matches Err(error) ==> refusal(reply) == Some(error@),
{
}

/// A niri does not know the pointer exactly where it complains of an argument
/// it did not expect and names the pointer's.
pub proof fn law_when_niri_knows_no_pointer(stderr: Seq<u8>)
    ensures
        !has_part(lossy_text(stderr), "unexpected argument"@) ==> !knows_no_pointer(stderr),
        !has_part(lossy_text(stderr), "show-pointer"@) ==> !knows_no_pointer(stderr),
        has_part(lossy_text(stderr), "unexpected argument"@) && has_part(
            lossy_text(stderr),
            "show-pointer"@,
        ) ==> knows_no_pointer(stderr),
{
}

/// A rectangle is made of exactly the numbers it is given, where they are in
/// the range of one.
pub proof fn law_a_rectangle_is_made_of_its_numbers(x: int, y: int, width: int, height: int)
    ensures
        rect_of(x, y, width, height) is Some <==> {
            &&& -0x8000_0000 <= x <= 0x7fff_ffff
            &&& -0x8000_0000 <= y <= 0x7fff_ffff
            &&& 0 <= width <= 0xffff_ffff
            &&& 0 <= height <= 0xffff_ffff
        },
        rect_of(x, y, width, height) matches Some(rect) ==> rect.origin.x == x && rect.origin.y == y
            && rect.size.width == width && rect.size.height == height,
{
}

} // verus!
