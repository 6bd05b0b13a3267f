use std::cell::RefCell;
use std::collections::VecDeque;

use vshot::capture::niri::{
    focused_window, owns_this_connection, parse_output_scales, parse_window,
    parse_workspace_outputs, pick_window, request_screenshot, socket_names_display, wait_step, window_scale, FileRead, NiriWindow,
};
use vshot::capture::niri_composite::{Event, Note, Stage, Want};
use vshot::capture::window::{CommandOutput, WindowCommand, WindowCommandRunner};
use vshot::error::Result;
use vshot::geometry::{Point, Rect, Size};
use vshot::model::Frame;
use vshot::path::FilePath;

/// A focused tiled window, shaped exactly like niri's `Window` — notice
/// `tile_pos_in_workspace_view: null`, which is what makes the rect route
/// impossible and the screenshot route the answer.
const FOCUSED_TILED: &str = r#"{
    "id": 12,
    "title": "t w",
    "app_id": "Alacritty",
    "pid": 4242,
    "workspace_id": 6,
    "is_focused": true,
    "is_floating": false,
    "is_urgent": false,
    "layout": {
        "pos_in_scrolling_layout": [1, 1],
        "tile_size": [800.0, 600.0],
        "window_size": [796, 596],
        "tile_pos_in_workspace_view": null,
        "window_offset_in_tile": [2.0, 2.0]
    },
    "focus_timestamp": {"secs": 1234, "nanos": 0}
}"#;

const FLOATING: &str = r#"{
    "id": 13,
    "title": "floating",
    "app_id": "kitty",
    "workspace_id": 6,
    "is_focused": false,
    "is_floating": true,
    "is_urgent": false,
    "layout": {
        "pos_in_scrolling_layout": null,
        "tile_size": [400.0, 300.0],
        "window_size": [400, 300],
        "tile_pos_in_workspace_view": [100.5, 200.0],
        "window_offset_in_tile": [0.0, 0.0]
    },
    "focus_timestamp": null
}"#;

const WORKSPACES: &str = r#"[
    {"id": 6, "idx": 1, "name": null, "output": "DP-2", "is_urgent": false,
     "is_active": true, "active_window_id": 12},
    {"id": 7, "idx": 2, "name": null, "output": "HDMI-A-1", "is_urgent": false,
     "is_active": false, "active_window_id": null}
]"#;

const OUTPUTS: &str = r#"{
    "DP-2": {
        "name": "DP-2", "make": "Dell", "model": "U2720Q", "serial": "abc",
        "physical_size": [600, 340], "modes": [], "current_mode": 0,
        "is_custom_mode": false, "vrr_supported": false, "vrr_enabled": false,
        "logical": {"x": 0, "y": 0, "width": 2560, "height": 1440, "scale": 2.0,
                    "transform": "Normal"},
        "max_bpc": 10
    },
    "HDMI-A-1": {
        "name": "HDMI-A-1", "make": "Dell", "model": "U2415", "serial": "def",
        "physical_size": [520, 320], "modes": [], "current_mode": 0,
        "is_custom_mode": false, "vrr_supported": false, "vrr_enabled": false,
        "logical": {"x": 2560, "y": 0, "width": 1920, "height": 1200, "scale": 1.0,
                    "transform": "Normal"},
        "max_bpc": 8
    }
}"#;

#[test]
fn parses_a_focused_tiled_window() {
    let window = parse_window(FOCUSED_TILED.as_bytes(), "focused-window")
        .unwrap()
        .expect("a window is focused");
    assert_eq!(window.id, 12);
    assert_eq!(window.label, "Alacritty — t w");
    assert_eq!(window.workspace_id, Some(6));
}

#[test]
fn the_socket_names_the_display_it_was_created_for() {
    assert!(socket_names_display(
        "/run/user/1000/niri.wayland-1.2474.sock",
        "wayland-1"
    ));
    assert!(socket_names_display("niri.wayland-2.9.sock", "wayland-2"));
    // `WAYLAND_DISPLAY` is allowed to be the absolute path of the socket,
    // in which case niri named its own after the file name it used.
    assert!(socket_names_display(
        "/run/user/1000/niri.wayland-1.7.sock",
        "/run/user/1000/wayland-1"
    ));
}

#[test]
fn another_displays_socket_is_not_ours() {
    // The nesting that matters: a compositor inside niri inherits the outer
    // `NIRI_SOCKET`, whose name carries the outer display.
    assert!(!socket_names_display(
        "/run/user/1000/niri.wayland-1.2474.sock",
        "wayland-2"
    ));
    // `wayland-1` is a prefix of `wayland-11`: components are compared, not
    // prefixes, so the socket of the other display never passes.
    assert!(!socket_names_display(
        "/run/user/1000/niri.wayland-11.44.sock",
        "wayland-1"
    ));
    assert!(!socket_names_display(
        "sway-ipc.1000.2474.sock",
        "wayland-1"
    ));
    // Names that only look like niri's: no display, no pid, no socket.
    assert!(!socket_names_display(
        "/run/user/1000/niri.sock",
        "wayland-1"
    ));
    assert!(!socket_names_display("niri.wayland-1.sock", "wayland-1"));
    assert!(!socket_names_display("niri.wayland-1.x.sock", "wayland-1"));
    assert!(!socket_names_display("niri.wayland-1.7.log", "wayland-1"));
    assert!(!socket_names_display("niri.wayland-1.7.sock", ""));
    assert!(!socket_names_display("", "wayland-1"));
}

#[test]
fn a_rounded_floating_window_is_read_the_same_way() {
    let window = parse_window(FLOATING.as_bytes(), "pick-window")
        .unwrap()
        .expect("a window was picked");
    assert_eq!(window.id, 13);
    assert_eq!(window.label, "kitty — floating");
}

#[test]
fn no_window_is_an_answer_and_not_a_failure() {
    // `niri msg --json focused-window` prints `null` when a layer-shell
    // surface holds the focus, and `pick-window` prints it on Esc.
    assert_eq!(parse_window(b"null", "focused-window").unwrap(), None);
    assert_eq!(parse_window(b"null\n", "pick-window").unwrap(), None);
}

#[test]
fn unknown_fields_are_ignored() {
    // niri adds fields between releases and keeps the old ones, so a reply
    // from a newer compositor must still parse.
    let json = r#"{"id": 21, "app_id": "foot", "title": "shell", "workspace_id": 6,
                   "is_window_cast_target": false, "something_new": {"nested": [1, 2]}}"#;
    let window = parse_window(json.as_bytes(), "focused-window")
        .unwrap()
        .expect("a window is focused");
    assert_eq!(window.id, 21);
    assert_eq!(window.label, "foot — shell");
}

#[test]
fn a_window_without_an_id_is_a_failure() {
    let error = parse_window(b"{\"app_id\": \"foot\"}", "focused-window").unwrap_err();
    assert!(error.message().contains("no window id"), "{error:?}");
}

#[test]
fn the_windows_output_comes_from_its_workspace() {
    let runner = ScriptedRunner::new()
        .replying("msg --json workspaces", WORKSPACES.as_bytes())
        .replying("msg --json outputs", OUTPUTS.as_bytes());
    let window = parse_window(FOCUSED_TILED.as_bytes(), "focused-window")
        .unwrap()
        .unwrap();
    assert_eq!(
        window_scale(&runner, &window).unwrap(),
        Some(("DP-2".to_owned(), 2))
    );

    let floating = parse_window(FLOATING.as_bytes(), "focused-window")
        .unwrap()
        .unwrap();
    assert_eq!(
        window_scale(&runner, &floating).unwrap(),
        Some(("DP-2".to_owned(), 2)),
        "the floating window is on the same workspace"
    );
}

#[test]
fn a_fractional_scale_is_rounded_like_kwins() {
    let outputs = r#"{"eDP-1": {"logical": {"scale": 1.25}}}"#;
    assert_eq!(
        parse_output_scales(outputs.as_bytes()).unwrap(),
        [("eDP-1".to_owned(), 1)]
    );
}

#[test]
fn a_disabled_output_has_no_scale() {
    // niri leaves `logical` out for an output it is not driving.
    let outputs = r#"{"DP-3": {"name": "DP-3", "current_mode": null}}"#;
    assert!(parse_output_scales(outputs.as_bytes()).unwrap().is_empty());
}

#[test]
fn a_window_on_no_workspace_cannot_be_placed() {
    let runner = ScriptedRunner::new();
    let window = NiriWindow {
        id: 5,
        label: String::new(),
        app_id: String::new(),
        title: String::new(),
        workspace_id: None,
        tile_size: None,
        offset_in_tile: None,
        tile_pos_in_workspace_view: None,
    };
    assert_eq!(window_scale(&runner, &window).unwrap(), None);
    assert!(runner.asked().is_empty(), "nothing worth asking about");
}

#[test]
fn the_screenshot_asks_for_the_id_and_an_absolute_path() {
    let runner = ScriptedRunner::new().writes_png();
    let window = NiriWindow {
        id: 12,
        label: String::new(),
        app_id: String::new(),
        title: String::new(),
        workspace_id: Some(6),
        tile_size: None,
        offset_in_tile: None,
        tile_pos_in_workspace_view: None,
    };
    capture_window(&runner, &window, false).unwrap();

    let asked = runner.asked();
    assert_eq!(asked.len(), 1, "{asked:?}");
    assert_eq!(asked[0][0], "niri");
    let (path, head) = asked[0].split_last().expect("a path is always passed");
    assert_eq!(
        head[1..].to_vec(),
        vec![
            "msg",
            "action",
            "screenshot-window",
            "--id",
            "12",
            "--write-to-disk",
            "true",
            "--path"
        ]
    );
    assert!(
        path.starts_with('/'),
        "niri rejects a relative path: {path}"
    );
    assert!(path.ends_with(".png"), "{path}");
}

#[test]
fn the_cursor_is_asked_for_only_when_it_is_wanted() {
    let runner = ScriptedRunner::new().writes_png();
    let window = NiriWindow {
        id: 12,
        label: String::new(),
        app_id: String::new(),
        title: String::new(),
        workspace_id: Some(6),
        tile_size: None,
        offset_in_tile: None,
        tile_pos_in_workspace_view: None,
    };
    capture_window(&runner, &window, true).unwrap();
    assert!(runner.asked()[0].contains(&"--show-pointer".to_owned()));
}

#[test]
fn a_niri_without_show_pointer_still_gives_its_picture() {
    // 25.11 has no `show-pointer` on this action, and clap refuses the
    // whole request rather than ignoring the argument.
    let runner = ScriptedRunner::new()
        .failing(
            "--show-pointer",
            "error: unexpected argument '--show-pointer' found",
        )
        .writes_png();
    let window = NiriWindow {
        id: 12,
        label: String::new(),
        app_id: String::new(),
        title: String::new(),
        workspace_id: Some(6),
        tile_size: None,
        offset_in_tile: None,
        tile_pos_in_workspace_view: None,
    };
    let frame = capture_window(&runner, &window, true).unwrap();
    assert_eq!(frame.size(), Size::new(40, 30));

    let asked = runner.asked();
    assert_eq!(asked.len(), 2, "the pointer request is retried without it");
    assert!(!asked[1].contains(&"--show-pointer".to_owned()));
    assert!(asked[1].contains(&"--id".to_owned()));
}

#[test]
fn a_half_written_screenshot_is_waited_through() {
    // niri encodes on a thread and writes the file in one go, so a reader
    // can catch it empty or cut in half; only a whole PNG may be returned.
    let runner = ScriptedRunner::new().writes_partial_png_then_the_rest();
    let window = NiriWindow {
        id: 12,
        label: String::new(),
        app_id: String::new(),
        title: String::new(),
        workspace_id: Some(6),
        tile_size: None,
        offset_in_tile: None,
        tile_pos_in_workspace_view: None,
    };
    let frame = capture_window(&runner, &window, false).unwrap();
    assert_eq!(frame.size(), Size::new(40, 30));
}

#[test]
fn a_niri_that_never_writes_says_so() {
    let runner = ScriptedRunner::new(); // succeeds, writes nothing
    let window = NiriWindow {
        id: 12,
        label: String::new(),
        app_id: String::new(),
        title: String::new(),
        workspace_id: Some(6),
        tile_size: None,
        offset_in_tile: None,
        tile_pos_in_workspace_view: None,
    };
    let error = capture_window(&runner, &window, false).unwrap_err();
    assert!(error.message().contains("did not write"), "{error:?}");
}

#[test]
fn a_failed_action_reports_niris_own_words() {
    let runner = ScriptedRunner::new().failing("", "error: window 99 does not exist");
    let window = NiriWindow {
        id: 99,
        label: String::new(),
        app_id: String::new(),
        title: String::new(),
        workspace_id: Some(6),
        tile_size: None,
        offset_in_tile: None,
        tile_pos_in_workspace_view: None,
    };
    let error = capture_window(&runner, &window, false).unwrap_err();
    assert!(error.message().contains("does not exist"), "{error:?}");
}

/// The grab closure's screen: a plain desktop with `window` composited at
/// (20, 30), the way the compositor would.
fn screen_showing(window: &Frame, at: Point) -> Frame {
    screen_of(Size::new(400, 300), window, at)
}

/// [`screen_showing`] on a screen of the caller's size, for a window placed
/// at a position a 400×300 output cannot hold.
fn screen_of(screen_size: Size, window: &Frame, at: Point) -> Frame {
    let mut pixels = Vec::new();
    for _ in 0..screen_size.width * screen_size.height {
        pixels.extend_from_slice(&[240, 240, 240, 255]);
    }
    for y in 0..window.size().height {
        for x in 0..window.size().width {
            let Some(color) = window.pixel(Point::new(x as i32, y as i32))
            else {
                continue;
            };
            let (x, y) = (at.x as usize + x as usize, at.y as usize + y as usize);
            let index = (y * screen_size.width as usize + x) * 4;
            let alpha = u32::from(color[3]);
            for channel in 0..3 {
                let mixed = u32::from(color[channel]) * alpha
                    + u32::from(pixels[index + channel]) * (255 - alpha);
                pixels[index + channel] = ((mixed + 127) / 255) as u8;
            }
        }
    }
    Frame::new(screen_size, pixels).unwrap()
}

fn placed_window() -> NiriWindow {
    NiriWindow {
        id: 12,
        label: String::new(),
        app_id: String::new(),
        title: String::new(),
        workspace_id: Some(6),
        tile_size: None,
        offset_in_tile: None,
        tile_pos_in_workspace_view: None,
    }
}

/// A window with niri's tile geometry: a 940x1012 window inside a
/// 948x1020 tile, i.e. a 4-logical-pixel border on every side.  Those are
/// the numbers a live niri reports for a focused tiled window with
/// `border { width 4 }`.
fn bordered_window() -> NiriWindow {
    NiriWindow {
        tile_size: Some(pair(948.0, 1020.0)),
        offset_in_tile: Some(pair(4.0, 4.0)),
        ..placed_window()
    }
}

/// A floating window, which has a position and the same border.
fn floating_window() -> NiriWindow {
    NiriWindow {
        tile_pos_in_workspace_view: Some(pair(598.5, 38.5)),
        ..bordered_window()
    }
}

#[test]
fn a_floating_windows_position_is_turned_into_its_render_origin() {
    // 598.5 logical + the 4-logical border, at scale 2, is device pixel 1205.
    assert_eq!(floating_window().render_origin(2), Some((1205, 85)));
    // At scale 1 the same window rounds the 602.5 logical position up, the
    // way `round` takes halves away from zero.
    assert_eq!(floating_window().render_origin(1), Some((603, 43)));
}

#[test]
fn a_tiled_window_states_no_position_of_its_own() {
    // niri fills `tile_pos_in_workspace_view` only for the floating space;
    // a tiled window leaves it unset and the render has to be located on a
    // capture instead.
    assert_eq!(bordered_window().render_origin(2), None);
    assert_eq!(
        bordered_window().tile_rect((1880, 2024), 2),
        None,
        "no position, no tile rectangle"
    );
}

#[test]
fn a_floating_windows_tile_rectangle_wraps_its_border_around_the_position() {
    // The render is the window surface (1880x2024), and the tile adds the
    // 8-device-pixel border on every side, reaching back from the surface
    // position: origin (1205-8, 85-8) = (1197, 77), size 1880+16 x 2024+16.
    assert_eq!(
        floating_window().tile_rect((1880, 2024), 2),
        Some(Rect::new(1197, 77, 1896, 2040))
    );
}

#[test]
fn a_floating_window_off_its_output_is_not_placed() {
    // A window niri reports off the output cannot be cropped from it; the
    // caller falls back to the render instead of inventing a rectangle.
    let window = NiriWindow {
        tile_pos_in_workspace_view: Some(pair(-5000.0, 38.5)),
        ..bordered_window()
    };
    let rect = window.tile_rect((1880, 2024), 2).expect("still arithmetic");
    assert_eq!(
        rect.intersection(Rect::new(0, 0, 1920, 1080)),
        None,
        "a rectangle off the output does not intersect it"
    );
}

#[test]
fn a_position_that_is_not_a_number_is_not_a_position() {
    let window = NiriWindow {
        tile_pos_in_workspace_view: Some(pair(f64::NAN, 38.5)),
        ..bordered_window()
    };
    assert_eq!(window.render_origin(2), None);
}

#[test]
fn a_floating_window_is_cropped_at_the_position_niri_stated() {
    // The whole point: on the output, a floating window is cropped where
    // niri says it is, with no search at all.  The screen is a plain
    // desktop with the window's (flat) render composited at the position
    // niri called out, which is a frame a template match cannot place — the
    // window is mostly one colour.
    let window = floating_window();
    let render = frame_of_size(1880, 2024, [200, 194, 180, 204]);
    let at = Point::new(1205, 85);
    let screen = screen_of(Size::new(3840, 2160), &render, at);
    let runner = ScriptedRunner::new()
        .replying("workspaces", WORKSPACES.as_bytes())
        .replying("outputs", OUTPUTS.as_bytes())
        .writes_png_sequence(vec![render.clone(), render.clone()]);
    let got = capture_composited(&screen, &runner, &window)
    .unwrap();
    // The tile is the render plus the border on every side.
    assert_eq!(got.size(), Size::new(1896, 2040));
    assert_eq!(
        screenshot_requests(&runner),
        1,
        "a placed window is cropped straight away, with no retry"
    );
    assert_eq!(
        got.pixel(Point::new(10, 10)),
        Some([208, 203, 192, 255]),
        "the crop is the screen's own pixels where niri placed the window — the flat \
         render composited over the desktop ((200·204 + 240·51)/255 = 208)"
    );
}

/// A frame of one colour, all of it opaque once composited.
fn frame_of_size(width: u32, height: u32, color: [u8; 4]) -> Frame {
    Frame::solid(Size::new(width, height), color).unwrap()
}

/// A window render that carries structure — two blocks of unique pixels —
/// so a stated position can be verified against it, and a search for it
/// has one right answer rather than many.  The blocks sit far apart on both
/// axes, so neither the horizontal nor the vertical position can drift.
fn textured_float_render() -> Frame {
    let (width, height) = (1880u32, 2024u32);
    let mut pixels = Vec::with_capacity(width as usize * height as usize * 4);
    for y in 0..height {
        for x in 0..width {
            let in_block = (20..40).contains(&y) && (100..140).contains(&x)
                || (1980..2000).contains(&y) && (900..940).contains(&x);
            if in_block {
                // Every pixel distinct, so only the true position matches.
                let value = ((x * 7 + y * 13) % 251) as u8;
                pixels.extend_from_slice(&[
                    value,
                    value.wrapping_mul(3),
                    value.wrapping_add(9),
                    255,
                ]);
            } else {
                pixels.extend_from_slice(&[200, 194, 180, 204]);
            }
        }
    }
    Frame::new(Size::new(width, height), pixels).unwrap()
}

#[test]
fn a_stale_stated_position_falls_back_to_searching_for_the_render() {
    // The stated position comes from a different moment than the grab: here
    // the window has since been dragged 300 device pixels right.  Using the
    // stale position would crop the desktop where the window *was*, so the
    // verification has to reject it and the search has to take over — and
    // the search finds the window where it really is.
    let window = floating_window();
    let render = textured_float_render();
    let at = Point::new(1505, 85);
    let screen = screen_of(Size::new(3840, 2160), &render, at);
    let runner = ScriptedRunner::new()
        .replying("workspaces", WORKSPACES.as_bytes())
        .replying("outputs", OUTPUTS.as_bytes())
        .writes_png_sequence(vec![render.clone(), render.clone()]);
    let got = capture_composited(&screen, &runner, &window)
    .unwrap();
    // The crop follows the search, so it sits at the moved position rather
    // than the stated one: the tile is the render plus its border, and the
    // render's unique block is present at the offset the move implies.  (An
    // exact byte comparison would be too strict: the refinement searches
    // whole device pixels around the coarse winner and may settle one
    // pixel off, which is well inside the border.)
    assert_eq!(got.size(), Size::new(1896, 2040));
    // The block lives at (100..140, 20..40) inside the render, so within
    // the tile it starts 8 device pixels further in on each axis.  If the
    // crop had used the stale position, the window would be 300 device
    // pixels away and this block would not be here.
    let block = got
        .pixel(Point::new(108 + 10, 28 + 5))
        .expect("the tile holds the block");
    assert_ne!(
        block,
        [208, 203, 192, 255],
        "the crop is the window, not the flat desktop where it was"
    );
    assert_eq!(block[3], 255, "the block is opaque");
}

#[test]
fn a_verified_stated_position_is_used_without_a_search() {
    // The complementary half: the render *is* where niri said it is, so the
    // verification passes and the stated position is used.  One screenshot
    // is asked for — the crop itself needs none — and the result is the
    // stated rectangle, not a searched-for one.
    let window = floating_window();
    let render = textured_float_render();
    let at = Point::new(1205, 85);
    let screen = screen_of(Size::new(3840, 2160), &render, at);
    let runner = ScriptedRunner::new()
        .replying("workspaces", WORKSPACES.as_bytes())
        .replying("outputs", OUTPUTS.as_bytes())
        .writes_png_sequence(vec![render.clone()]);
    let got = capture_composited(&screen, &runner, &window)
    .unwrap();
    let expected = screen
        .crop(Rect::new(1197, 77, 1896, 2040))
        .expect("the stated tile is inside the screen");
    assert_eq!(got.pixels(), expected.pixels());
    assert_eq!(
        screenshot_requests(&runner),
        1,
        "the render is handed over once, before the verification"
    );
}

#[test]
fn a_render_without_padding_grows_to_the_tile_by_its_border() {
    // The 25.11-236 render is the window surface exactly: 940x1012 logical
    // at scale 2 is 1880x2024 device pixels, and the 4-logical-pixel border
    // is 8 device pixels on each side.
    let (inset_x, inset_y, border_x, border_y) = bordered_window()
        .tile_from_render((1880, 2024), 2)
        .expect("a bordered window has a computable tile");
    assert_eq!(
        (inset_x, inset_y),
        (0, 0),
        "the render is the window itself"
    );
    assert_eq!((border_x, border_y), (8, 8), "4 logical pixels at scale 2");
}

#[test]
fn a_shadowed_render_is_inset_before_the_border_grows_out() {
    // With a 12px shadow on every side the located rectangle is 24px larger
    // on each axis; that has to come off before the border goes on.
    let (inset_x, inset_y, border_x, border_y) = bordered_window()
        .tile_from_render((1880 + 24, 2024 + 24), 2)
        .expect("a shadowed render still describes the tile");
    assert_eq!((inset_x, inset_y), (12, 12), "the shadow is not the window");
    assert_eq!((border_x, border_y), (8, 8));
}

#[test]
fn a_shadow_does_not_move_the_tile() {
    // A 12px shadow on every side of a 940x1012 window: the tile is the one
    // that niri states, with and without it.
    let window = NiriWindow {
        tile_pos_in_workspace_view: Some(pair(100.0, 50.0)),
        ..bordered_window()
    };
    let tile = Some(Rect::new(100, 50, 948, 1020));
    assert_eq!(window.tile_rect((940, 1012), 1), tile);
    assert_eq!(window.tile_rect((964, 1036), 1), tile);
    // At scale 2, and with a shadow that differs between the axes.
    let tile = Some(Rect::new(1197, 77, 1896, 2040));
    assert_eq!(floating_window().tile_rect((1904, 2048), 2), tile);
    assert_eq!(floating_window().tile_rect((1880, 2044), 2), tile);
}

/// An opaque window of 1880x2024, made of tiles of which no two are alike, with
/// a translucent shadow of 12 pixels around it.
fn shadowed_float_render() -> Frame {
    let (width, height) = (1880u32, 2024u32);
    let mut pixels = Vec::new();
    for y in 0..height + 24 {
        for x in 0..width + 24 {
            if (12..width + 12).contains(&x) && (12..height + 12).contains(&y) {
                let row = (y - 12) / 13;
                let column = (x - 12 + row * 5) / 17;
                let mixed = (column * 256 + row).wrapping_mul(0x9e37_79b1);
                pixels.extend_from_slice(&[
                    (mixed >> 24) as u8,
                    (mixed >> 16) as u8,
                    (mixed >> 8) as u8,
                    255,
                ]);
            } else {
                pixels.extend_from_slice(&[0, 0, 0, 64]);
            }
        }
    }
    Frame::new(Size::new(width + 24, height + 24), pixels).unwrap()
}

#[test]
fn a_render_is_compared_where_the_window_starts() {
    // A shadow in the picture makes it start before the window, so it is not
    // found at the window's own start, and the search takes over.
    let window = floating_window();
    let render = shadowed_float_render();
    let screen = screen_of(Size::new(3840, 2160), &render, Point::new(1193, 73));
    let expected = screen.crop(Rect::new(1197, 77, 1896, 2040)).unwrap();
    let placement = Event::Placement { placement: Some(("DP-2".to_owned(), 2)), captured: true };
    let (stage, _) = Stage::Placing { render }.advance(&window, placement);
    let (stage, note) = stage.advance(&window, Event::Capture(screen.clone()));
    assert!(matches!(note, Some(Note::Misplaced)));
    // The search finds the picture, and its tile is the one niri states.
    let (stage, note) = stage.advance(&window, Event::Capture(screen));
    assert!(matches!(note, Some(Note::Located(_))));
    match stage {
        Stage::Finished(outcome) => {
            let picture = outcome.picture().unwrap();
            assert_eq!(picture.size(), expected.size());
            assert!(picture.pixels() == expected.pixels(), "the tile niri states");
        }
        _ => panic!("the picture was not found"),
    }
}

#[test]
fn a_borderless_window_states_a_zero_border() {
    // `border { off }`: tile and window are the same size, so the crop must
    // not invent a border around a window that has none.
    let window = NiriWindow {
        tile_size: Some(pair(940.0, 1012.0)),
        offset_in_tile: Some(pair(0.0, 0.0)),
        ..placed_window()
    };
    assert_eq!(window.tile_from_render((1880, 2024), 2), Some((0, 0, 0, 0)));
}

#[test]
fn a_render_smaller_than_the_window_is_not_turned_into_a_tile() {
    // The render cannot be smaller than the window it shows; such numbers
    // are not the pair they are assumed to be, and a wrong rectangle is
    // worse than none.
    assert_eq!(bordered_window().tile_from_render((1000, 1000), 2), None);
}

#[test]
fn a_window_without_tile_geometry_keeps_the_plain_rectangle() {
    // An older niri (or a fullscreen window with no tile) reports no
    // geometry: the located rectangle stands as it is.
    assert_eq!(placed_window().tile_from_render((1880, 2024), 2), None);
}

#[test]
fn a_fractional_border_is_rounded_to_whole_device_pixels() {
    // niri's IPC notes borders are logical and may be fractional (a 2
    // physical-pixel border is 1.6 logical at scale 1.25).  The window here
    // is 800x600 logical, so at scale 2 the render is 1600x1200 device
    // pixels and the 1.6-logical border rounds to 3 device pixels.
    let window = NiriWindow {
        tile_size: Some(pair(803.2, 603.2)),
        offset_in_tile: Some(pair(1.6, 1.6)),
        ..placed_window()
    };
    assert_eq!(window.tile_from_render((1600, 1200), 2), Some((0, 0, 3, 3)));
}

fn screenshot_requests(runner: &ScriptedRunner) -> usize {
    runner
        .asked()
        .iter()
        .filter(|command| command.contains(&"--id".to_owned()))
        .count()
}

#[test]
fn a_moving_window_is_retried_with_a_fresh_render() {
    // The window is animating: the first render (red) is stale by the time
    // the screen is grabbed — which already shows the blue state.  The
    // stability check tells a stale template from a positional dead end,
    // the fresh render is located, and the crop is the screen's own pixels
    // at the window's true position.
    let red = Frame::solid(Size::new(60, 40), [200, 30, 30, 255]).unwrap();
    let blue = Frame::solid(Size::new(60, 40), [30, 30, 200, 255]).unwrap();
    let runner = ScriptedRunner::new()
        .replying("workspaces", WORKSPACES.as_bytes())
        .replying("outputs", OUTPUTS.as_bytes())
        .writes_png_sequence(vec![red, blue.clone()]);
    let screen = screen_showing(&blue, Point::new(20, 30));
    let got = capture_composited(&screen, &runner, &placed_window())
    .unwrap();
    assert_eq!(got.size(), blue.size());
    assert_eq!(
        got.pixel(Point::new(10, 10)),
        Some([30, 30, 200, 255]),
        "the crop is the screen's own pixels, background included"
    );
    assert_eq!(
        screenshot_requests(&runner),
        2,
        "the stale render is retried once"
    );
}

#[test]
fn a_stable_render_that_cannot_be_located_is_not_retried_into_nothing() {
    // The window is not on the screen at all (invisible workspace, off the
    // output) and its content does not change between renders: the second
    // render only confirms stability, and the render is handed back as it
    // is — no third try could locate what is not there.
    let red = Frame::solid(Size::new(60, 40), [200, 30, 30, 255]).unwrap();
    let runner = ScriptedRunner::new()
        .replying("workspaces", WORKSPACES.as_bytes())
        .replying("outputs", OUTPUTS.as_bytes())
        .writes_png_sequence(vec![red.clone(), red.clone()]);
    let screen = Frame::solid(Size::new(400, 300), [240, 240, 240, 255]).unwrap();
    let got = capture_composited(&screen, &runner, &placed_window())
    .unwrap();
    assert_eq!(got.pixels(), red.pixels());
    assert_eq!(
        screenshot_requests(&runner),
        2,
        "one stability render, then the positional dead end is accepted"
    );
}

#[test]
fn a_window_that_keeps_changing_falls_back_to_its_freshest_render() {
    // Content changing under every attempt: the loop runs out, and the
    // newest render — the closest thing to what the user sees — is the
    // answer, not an error.
    let frames = vec![
        Frame::solid(Size::new(60, 40), [200, 30, 30, 255]).unwrap(),
        Frame::solid(Size::new(60, 40), [30, 200, 30, 255]).unwrap(),
        Frame::solid(Size::new(60, 40), [30, 30, 200, 255]).unwrap(),
    ];
    let freshest = frames[2].clone();
    let runner = ScriptedRunner::new()
        .replying("workspaces", WORKSPACES.as_bytes())
        .replying("outputs", OUTPUTS.as_bytes())
        .writes_png_sequence(frames);
    let screen = Frame::solid(Size::new(400, 300), [240, 240, 240, 255]).unwrap();
    let got = capture_composited(&screen, &runner, &placed_window())
    .unwrap();
    assert_eq!(got.pixels(), freshest.pixels());
    assert_eq!(
        screenshot_requests(&runner),
        3,
        "every attempt gets one render"
    );
}

#[test]
fn the_focused_and_the_picked_window_come_from_their_own_questions() {
    let runner = ScriptedRunner::new()
        .replying("focused-window", FOCUSED_TILED.as_bytes())
        .replying("pick-window", b"null");
    let window = focused_window(&runner).unwrap().unwrap();
    assert_eq!((window.app_id.as_str(), window.title.as_str()), ("Alacritty", "t w"));
    assert_eq!(window.tile_size, Some(pair(800.0, 600.0)));
    assert_eq!(window.offset_in_tile, Some(pair(2.0, 2.0)));
    assert_eq!(window.tile_pos_in_workspace_view, None);
    assert_eq!(pick_window(&runner).unwrap(), None);
    assert_eq!(
        runner.asked(),
        [
            ["niri", "msg", "--json", "focused-window"],
            ["niri", "msg", "--json", "pick-window"]
        ]
    );
}

#[test]
fn what_goes_wrong_is_said_in_niris_words_or_by_its_exit() {
    let runner = ScriptedRunner::new().failing("", "  no compositor here\n");
    let error = focused_window(&runner).unwrap_err();
    assert!(error.message().contains("no compositor here"), "{error:?}");
    let runner = ScriptedRunner::new().failing("", "");
    let error = focused_window(&runner).unwrap_err();
    assert!(
        error.message().contains("`niri` exited with exit status: 1"),
        "{error:?}"
    );
    let error = parse_window(b"not json", "pick-window").unwrap_err();
    assert!(
        error
            .message()
            .contains("niri's pick-window reply is not JSON: "),
        "{error:?}"
    );
    let error = parse_output_scales(b"[]").unwrap_err();
    assert!(
        error.message().contains("not an object keyed by output name"),
        "{error:?}"
    );
    assert!(parse_workspace_outputs(b"{}").is_err());
}

#[test]
fn of_two_workspaces_with_one_id_the_later_one_counts() {
    let list = br#"[{"id":1,"output":"A"},{"id":1,"output":"B"},{"id":2},{"output":"C"}]"#;
    let outputs = parse_workspace_outputs(list).unwrap();
    assert_eq!(outputs.len(), 1);
    assert_eq!(outputs[&1], "B");
}

#[test]
fn positions_that_no_screen_has_are_not_positions() {
    let at = |x: f64, y: f64| NiriWindow {
        tile_pos_in_workspace_view: Some(pair(x, y)),
        ..bordered_window()
    };
    assert_eq!(at(1e300, 0.0).render_origin(2), None);
    assert_eq!(at(f64::INFINITY, 0.0).render_origin(2), None);
    assert_eq!(at(2147483643.0, -2147483652.0).render_origin(1), Some((i32::MAX, i32::MIN)));
    assert_eq!(at(2147483644.0, 0.0).render_origin(1), None);
    // A half is rounded away from zero on either side, and a scale of zero is
    // taken for one.
    assert_eq!(at(-4.5, -3.5).render_origin(0), Some((-1, 1)));
    // Something too small to change a position leaves it alone.
    assert_eq!(at(1e-320, 0.1).render_origin(3), Some((12, 12)));
}

#[test]
fn the_arithmetic_is_that_of_the_processor() {
    let mut state = 0x2545_f491_4f6c_dd1du64;
    let mut next = || {
        state ^= state << 13;
        state ^= state >> 7;
        state ^= state << 17;
        state
    };
    for _ in 0..2000 {
        let numbers: Vec<f64> = (0..4)
            .map(|_| (next() as i64 >> (next() % 56)) as f64 / (1u64 << (next() % 40)) as f64)
            .collect();
        let scale = (next() % 5) as u32;
        let window = NiriWindow {
            tile_pos_in_workspace_view: Some(pair(numbers[0], numbers[1])),
            offset_in_tile: Some(pair(numbers[2], numbers[3])),
            ..placed_window()
        };
        let factor = f64::from(scale.max(1));
        let start = |position: f64, offset: f64| {
            let value = ((position + offset) * factor).round();
            if value >= f64::from(i32::MIN) && value <= f64::from(i32::MAX) {
                Some(value as i32)
            } else {
                None
            }
        };
        let expected = match (start(numbers[0], numbers[2]), start(numbers[1], numbers[3])) {
            (Some(x), Some(y)) => Some((x, y)),
            _ => None,
        };
        assert_eq!(window.render_origin(scale), expected, "{numbers:?} {scale}");
    }
}

#[test]
fn the_file_is_read_until_it_holds_a_picture() {
    let path = FilePath::from_text("/tmp/a.png");
    assert!(wait_step(FileRead::Unfinished, false, &path, 5).is_none());
    let late = Frame::solid(Size::new(1, 1), [1, 2, 3, 4]).unwrap();
    let over = wait_step(FileRead::Picture(late), true, &path, 5).unwrap();
    assert_eq!(over.unwrap().size(), Size::new(1, 1));
    let failed = FileRead::Failed("Permission denied".to_owned());
    let error = wait_step(failed, false, &path, 5).unwrap().unwrap_err();
    assert!(
        error
            .message()
            .contains("cannot read the screenshot niri wrote to /tmp/a.png: Permission denied"),
        "{error:?}"
    );
    let error = wait_step(FileRead::Unfinished, true, &path, 5).unwrap().unwrap_err();
    assert!(
        error
            .message()
            .contains("niri did not write a window screenshot to /tmp/a.png within 5s"),
        "{error:?}"
    );
}

#[test]
fn the_user_is_told_where_the_picture_comes_from() {
    let render = Frame::solid(Size::new(4, 4), [1, 2, 3, 255]).unwrap();
    let stage = Stage::Placing { render };
    let (stage, note) = stage.advance(
        &placed_window(),
        Event::Placement {
            placement: None,
            captured: false,
        },
    );
    assert_eq!(stage.wants(), Want::Nothing);
    assert_eq!(
        note.unwrap().text(12),
        "niri places window 12 on no output, so its own (translucent) render is used as it is"
    );
    // An event the stage does not wait for changes nothing.
    let render = Frame::solid(Size::new(4, 4), [1, 2, 3, 255]).unwrap();
    let screen = Frame::solid(Size::new(9, 9), [1, 2, 3, 255]).unwrap();
    let (stage, note) = Stage::Placing { render }.advance(&placed_window(), Event::Capture(screen));
    assert_eq!(stage.wants(), Want::Placement);
    assert!(note.is_none());
}

/// A pair of numbers as niri states them.
fn pair(x: f64, y: f64) -> (u64, u64) {
    (x.to_bits(), y.to_bits())
}

/// Asks for a picture of the window and waits for its file, the way a caller
/// with a file system does.
fn capture_window(runner: &ScriptedRunner, window: &NiriWindow, cursor: bool) -> Result<Frame> {
    let path = FilePath::from_text("/tmp/vshot-niri-window.png");
    request_screenshot(runner, window.id, &path, cursor)?;
    for look in 0..3 {
        if let Some(over) = wait_step(runner.look(), look == 2, &path, 5) {
            return over;
        }
    }
    unreachable!("the last look is past the deadline");
}

/// Takes the window's picture from the screen, which shows the same on every
/// capture.
fn capture_composited(
    screen: &Frame,
    runner: &ScriptedRunner,
    window: &NiriWindow,
) -> Result<Frame> {
    let mut stage = Stage::Placing {
        render: capture_window(runner, window, false)?,
    };
    loop {
        let event = match stage.wants() {
            Want::Placement => {
                let placement = window_scale(runner, window)?;
                let captured = matches!(&placement, Some((name, _)) if name == "DP-2");
                Event::Placement {
                    placement,
                    captured,
                }
            }
            Want::Capture => Event::Capture(screen.clone()),
            Want::Render => Event::Render(capture_window(runner, window, false)?),
            Want::Nothing => break,
        };
        stage = stage.advance(window, event).0;
    }
    match stage {
        Stage::Finished(outcome) => outcome.picture(),
        unfinished => panic!("{unfinished:?}"),
    }
}

/// A runner that answers with fixed JSON, records every command and keeps what
/// niri would have written to the file.
struct ScriptedRunner {
    repl: RefCell<Vec<(&'static str, Vec<u8>)>>,
    fail_with: RefCell<Vec<(&'static str, String)>>,
    asked: RefCell<Vec<Vec<String>>>,
    /// One picture per screenshot request, handed out in order: a window whose
    /// content moves on between requests.
    renders: RefCell<VecDeque<Frame>>,
    write_half_first: bool,
    /// What the next looks at the file find.
    file: RefCell<VecDeque<FileRead>>,
}

impl ScriptedRunner {
    fn new() -> Self {
        Self {
            repl: RefCell::new(Vec::new()),
            fail_with: RefCell::new(Vec::new()),
            asked: RefCell::new(Vec::new()),
            renders: RefCell::new(VecDeque::new()),
            write_half_first: false,
            file: RefCell::new(VecDeque::new()),
        }
    }

    fn replying(self, needle: &'static str, stdout: &[u8]) -> Self {
        self.repl.borrow_mut().push((needle, stdout.to_vec()));
        self
    }

    /// Fails the command matching `needle` with this stderr.
    fn failing(self, needle: &'static str, stderr: &'static str) -> Self {
        self.fail_with
            .borrow_mut()
            .push((needle, stderr.to_owned()));
        self
    }

    fn writes_png(self) -> Self {
        self.writes_png_sequence(vec![
            Frame::solid(Size::new(40, 30), [10, 20, 30, 255]).unwrap()
        ])
    }

    fn writes_png_sequence(self, frames: Vec<Frame>) -> Self {
        *self.renders.borrow_mut() = frames.into_iter().collect();
        self
    }

    /// The file is caught half-written first.
    fn writes_partial_png_then_the_rest(self) -> Self {
        let runner = self.writes_png();
        Self {
            write_half_first: true,
            ..runner
        }
    }

    fn asked(&self) -> Vec<Vec<String>> {
        self.asked.borrow().clone()
    }

    fn look(&self) -> FileRead {
        self.file
            .borrow_mut()
            .pop_front()
            .unwrap_or(FileRead::Unfinished)
    }
}

impl WindowCommandRunner for ScriptedRunner {
    fn run(&self, command: &WindowCommand) -> Result<CommandOutput> {
        let mut line = vec![command.program.clone()];
        line.extend(command.args.iter().cloned());
        self.asked.borrow_mut().push(line);
        let line = command.args.join(" ");
        for (needle, stderr) in self.fail_with.borrow().iter() {
            if needle.is_empty() || line.contains(*needle) {
                return Ok(CommandOutput {
                    success: false,
                    status: "exit status: 1".to_owned(),
                    stdout: Vec::new(),
                    stderr: stderr.clone().into_bytes(),
                });
            }
        }
        let stdout = self
            .repl
            .borrow()
            .iter()
            .find(|(needle, _)| needle.is_empty() || line.contains(*needle))
            .map(|(_, stdout)| stdout.clone())
            .unwrap_or_default();
        if line.contains("--path") {
            if let Some(render) = self.renders.borrow_mut().pop_front() {
                if self.write_half_first {
                    self.file.borrow_mut().push_back(FileRead::Unfinished);
                }
                self.file.borrow_mut().push_back(FileRead::Picture(render));
            }
        }
        Ok(CommandOutput {
            success: true,
            status: "exit status: 0".to_owned(),
            stdout,
            stderr: Vec::new(),
        })
    }
}

#[test]
fn the_environment_says_when_the_niri_is_ours() {
    let socket = Some("/tmp/vshot-niri-socket/niri.wayland-7.123.sock");
    assert!(
        owns_this_connection(socket, Some("wayland-7"), true),
        "the socket names our display"
    );
    assert!(
        !owns_this_connection(socket, Some("wayland-8"), true),
        "another display's socket is not ours to ask"
    );
    assert!(
        !owns_this_connection(socket, Some("wayland-7"), false),
        "a path that is not there is a stale variable, not an answer"
    );
    assert!(!owns_this_connection(None, Some("wayland-7"), true));
    assert!(!owns_this_connection(socket, None, true));
}
