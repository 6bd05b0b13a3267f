use vshot::capture::kwin::{
    capture_options, convert_premultiplied_bgra, declares_interface, judge_introspection,
    judge_owner, map_method_error, parse_results, read_capture, result_scale, window_options, Alpha, CaptureGeometry, ResultValue, Results,
    Shot, FORMAT_ARGB32_PREMULTIPLIED, INTERFACE,
};
use vshot::capture::raw_pixels::unpremultiply;
use vshot::error::VshotError;
use vshot::geometry::{Point, Size};

fn geometry(width: u32, height: u32, stride: usize) -> CaptureGeometry {
    CaptureGeometry {
        width,
        height,
        stride,
    }
}

fn number(value: u32) -> ResultValue {
    ResultValue::Unsigned(value)
}

fn word(value: &str) -> ResultValue {
    ResultValue::Text(value.to_owned())
}

fn double(value: f64) -> ResultValue {
    ResultValue::Double {
        bits: value.to_bits(),
        text: value.to_string(),
    }
}

fn full_results() -> Results {
    let entries = vec![
        ("width".to_owned(), number(1024)),
        ("height".to_owned(), number(768)),
        ("stride".to_owned(), number(4096)),
        ("format".to_owned(), number(FORMAT_ARGB32_PREMULTIPLIED)),
        ("scale".to_owned(), double(1.0)),
        ("type".to_owned(), word("raw")),
    ];
    Results { entries }
}

fn remove(results: &mut Results, key: &str) {
    results.entries.retain(|(name, _)| name.as_str() != key);
}

fn insert(results: &mut Results, key: &str, value: ResultValue) {
    remove(results, key);
    results.entries.push((key.to_owned(), value));
}

fn option(options: &[(&'static str, bool)], key: &str) -> Option<bool> {
    options
        .iter()
        .find(|(name, _)| *name == key)
        .map(|(_, value)| *value)
}

#[test]
fn parses_the_results_a_capture_returns() {
    assert_eq!(
        parse_results(&full_results()).unwrap(),
        geometry(1024, 768, 4096)
    );
}

#[test]
fn an_unreadable_capture_is_rejected_rather_than_guessed_at() {
    // RGB32 (4) is not premultiplied, so the bytes would come out wrong.
    let mut wrong_format = full_results();
    insert(&mut wrong_format, "format", number(4));
    assert!(matches!(
        parse_results(&wrong_format),
        Err(VshotError::KwinScreenShot(_))
    ));

    // A future non-raw encoding would not be BGRA at all.
    let mut not_raw = full_results();
    insert(&mut not_raw, "type", word("dmabuf"));
    assert!(matches!(
        parse_results(&not_raw),
        Err(VshotError::KwinScreenShot(_))
    ));

    for missing in ["width", "height", "stride", "format"] {
        let mut incomplete = full_results();
        remove(&mut incomplete, missing);
        assert!(
            matches!(
                parse_results(&incomplete),
                Err(VshotError::KwinScreenShot(_))
            ),
            "a capture without `{missing}` has to be refused"
        );
    }

    let mut empty = full_results();
    insert(&mut empty, "width", number(0));
    assert!(matches!(
        parse_results(&empty),
        Err(VshotError::KwinScreenShot(_))
    ));
}

#[test]
fn an_unsigned_integer_that_is_not_one_is_refused() {
    let mut results = full_results();
    insert(&mut results, "stride", word("4096"));
    assert!(matches!(
        parse_results(&results),
        Err(VshotError::KwinScreenShot(_))
    ));
}

#[test]
fn premultiplied_colours_are_unpremultiplied() {
    // A colour stored at its own alpha has to come back at full strength —
    // 128/128 of red is red — while an opaque colour passes through
    // untouched.
    let bytes = [0, 0, 128, 128, 30, 20, 10, 255, 0, 96, 0, 96];
    let frame = convert_premultiplied_bgra(&bytes, geometry(3, 1, 12), Alpha::Flatten).unwrap();
    assert_eq!(
        frame.pixel(Point::new(0, 0)),
        Some([255, 0, 0, 255])
    );
    assert_eq!(
        frame.pixel(Point::new(1, 0)),
        Some([10, 20, 30, 255])
    );
    // 96/255 of green is the same green at 96/255 of the coverage.
    assert_eq!(
        frame.pixel(Point::new(2, 0)),
        Some([0, 255, 0, 255])
    );
}

#[test]
fn bgra_is_read_as_bgra() {
    // ScreenShot2 sends B, G, R, A in memory; treating that as RGB would
    // swap red and blue, which is the mistake to catch here.
    let bytes = [0, 0, 255, 255];
    let frame = convert_premultiplied_bgra(&bytes, geometry(1, 1, 4), Alpha::Flatten).unwrap();
    assert_eq!(
        frame.pixel(Point::new(0, 0)),
        Some([255, 0, 0, 255])
    );
}

#[test]
fn an_output_capture_flattens_an_undrawn_pixel_to_black() {
    // An output region nothing was composited into arrives as 0, 0, 0, 0;
    // the screen is still opaque there, so the alpha becomes 255.
    let bytes = [0, 0, 0, 0, 0, 0, 0, 0];
    let frame = convert_premultiplied_bgra(&bytes, geometry(2, 1, 8), Alpha::Flatten).unwrap();
    assert_eq!(
        frame.pixel(Point::new(0, 0)),
        Some([0, 0, 0, 255])
    );
    assert_eq!(
        frame.pixel(Point::new(1, 0)),
        Some([0, 0, 0, 255])
    );
}

#[test]
fn a_window_capture_keeps_its_backdrop_transparent() {
    // A window capture is a picture of a window on a transparent backdrop:
    // the pixels beyond it arrive as 0, 0, 0, 0 and the shadow arrives as
    // semi-transparent black.  Both have to survive as coverage, because
    // restoring them to opaque is exactly the black fringe around the window
    // that the flattening policy produces.
    let bytes = [
        0, 0, 0, 0, // padding: nothing was drawn here
        0, 0, 0, 128, // the window's shadow, half covered
        0, 0, 255, 255, // the window itself
    ];
    let frame = convert_premultiplied_bgra(&bytes, geometry(3, 1, 12), Alpha::Keep).unwrap();
    assert_eq!(
        frame.pixel(Point::new(0, 0)),
        Some([0, 0, 0, 0])
    );
    assert_eq!(
        frame.pixel(Point::new(1, 0)),
        Some([0, 0, 0, 128])
    );
    assert_eq!(
        frame.pixel(Point::new(2, 0)),
        Some([255, 0, 0, 255])
    );

    // The same payload read as an output is the fringe.
    let flattened =
        convert_premultiplied_bgra(&bytes, geometry(3, 1, 12), Alpha::Flatten).unwrap();
    assert_eq!(
        flattened.pixel(Point::new(0, 0)),
        Some([0, 0, 0, 255])
    );
    assert_eq!(
        flattened.pixel(Point::new(1, 0)),
        Some([0, 0, 0, 255])
    );
}

#[test]
fn a_stride_wider_than_the_row_is_trimmed() {
    // Two padded rows: the padding bytes must not reach the frame, and the
    // second row must start at the stride, not right after the first.
    let bytes = [
        3, 2, 1, 255, 0xAA, 0xBB, 0xCC, 0xDD, // row 0 plus padding
        6, 5, 4, 255, 0xAA, 0xBB, 0xCC, 0xDD, // row 1 plus padding
    ];
    let frame = convert_premultiplied_bgra(&bytes, geometry(1, 2, 8), Alpha::Flatten).unwrap();
    assert_eq!(frame.size(), Size::new(1, 2));
    assert_eq!(
        frame.pixel(Point::new(0, 0)),
        Some([1, 2, 3, 255])
    );
    assert_eq!(
        frame.pixel(Point::new(0, 1)),
        Some([4, 5, 6, 255])
    );
    assert_eq!(frame.pixels().len(), 8);
}

#[test]
fn a_payload_that_does_not_match_the_announced_geometry_is_refused() {
    // A stride narrower than the row cannot describe the pixels at all.
    assert!(matches!(
        convert_premultiplied_bgra(&[0; 8], geometry(2, 1, 4), Alpha::Flatten),
        Err(VshotError::KwinScreenShot(_))
    ));
    // A row that is never sent is a truncated frame, not a shorter image.
    assert!(matches!(
        convert_premultiplied_bgra(&[0; 4], geometry(1, 2, 4), Alpha::Flatten),
        Err(VshotError::KwinScreenShot(_))
    ));
    // Trailing bytes beyond the announced frame are harmless.
    assert!(convert_premultiplied_bgra(&[0; 9], geometry(1, 2, 4), Alpha::Flatten).is_ok());
}

#[test]
fn the_capture_options_ask_for_native_pixels() {
    let options = capture_options(true);
    assert_eq!(
        option(&options, "include-cursor"),
        Some(true),
        "the KDE option name has to survive unchanged"
    );
    assert_eq!(
        option(&options, "native-resolution"),
        Some(true),
        "a scaled output only arrives at its real size when native resolution is asked for"
    );
}

#[test]
fn a_window_capture_asks_for_the_window_itself() {
    let options = window_options(false);
    assert_eq!(
        option(&options, "include-decoration"),
        Some(true),
        "the decoration is part of the window the user asked for"
    );
    assert_eq!(
        option(&options, "include-shadow"),
        None,
        "the shadow is not part of the window and would pad the image"
    );
    // The output options are still the base: `native-resolution` is what
    // keeps a HiDPI window at its real pixel count.
    assert_eq!(option(&options, "native-resolution"), Some(true));
    assert_eq!(option(&options, "include-cursor"), Some(false));
    assert_eq!(
        option(&window_options(true), "include-cursor"),
        Some(true)
    );
}

#[test]
fn the_scale_a_window_capture_states_is_read() {
    let mut hidpi = full_results();
    insert(&mut hidpi, "scale", double(2.0));
    assert_eq!(result_scale(&hidpi).unwrap(), 2);
    // Plasma can describe a fractional scale while everything else in
    // vshot counts whole device pixels per logical pixel, so the value is
    // rounded rather than refused.
    insert(&mut hidpi, "scale", double(1.5));
    assert_eq!(result_scale(&hidpi).unwrap(), 2);
    insert(&mut hidpi, "scale", double(1.25));
    assert_eq!(result_scale(&hidpi).unwrap(), 1);

    // A capture that cannot say how big its pixels are meant to be shown is
    // refused: assuming 1 is how a pinned image ends up at the wrong size.
    let mut missing = full_results();
    remove(&mut missing, "scale");
    assert!(matches!(
        result_scale(&missing),
        Err(VshotError::KwinScreenShot(_))
    ));
    let mut not_a_number = full_results();
    insert(&mut not_a_number, "scale", word("2"));
    assert!(matches!(
        result_scale(&not_a_number),
        Err(VshotError::KwinScreenShot(_))
    ));
    for nonsense in [0.0f64, 0.5, -2.0, f64::NAN] {
        let mut results = full_results();
        insert(&mut results, "scale", double(nonsense));
        assert!(
            matches!(result_scale(&results), Err(VshotError::KwinScreenShot(_))),
            "a scale of {nonsense} is not a screen scale"
        );
    }
}

#[test]
fn every_capture_says_what_it_was_aimed_at() {
    assert_eq!(
        Shot::Output {
            name: "DP-2",
            cursor: false
        }
        .target(),
        "the screen `DP-2`"
    );
    assert_eq!(
        Shot::ActiveWindow { cursor: true }.target(),
        "the focused window"
    );
}

#[test]
fn the_introspection_data_is_searched_for_the_interface() {
    let xml = r#"<node><interface name="org.kde.KWin.ScreenShot2">
        <method name="CaptureScreen"/></interface>
        <interface name="org.kde.KWin.Other"/></node>"#;
    assert!(declares_interface(xml, INTERFACE));
    assert!(!declares_interface(xml, "org.kde.KWin.ScreenShot3"));
    assert!(!declares_interface("<node/>", INTERFACE));
}

#[test]
fn a_denied_capture_names_the_desktop_file_requirement() {
    let error = map_method_error(
        "org.kde.KWin.ScreenShot2.Error.NoAuthorized",
        Some("The process is not authorized to take a screenshot"),
        "Virtual-0",
        "/opt/vshot/target/release/vshot",
    );
    let VshotError::ScreenshotDenied(hint) = error else {
        panic!("NoAuthorized has to map to the permission error");
    };
    assert!(
        hint.contains("X-KDE-DBUS-Restricted-Interfaces=org.kde.KWin.ScreenShot2"),
        "{hint}"
    );
    assert!(hint.contains("kbuildsycoca6"), "{hint}");
    assert!(
        hint.contains("KWIN_SCREENSHOT_NO_PERMISSION_CHECKS"),
        "{hint}"
    );
    // The desktop file rule is keyed on the caller's own executable, so the
    // hint has to carry that path rather than a generic instruction.
    assert!(hint.contains("/opt/vshot/target/release/vshot"), "{hint}");
    // KWin shows no dialog, so promising one would send the user looking for it.
    assert!(!hint.contains("prompt it shows"), "{hint}");
}

#[test]
fn an_unknown_screen_is_reported_as_a_topology_problem() {
    let error = map_method_error(
        "org.kde.KWin.ScreenShot2.Error.InvalidScreen",
        None,
        "Virtual-9",
        "/usr/bin/vshot",
    );
    let VshotError::IncompleteTopology(message) = error else {
        panic!("InvalidScreen has to map to the unknown-screen error");
    };
    assert!(message.contains("Virtual-9"), "{message}");
}

#[test]
fn other_dbus_errors_keep_their_name() {
    let error = map_method_error("org.kde.KWin.ScreenShot2.Error.Something", None, "X", "/usr/bin/vshot");
    let VshotError::KwinScreenShot(message) = error else {
        panic!("an unrecognized error has to keep its KWin context");
    };
    assert!(message.contains("Error.Something"), "{message}");
}

#[test]
fn a_recorded_window_comes_without_its_shadow() {
    let shot = Shot::Window {
        handle: "{1234}",
        cursor: false,
    };
    assert_eq!(shot.method(), "CaptureWindow");
    assert_eq!(shot.target(), "the window `{1234}`");
    assert_eq!(option(&shot.options(), "include-shadow"), Some(false));
    let shot = Shot::ActiveWindow { cursor: true };
    assert_eq!(shot.method(), "CaptureActiveWindow");
    assert_eq!(option(&shot.options(), "include-cursor"), Some(true));
    let shot = Shot::Output {
        name: "DP-1",
        cursor: false,
    };
    assert_eq!(shot.method(), "CaptureScreen");
    assert_eq!(shot.options().len(), 2);
}

#[test]
fn a_capture_is_read_the_way_its_shot_asks_for() {
    let mut results = full_results();
    insert(&mut results, "width", number(1));
    insert(&mut results, "height", number(1));
    insert(&mut results, "stride", number(4));
    insert(&mut results, "scale", double(2.0));
    let bytes = [0, 0, 128, 128];
    let output = Shot::Output {
        name: "DP-1",
        cursor: false,
    };
    let (frame, scale) = read_capture(output, &results, &bytes).unwrap();
    assert_eq!(frame.pixel(Point::new(0, 0)), Some([255, 0, 0, 255]));
    assert_eq!(scale, None);
    let window = Shot::ActiveWindow { cursor: false };
    let (frame, scale) = read_capture(window, &results, &bytes).unwrap();
    assert_eq!(frame.pixel(Point::new(0, 0)), Some([255, 0, 0, 128]));
    assert_eq!(scale, Some(2));
    // A window has to say its density, an output does not.
    remove(&mut results, "scale");
    assert!(read_capture(output, &results, &bytes).is_ok());
    assert!(read_capture(window, &results, &bytes).is_err());
}

#[test]
fn the_service_has_to_be_there_and_to_offer_the_interface() {
    assert!(judge_owner(true).is_ok());
    assert!(judge_owner(false)
        .unwrap_err()
        .message()
        .contains("org.kde.KWin does not own a name"));
    assert!(judge_introspection("<interface name=\"org.kde.KWin.ScreenShot2\"/>").is_ok());
    assert!(judge_introspection("<node/>").is_err());
}

#[test]
fn half_covered_colours_round_to_the_nearest() {
    assert_eq!(unpremultiply(128, 128), 255);
    assert_eq!(unpremultiply(1, 255), 1);
    assert_eq!(unpremultiply(64, 128), 128);
    assert_eq!(unpremultiply(0, 0), 0);
    // A colour cannot cover more than its own alpha; the excess is cut.
    assert_eq!(unpremultiply(200, 100), 255);
}
