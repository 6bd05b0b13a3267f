use vshot::capture::{
    choose_backend, cut_region, is_missing_screencopy, no_capture_backend, scaled_region,
    tries_kwin, Backend,
};
use vshot::error::VshotError;
use vshot::geometry::{Point, Rect, Size};
use vshot::model::Frame;

#[test]
fn only_a_missing_screencopy_protocol_lets_another_backend_try() {
    assert!(is_missing_screencopy(&VshotError::MissingCapability(
        "zwlr_screencopy_manager_v1".into()
    )));
    // A wlroots session that is merely broken has to report its own
    // problem rather than being blamed on KWin.
    for unrelated in [
        VshotError::MissingCapability("wl_shm".into()),
        VshotError::MissingCapability("at least one wl_output".into()),
        VshotError::WaylandConnection("no display".into()),
        VshotError::CaptureTimeout,
    ] {
        assert!(
            !is_missing_screencopy(&unrelated),
            "{unrelated:?} must not select the KWin fallback"
        );
    }
}

#[test]
fn the_fallback_region_is_cut_in_output_pixels() {
    // A logical rectangle relative to its output's corner, on a 2x output.
    let region = Rect::new(10, 20, 100, 50);
    assert_eq!(scaled_region(region, 2), Rect::new(20, 40, 200, 100));
    // A scale of zero is not a scale: treating it as one keeps the
    // rectangle instead of collapsing it to nothing.
    assert_eq!(scaled_region(region, 0), region);
}

#[test]
fn a_dead_end_names_both_backends() {
    let error = no_capture_backend(&VshotError::KwinScreenShot("no KWin here".into()));
    let VshotError::NoCaptureBackend(message) = error else {
        panic!("the both-backends-failed case has its own error");
    };
    assert!(message.contains("zwlr_screencopy"), "{message}");
    assert!(message.contains("KWin ScreenShot2"), "{message}");
    assert!(message.contains("no KWin here"), "{message}");
}

#[test]
fn screencopy_comes_first_and_kwin_only_where_it_is_missing() {
    let missing = || Some(VshotError::MissingCapability("zwlr_screencopy_manager_v1".into()));
    assert!(!tries_kwin(&None));
    assert!(tries_kwin(&missing()));
    assert_eq!(choose_backend(None, None), Ok(Backend::Wlr));
    assert_eq!(choose_backend(missing(), None), Ok(Backend::Kwin));
    assert!(matches!(
        choose_backend(missing(), Some(VshotError::CaptureTimeout)),
        Err(VshotError::NoCaptureBackend(_))
    ));
    assert_eq!(
        choose_backend(Some(VshotError::CaptureTimeout), None),
        Err(VshotError::CaptureTimeout)
    );
}

#[test]
fn a_region_is_cut_out_of_the_whole_output() {
    let mut pixels = Vec::new();
    for y in 0..4u8 {
        for x in 0..6u8 {
            pixels.extend_from_slice(&[x, y, 0, 255]);
        }
    }
    let full = Frame::new(Size::new(6, 4), pixels).unwrap();
    let part = cut_region(&full, Rect::new(1, 1, 2, 1), 2).unwrap();
    assert_eq!(part.size(), Size::new(4, 2));
    assert_eq!(part.pixel(Point::new(0, 0)), Some([2, 2, 0, 255]));
    assert_eq!(part.pixel(Point::new(3, 1)), Some([5, 3, 0, 255]));
    // What lies past the output is left off, and nothing at all is refused.
    let edge = cut_region(&full, Rect::new(5, 3, 10, 10), 1).unwrap();
    assert_eq!(edge.size(), Size::new(1, 1));
    assert!(matches!(
        cut_region(&full, Rect::new(50, 3, 10, 10), 1),
        Err(VshotError::InvalidGeometry(_))
    ));
}
