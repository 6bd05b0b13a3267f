use vshot::error::VshotError;
use vshot::geometry::{parse_geometry, Point, Rect, Size};
use vshot::model::{Frame, OutputSnapshot, PngCompression, SceneSnapshot};

#[test]
fn two_rectangles_share_what_both_cover() {
    let a = Rect::new(0, 0, 10, 10);
    let b = Rect::new(5, -5, 10, 10);
    assert_eq!(a.intersection(b), Some(Rect::new(5, 0, 5, 5)));
    assert_eq!(a.intersection(Rect::new(10, 0, 5, 5)), None);
    assert_eq!(b.clamp_to(a), Some(Rect::new(5, 0, 5, 5)));
    // Edges past the coordinate space do not wrap.
    let far = Rect::new(i32::MAX - 1, 0, u32::MAX, 3);
    assert_eq!(far.intersection(far), Some(far));
    assert!(far.right().is_err());
    assert_eq!(far.bottom(), Ok(3));
}

#[test]
fn the_right_and_bottom_edges_lie_outside() {
    let rect = Rect::new(-2, 3, 4, 5);
    assert!(rect.contains(Point::new(-2, 3)));
    assert!(rect.contains(Point::new(1, 7)));
    assert!(!rect.contains(Point::new(2, 7)));
    assert!(!rect.contains(Point::new(1, 8)));
    assert!(Rect::new(0, 0, 0, 5).is_empty());
}

#[test]
fn a_geometry_is_a_position_and_a_size() {
    assert_eq!(parse_geometry("-10,20 40x30"), Ok(Rect::new(-10, 20, 40, 30)));
    for wrong in ["", "1,2", "1,2 3", "1,2 0x4", "1,2 3x", "a,2 3x4", "1,2 3x4 5"] {
        assert!(
            matches!(parse_geometry(wrong), Err(VshotError::InvalidGeometry(_))),
            "{wrong}"
        );
    }
}

#[test]
fn a_frame_holds_four_bytes_for_every_pixel() {
    assert!(matches!(
        Frame::new(Size::new(2, 2), vec![0; 15]),
        Err(VshotError::InvalidFrame(_))
    ));
    let frame = Frame::new(Size::new(2, 1), vec![1, 2, 3, 4, 5, 6, 7, 8]).unwrap();
    assert_eq!(frame.pixel(Point::new(1, 0)), Some([5, 6, 7, 8]));
    assert_eq!(frame.pixel(Point::new(2, 0)), None);
    assert_eq!(frame.pixel(Point::new(0, -1)), None);
}

#[test]
fn a_crop_keeps_what_lies_on_the_frame() {
    let frame = Frame::new(Size::new(2, 2), (0..16).collect()).unwrap();
    let part = frame.crop(Rect::new(1, -1, 5, 2)).unwrap();
    assert_eq!(part.size(), Size::new(1, 1));
    assert_eq!(part.pixels(), [4, 5, 6, 7]);
    assert!(frame.crop(Rect::new(2, 0, 1, 1)).is_err());
}

#[test]
fn an_output_covers_something_and_shows_something() {
    let frame = |width, height| Frame::solid(Size::new(width, height), [0; 4]).unwrap();
    let rect = Rect::new(0, 0, 10, 5);
    let output = OutputSnapshot::new(1, "A", rect, 2, frame(20, 10)).unwrap();
    assert_eq!((output.name(), output.scale()), ("A", 2));
    for (rect, scale, size) in [
        (Rect::new(0, 0, 0, 5), 2, (20, 10)),
        (rect, 0, (20, 10)),
        (rect, 2, (0, 10)),
        (Rect::new(i32::MAX, 0, 10, 5), 1, (10, 5)),
    ] {
        let frame = frame(size.0, size.1);
        assert!(matches!(
            OutputSnapshot::new(1, "A", rect, scale, frame),
            Err(VshotError::UnsupportedOutput(_))
        ));
    }
    assert!(matches!(
        SceneSnapshot::from_outputs(Vec::new()),
        Err(VshotError::IncompleteTopology(_))
    ));
}

#[test]
fn a_compression_goes_by_its_name() {
    assert_eq!(PngCompression::parse("none"), Ok(PngCompression::Stored));
    assert_eq!(PngCompression::by_name("balanced"), Some(PngCompression::Balanced));
    assert!(PngCompression::parse("slowest").is_err());
}
