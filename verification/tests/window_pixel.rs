use vshot::capture::pixel_frame::{analysis_factor, AnalysisFrame};
use vshot::capture::pixel_rings::ring_candidates;
use vshot::capture::window::WindowSource;
use vshot::capture::window_pixel::{detect_active_window, detect_window_candidates};
use vshot::geometry::{Point, Rect, Size};
use vshot::model::{Frame, OutputSnapshot, SceneSnapshot};

/// Solid-color canvas with rect fills, convertible to a one-output scene.
struct Canvas {
    width: u32,
    height: u32,
    pixels: Vec<u8>,
}

impl Canvas {
    fn new(width: u32, height: u32, rgba: [u8; 4]) -> Self {
        let mut pixels = Vec::with_capacity((width * height * 4) as usize);
        for _ in 0..width * height {
            pixels.extend_from_slice(&rgba);
        }
        Self {
            width,
            height,
            pixels,
        }
    }

    fn fill(&mut self, x: i32, y: i32, width: u32, height: u32, rgba: [u8; 4]) {
        for row in y..(y + height as i32) {
            for column in x..(x + width as i32) {
                if column < 0
                    || row < 0
                    || column >= self.width as i32
                    || row >= self.height as i32
                {
                    continue;
                }
                let index = ((row as u32 * self.width + column as u32) * 4) as usize;
                self.pixels[index..index + 4].copy_from_slice(&rgba);
            }
        }
    }

    fn scene(&self) -> SceneSnapshot {
        SceneSnapshot::from_outputs(vec![OutputSnapshot::new(
            1,
            "test",
            Rect::new(0, 0, self.width, self.height),
            1,
            Frame::new(Size::new(self.width, self.height), self.pixels.clone()).unwrap(),
        )
        .unwrap()])
        .unwrap()
    }
}

#[test]
fn ring_reads_the_bordered_window_and_keeps_its_border() {
    let mut canvas = Canvas::new(400, 300, [40, 60, 80, 255]);
    // Content first, then a 3px accent border drawn over its rim.
    canvas.fill(100, 80, 200, 140, [200, 200, 200, 255]);
    canvas.fill(100, 80, 200, 3, [255, 140, 0, 255]);
    canvas.fill(100, 217, 200, 3, [255, 140, 0, 255]);
    canvas.fill(100, 80, 3, 140, [255, 140, 0, 255]);
    canvas.fill(297, 80, 3, 140, [255, 140, 0, 255]);
    let window = detect_active_window(&canvas.scene(), None).unwrap();
    assert_eq!(window.source, WindowSource::Pixel);
    // The window as it looks, stroke included — not the content inside it.
    assert_eq!(window.geometry, Rect::new(100, 80, 200, 140));
}

#[test]
fn ring_reads_a_gradient_stroke_without_needing_a_flat_band() {
    // niri strokes the focused window with `active-gradient … angle=45`, so
    // the border ramps along its own thickness instead of holding one
    // colour.
    let mut canvas = Canvas::new(400, 300, [40, 60, 80, 255]);
    canvas.fill(100, 80, 200, 140, [200, 200, 200, 255]);
    // A 4px ramp drifting 40 in total, 13–14 per step: rejected by both
    // absolute limits, and plainly a border against the 100+ jumps at its
    // sides.
    let ramp: [[u8; 4]; 4] = [
        [255, 0, 0, 255],
        [255, 13, 0, 255],
        [255, 27, 0, 255],
        [255, 40, 0, 255],
    ];
    for (t, color) in ramp.iter().enumerate() {
        let t = t as i32;
        canvas.fill(100, 80 + t, 200, 1, *color);
        canvas.fill(100, 219 - t, 200, 1, ramp[3 - t as usize]);
        canvas.fill(100 + t, 80, 1, 140, *color);
        canvas.fill(299 - t, 80, 1, 140, ramp[3 - t as usize]);
    }
    let window = detect_active_window(&canvas.scene(), None).unwrap();
    assert_eq!(window.source, WindowSource::Pixel);
    assert_eq!(window.geometry, Rect::new(100, 80, 200, 140));
}

#[test]
fn ring_reads_the_stroke_of_a_narrow_window_beside_a_wider_one() {
    // Two tiled windows share their top and bottom rows.  A row keeps only
    // its *longest* run, so the wider neighbour's edge is the one that
    // survives; the narrower window still has to be read off its own sides,
    // which is what the ring's corner pairing does.
    let mut canvas = Canvas::new(400, 300, [40, 60, 80, 255]);
    canvas.fill(10, 40, 80, 220, [210, 210, 210, 255]);
    canvas.fill(110, 40, 250, 220, [200, 200, 200, 255]);
    // Strokes: the narrow window's is vivid, the wide one's is gray.
    let (narrow, wide) = ([255, 140, 0, 255], [90, 90, 90, 255]);
    for (x, y, width, height, stroke) in [(10, 40, 80, 220, narrow), (110, 40, 250, 220, wide)]
    {
        canvas.fill(x, y, width, 3, stroke);
        canvas.fill(x, y + height as i32 - 3, width, 3, stroke);
        canvas.fill(x, y, 3, height, stroke);
        canvas.fill(x + width as i32 - 3, y, 3, height, stroke);
    }
    // The vivid stroke marks the focused window even though the wide
    // neighbour's edge is the longer line on the shared rows.
    let window = detect_active_window(&canvas.scene(), None).unwrap();
    assert_eq!(window.geometry, Rect::new(10, 40, 80, 220));
}

#[test]
fn ring_prefers_the_cursor_containing_window() {
    let mut canvas = Canvas::new(400, 300, [40, 60, 80, 255]);
    for (x, y, color) in [(30, 30, [255, 0, 0, 255]), (240, 170, [0, 90, 255, 255])] {
        canvas.fill(x, y, 120, 90, [210, 210, 210, 255]);
        canvas.fill(x, y, 120, 2, color);
        canvas.fill(x, y + 88, 120, 2, color);
        canvas.fill(x, y, 2, 90, color);
        canvas.fill(x + 118, y, 2, 90, color);
    }
    // Both strokes are vivid, so neither window wins on colour and the
    // pointer settles it.
    let window = detect_active_window(&canvas.scene(), Some(Point::new(300, 210))).unwrap();
    assert_eq!(window.geometry, Rect::new(240, 170, 120, 90));
}

#[test]
fn borderless_windows_segment_with_cursor_disambiguation() {
    let mut canvas = Canvas::new(400, 300, [30, 30, 30, 255]);
    canvas.fill(150, 60, 210, 180, [220, 220, 220, 255]);
    canvas.fill(10, 10, 90, 90, [90, 90, 90, 255]);
    // The cursor picks window A even though B is a valid candidate too.
    let window = detect_active_window(&canvas.scene(), Some(Point::new(250, 150))).unwrap();
    assert_eq!(window.geometry, Rect::new(150, 60, 210, 180));
    // B is above the size thresholds as well, so the cursor over B wins.
    let window = detect_active_window(&canvas.scene(), Some(Point::new(40, 40))).unwrap();
    assert_eq!(window.geometry, Rect::new(10, 10, 90, 90));
    // Without a cursor the larger window wins.
    let window = detect_active_window(&canvas.scene(), None).unwrap();
    assert_eq!(window.geometry, Rect::new(150, 60, 210, 180));
}

#[test]
fn lone_small_borderless_window_is_accepted() {
    let mut canvas = Canvas::new(400, 300, [30, 30, 30, 255]);
    canvas.fill(20, 20, 50, 40, [180, 180, 180, 255]);
    let window = detect_active_window(&canvas.scene(), None).unwrap();
    assert_eq!(window.geometry, Rect::new(20, 20, 50, 40));
}

#[test]
fn uniform_fullscreen_content_degrades_to_the_whole_frame() {
    let canvas = Canvas::new(400, 300, [50, 90, 130, 255]);
    let window = detect_active_window(&canvas.scene(), None).unwrap();
    assert_eq!(window.geometry, Rect::new(0, 0, 400, 300));
}

#[test]
fn seamless_tiling_of_several_windows_reports_failure() {
    let mut canvas = Canvas::new(400, 300, [100, 100, 100, 255]);
    canvas.fill(200, 0, 200, 300, [200, 200, 200, 255]);
    let error = detect_active_window(&canvas.scene(), None).unwrap_err();
    assert!(error.message().contains("pixel fallback"), "{error:?}");
}

/// Two windows on a dark wallpaper, each stroked by the compositor: the
/// focused one in orange, the other in gray.  The stroke is read off its
/// border bands, so the crop is the window's own rectangle, and the vivid
/// stroke settles which of the two is active.
#[test]
fn ring_reads_the_stroked_window_and_prefers_the_vivid_stroke() {
    let mut canvas = Canvas::new(400, 300, [40, 60, 80, 255]);
    let windows: [(i32, i32, u32, u32, [u8; 4]); 2] = [
        (20, 40, 160, 220, [255, 140, 0, 255]),
        (220, 60, 160, 180, [90, 90, 90, 255]),
    ];
    for (x, y, width, height, stroke) in windows {
        canvas.fill(x, y, width, height, [200, 200, 200, 255]);
        canvas.fill(x, y, width, 3, stroke);
        canvas.fill(x, y + height as i32 - 3, width, 3, stroke);
        canvas.fill(x, y, 3, height, stroke);
        canvas.fill(x + width as i32 - 3, y, 3, height, stroke);
    }
    // Only the vivid stroke is a ring the ladder will use; it wins without
    // any pointer help.
    assert_eq!(
        detect_active_window(&canvas.scene(), None)
            .unwrap()
            .geometry,
        Rect::new(20, 40, 160, 220)
    );
    // A vivid stroke says *this* window is focused, so it outranks the
    // window merely under the pointer — but the pointer still has to be
    // able to pick that window by hand, which is what the candidates below
    // are for.
    assert_eq!(
        detect_active_window(&canvas.scene(), Some(Point::new(300, 150)))
            .unwrap()
            .geometry,
        Rect::new(20, 40, 160, 220)
    );
    // Picking is offered both windows, stroke included.
    let candidates = detect_window_candidates(&canvas.scene());
    assert!(
        candidates.contains(&Rect::new(20, 40, 160, 220)),
        "{candidates:?}"
    );
    assert!(
        candidates.contains(&Rect::new(220, 60, 160, 180)),
        "{candidates:?}"
    );
}

/// A gray ring is a rectangle of the right shape, not evidence of focus.
/// It must not outrank a real window on the other output.
#[test]
fn a_gray_ring_does_not_outrank_another_outputs_window() {
    let mut left = Canvas::new(400, 300, [40, 60, 80, 255]);
    left.fill(20, 40, 160, 220, [200, 200, 200, 255]);
    for (x, y, width, height) in [(20, 40, 160, 3), (20, 257, 160, 3), (20, 40, 3, 220)] {
        left.fill(x, y, width, height, [90, 90, 90, 255]);
    }
    left.fill(177, 40, 3, 220, [90, 90, 90, 255]);
    let mut right = Canvas::new(400, 300, [30, 30, 30, 255]);
    right.fill(150, 60, 210, 180, [220, 220, 220, 255]);
    let scene = SceneSnapshot::from_outputs(vec![
        OutputSnapshot::new(
            1,
            "left",
            Rect::new(0, 0, 400, 300),
            1,
            Frame::new(Size::new(400, 300), left.pixels.clone()).unwrap(),
        )
        .unwrap(),
        OutputSnapshot::new(
            2,
            "right",
            Rect::new(400, 0, 400, 300),
            1,
            Frame::new(Size::new(400, 300), right.pixels.clone()).unwrap(),
        )
        .unwrap(),
    ])
    .unwrap();
    // The pointer is on the right output, whose window carries no stroke.
    assert_eq!(
        detect_active_window(&scene, Some(Point::new(600, 150)))
            .unwrap()
            .geometry,
        Rect::new(550, 60, 210, 180)
    );
    // The gray-stroked window is still offered for picking by hand.
    let candidates = detect_window_candidates(&scene);
    assert!(
        candidates.contains(&Rect::new(20, 40, 160, 220)),
        "{candidates:?}"
    );
}

#[test]
fn rings_are_different_windows_of_the_picture() {
    let mut canvas = Canvas::new(400, 300, [40, 60, 80, 255]);
    for (x, stroke) in [(20, [51, 204, 255, 255]), (220, [90, 90, 90, 255])] {
        canvas.fill(x, 40, 160, 220, stroke);
        canvas.fill(x + 3, 43, 154, 214, [200, 200, 200, 255]);
    }
    let frame = Frame::new(Size::new(400, 300), canvas.pixels.clone()).unwrap();
    let factor = analysis_factor(frame.size());
    assert_eq!(factor, 1);
    let rings = ring_candidates(&AnalysisFrame::sample(&frame, factor));
    let rects: Vec<Rect> = rings.iter().map(|ring| ring.rect).collect();
    assert_eq!(rects[0], Rect::new(20, 40, 160, 220), "the vivid one comes first");
    assert!(rects.contains(&Rect::new(220, 40, 160, 220)));
    for (i, rect) in rects.iter().enumerate() {
        assert_eq!(rect.intersection(Rect::new(0, 0, 400, 300)), Some(*rect));
        assert!(rect.size.width > 36 && rect.size.height > 36);
        assert!(!rects[..i].contains(rect));
    }
}

#[test]
fn detection_never_spans_outputs() {
    // A scale-1 output beside a scale-2 one, each with a window on a plain
    // wallpaper.  No candidate crosses the seam between the two.
    let mut left = Canvas::new(400, 300, [30, 30, 30, 255]);
    left.fill(20, 20, 180, 120, [220, 220, 220, 255]);
    let mut right = Canvas::new(800, 600, [30, 30, 30, 255]);
    // Inset from the frame's edges: the background flood is seeded from
    // every edge pixel, so a window that touches one is absorbed with it.
    right.fill(150, 100, 500, 400, [210, 210, 210, 255]);
    let scene = SceneSnapshot::from_outputs(vec![
        OutputSnapshot::new(
            1,
            "left",
            Rect::new(0, 0, 400, 300),
            1,
            Frame::new(Size::new(400, 300), left.pixels.clone()).unwrap(),
        )
        .unwrap(),
        OutputSnapshot::new(
            2,
            "right",
            Rect::new(400, 0, 400, 300),
            2,
            Frame::new(Size::new(800, 600), right.pixels.clone()).unwrap(),
        )
        .unwrap(),
    ])
    .unwrap();

    // The pointer decides which output is meant — the right window is the
    // bigger one, so the left answer can only come from the pointer's
    // output — and each answer is in that output's own coordinates: the
    // scale-2 window maps back to half its device size.
    assert_eq!(
        detect_active_window(&scene, Some(Point::new(100, 80)))
            .unwrap()
            .geometry,
        Rect::new(20, 20, 180, 120)
    );
    assert_eq!(
        detect_active_window(&scene, Some(Point::new(600, 150)))
            .unwrap()
            .geometry,
        Rect::new(475, 50, 250, 200)
    );
    // Without a pointer to place the intent, the bigger window wins.
    assert_eq!(
        detect_active_window(&scene, None).unwrap().geometry,
        Rect::new(475, 50, 250, 200)
    );
    // Nothing offered for picking crosses the seam either.
    assert!(detect_window_candidates(&scene)
        .iter()
        .all(|rect| rect.size.width <= 400));
    let candidates = detect_window_candidates(&scene);
    assert!(!candidates.is_empty());
    for rect in candidates {
        assert!(!rect.is_empty());
        let own = |area: Rect| rect.intersection(area) == Some(rect);
        assert!(
            own(Rect::new(0, 0, 400, 300)) != own(Rect::new(400, 0, 400, 300)),
            "{rect:?} lies on one output"
        );
    }
}

#[test]
fn candidates_cover_every_window_for_picking() {
    let mut canvas = Canvas::new(400, 300, [30, 30, 30, 255]);
    canvas.fill(150, 60, 210, 180, [220, 220, 220, 255]);
    canvas.fill(10, 10, 90, 90, [90, 90, 90, 255]);
    // Largest first, so hovering can simply take the last candidate that
    // contains the pointer (the innermost window wins).
    assert_eq!(
        detect_window_candidates(&canvas.scene()),
        vec![Rect::new(150, 60, 210, 180), Rect::new(10, 10, 90, 90)]
    );
}

#[test]
fn candidates_stay_empty_without_a_pixel_signal() {
    // Seamless borderless tiling: nothing to offer, honestly empty.
    let mut canvas = Canvas::new(400, 300, [100, 100, 100, 255]);
    canvas.fill(200, 0, 200, 300, [200, 200, 200, 255]);
    assert!(detect_window_candidates(&canvas.scene()).is_empty());
}

#[test]
fn detection_maps_through_the_scene_scale() {
    // One scale-2 output: logical 200x150, device 400x300. The window is
    // painted in device pixels and must map back to logical ones.
    let mut device = Canvas::new(400, 300, [30, 30, 30, 255]);
    device.fill(100, 80, 200, 140, [220, 220, 220, 255]);
    let scene = SceneSnapshot::from_outputs(vec![OutputSnapshot::new(
        1,
        "hidpi",
        Rect::new(0, 0, 200, 150),
        2,
        Frame::new(Size::new(400, 300), device.pixels.clone()).unwrap(),
    )
    .unwrap()])
    .unwrap();
    let window = detect_active_window(&scene, None).unwrap();
    assert_eq!(window.geometry, Rect::new(50, 40, 100, 70));
}
