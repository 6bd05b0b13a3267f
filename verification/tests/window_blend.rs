use vshot::capture::window_blend::{
    best_position, collect_samples, collect_structure_samples, locate_window, renders_agree, COARSE_SAMPLES,
    REFINE_SAMPLES,
};
use vshot::geometry::{Point, Rect, Size};
use vshot::model::Frame;

/// A deterministic noisy background, so a wrong position cannot resemble
/// the window by accident.
fn noise_frame(width: u32, height: u32) -> Frame {
    let mut pixels = Vec::with_capacity(width as usize * height as usize * 4);
    for y in 0..height {
        for x in 0..width {
            let value = ((x * 7 + y * 13) % 251) as u8;
            pixels.extend_from_slice(&[
                value,
                value.wrapping_mul(3),
                value.wrapping_add(9),
                255,
            ]);
        }
    }
    Frame::new(Size::new(width, height), pixels).unwrap()
}

/// A textured window render: every pixel distinct, so only the true
/// position can match.  The colour is premultiplied by the alpha, the form
/// niri writes `screenshot-window` output in — measured against a live
/// niri, every pixel of such a render obeys RGB ≤ alpha.
fn textured_window(width: u32, height: u32, alpha: u8) -> Frame {
    let mut pixels = Vec::with_capacity(width as usize * height as usize * 4);
    for y in 0..height {
        for x in 0..width {
            let scale = |v: u32| ((v * u32::from(alpha) + 127) / 255) as u8;
            pixels.extend_from_slice(&[
                scale(x * 5 + 11),
                scale(y * 9 + 23),
                scale(x * 3 + y * 4 + 41),
                alpha,
            ]);
        }
    }
    Frame::new(Size::new(width, height), pixels).unwrap()
}

/// A screen frame with `window` composited over it the way a compositor
/// does in premultiplied space: `screen = render + background · (1−α)`,
/// matching what niri actually puts on the screen for a render it wrote
/// premultiplied.  The original background stays fully recoverable — this
/// is a paste onto an opaque frame, so the output alpha stays 255.
fn composited(background: &Frame, window: &Frame, origin: Point) -> Frame {
    let mut pixels = background.pixels().to_vec();
    let width = background.size().width as usize;
    for y in 0..window.size().height {
        for x in 0..window.size().width {
            let Some(color) = window.pixel(Point::new(x as i32, y as i32)) else {
                continue;
            };
            let alpha = i32::from(color[3]);
            if alpha == 0 {
                continue;
            }
            let px = i64::from(origin.x) + i64::from(x);
            let py = i64::from(origin.y) + i64::from(y);
            if px < 0 || py < 0 {
                continue;
            }
            let (px, py) = (px as usize, py as usize);
            let index = (py * width + px) * 4;
            for channel in 0..3 {
                let rendered = i32::from(pixels[index + channel]);
                let premultiplied = i32::from(color[channel]);
                pixels[index + channel] =
                    (premultiplied + rendered * (255 - alpha) / 255).min(255) as u8;
            }
        }
    }
    Frame::new(background.size(), pixels).unwrap()
}

#[test]
fn an_opaque_window_is_found_where_it_was_pasted() {
    let frame = noise_frame(400, 300);
    let window = textured_window(60, 40, 255);
    let screen = composited(&frame, &window, Point::new(123, 87));
    assert_eq!(
        locate_window(&window, &screen),
        Some(Rect::new(123, 87, 60, 40))
    );
}

#[test]
fn a_window_in_the_last_corner_is_found() {
    let frame = noise_frame(400, 300);
    let window = textured_window(60, 40, 255);
    for at in [Point::new(340, 260), Point::new(0, 0), Point::new(339, 0)] {
        let screen = composited(&frame, &window, at);
        assert_eq!(
            locate_window(&window, &screen),
            Some(Rect::new(at.x, at.y, 60, 40))
        );
    }
}

#[test]
fn of_two_places_that_fit_alike_the_first_is_taken() {
    let frame = noise_frame(400, 300);
    let window = textured_window(60, 40, 255);
    let screen = composited(&frame, &window, Point::new(240, 160));
    let screen = composited(&screen, &window, Point::new(300, 80));
    // Row by row: the upper one, though it lies further right.
    assert_eq!(
        locate_window(&window, &screen),
        Some(Rect::new(300, 80, 60, 40))
    );
    let screen = composited(&screen, &window, Point::new(40, 80));
    assert_eq!(
        locate_window(&window, &screen),
        Some(Rect::new(40, 80, 60, 40))
    );
}

#[test]
fn a_sweep_takes_the_first_of_the_best_places() {
    let frame = noise_frame(120, 90);
    let window = textured_window(60, 40, 255);
    let screen = composited(&frame, &window, Point::new(30, 20));
    let samples = collect_structure_samples(&window, COARSE_SAMPLES);
    // A step that meets the place finds it with every sample.
    for step in [1, 2, 5, 10] {
        assert_eq!(
            best_position(&screen, &samples, &window, step),
            Some((30, 20, samples.len()))
        );
    }
    // A step past the frame tries nothing but the corner.
    let corner = best_position(&screen, &samples, &window, 1000).expect("the window fits");
    assert_eq!((corner.0, corner.1), (0, 0));
    assert!(corner.2 < samples.len());
    // Without a sample all places are alike, and the first is taken.
    assert_eq!(best_position(&screen, &Vec::new(), &window, 3), Some((0, 0, 0)));
    // A window as large as the frame has one place, a larger one has none.
    assert_eq!(
        best_position(&window, &samples, &window, 4),
        Some((0, 0, samples.len()))
    );
    assert_eq!(best_position(&window, &samples, &frame, 4), None);
    let tall = textured_window(10, 91, 255);
    assert_eq!(best_position(&frame, &samples, &tall, 4), None);
}

#[test]
fn a_translucent_window_is_found_through_its_background() {
    // 80% opacity: the screen pixel is four fifths window, one fifth
    // background — exactly the mix the match has to tolerate.
    let frame = noise_frame(400, 300);
    let window = textured_window(60, 40, 204);
    let screen = composited(&frame, &window, Point::new(210, 130));
    assert_eq!(
        locate_window(&window, &screen),
        Some(Rect::new(210, 130, 60, 40))
    );
}

#[test]
fn a_wrong_position_never_outranks_the_true_one() {
    let frame = noise_frame(400, 300);
    let window = textured_window(60, 40, 204);
    let screen = composited(&frame, &window, Point::new(210, 130));
    // Somewhere else entirely must not match.
    assert_eq!(
        locate_window(&window, &screen),
        Some(Rect::new(210, 130, 60, 40))
    );
}

/// A window that is almost entirely one flat colour with a single
/// structured block in it — a terminal showing a little text on a solid
/// background.
///
/// The block sits between the lines of a coarse sample grid, so a search that
/// samples by opacity alone would only see the flat part.
fn mostly_flat_window(width: u32, height: u32) -> Frame {
    let mut pixels = vec![0u8; width as usize * height as usize * 4];
    for y in 0..height {
        for x in 0..width {
            let index = (y as usize * width as usize + x as usize) * 4;
            // Premultiplied: RGB ≤ alpha, the form niri writes.
            pixels[index..index + 4].copy_from_slice(&[200, 194, 180, 204]);
        }
    }
    // A striped block at x=100..105, y=40..60 — off the coarse grid.
    for y in 40..60u32 {
        for x in 100..105u32 {
            let index = (y as usize * width as usize + x as usize) * 4;
            let color: [u8; 4] = match (x * 37 + y * 11) % 3 {
                0 => [40, 40, 40, 255],
                1 => [220, 220, 220, 255],
                _ => [30, 90, 200, 255],
            };
            pixels[index..index + 4].copy_from_slice(&color);
        }
    }
    Frame::new(Size::new(width, height), pixels).unwrap()
}

#[test]
fn a_flat_window_is_not_located_where_its_background_happens_to_match() {
    // The desktop has the hue of the window's background, so that a match of
    // the flat part alone would pass anywhere.
    let mut background = vec![0u8; 900 * 700 * 4];
    for pixel in background.chunks_exact_mut(4) {
        pixel.copy_from_slice(&[204, 198, 184, 255]);
    }
    let frame = Frame::new(Size::new(900, 700), background).unwrap();
    let window = mostly_flat_window(400, 300);
    let screen = composited(&frame, &window, Point::new(500, 300));
    assert_eq!(
        locate_window(&window, &screen),
        Some(Rect::new(500, 300, 400, 300)),
        "the structured block has to decide the position, not the flat background"
    );
}

#[test]
fn a_render_with_nothing_structured_falls_back_to_the_opaque_sampler() {
    let window = Frame::solid(Size::new(60, 40), [30, 30, 200, 204]).unwrap();
    let samples = collect_structure_samples(&window, COARSE_SAMPLES);
    assert!(
        !samples.is_empty(),
        "a structured-less render still samples its opaque pixels"
    );
}

#[test]
fn samples_spread_over_both_axes_of_a_tall_render() {
    // The samples have to reach the bottom of the render, not just its top.
    let window = textured_window(1880, 2112, 255);
    let samples = collect_samples(&window, REFINE_SAMPLES);
    let deepest = samples.iter().map(|sample| sample.y).max().unwrap();
    assert!(
        deepest > window.size().height / 2,
        "samples stop at y={deepest} of {}",
        window.size().height
    );
    let widest = samples.iter().map(|sample| sample.x).max().unwrap();
    assert!(
        widest > window.size().width / 2,
        "samples stop at x={widest} of {}",
        window.size().width
    );
}

#[test]
fn a_tall_window_is_found_exactly_where_it_was_pasted() {
    let frame = noise_frame(900, 1200);
    let window = textured_window(300, 900, 255);
    let screen = composited(&frame, &window, Point::new(120, 240));
    assert_eq!(
        locate_window(&window, &screen),
        Some(Rect::new(120, 240, 300, 900))
    );
}

#[test]
fn a_window_that_is_not_on_the_frame_is_not_found() {
    let frame = noise_frame(400, 300);
    let window = textured_window(60, 40, 255);
    assert_eq!(locate_window(&window, &frame), None);
}

#[test]
fn a_render_too_translucent_to_verify_is_reported_as_unlocatable() {
    // Alpha 100: the background dominates every pixel, and no position can
    // be verified — the caller is told so instead of being handed a guess.
    let frame = noise_frame(400, 300);
    let window = textured_window(60, 40, 100);
    assert_eq!(locate_window(&window, &frame), None);
}

#[test]
fn a_window_larger_than_the_frame_is_not_found() {
    let frame = noise_frame(100, 80);
    let window = textured_window(120, 90, 255);
    assert_eq!(locate_window(&window, &frame), None);
}

#[test]
fn two_renders_of_unchanged_content_agree() {
    let window = textured_window(60, 40, 204);
    assert!(renders_agree(&window, &window.clone()));
}

#[test]
fn a_changed_pixel_disagrees() {
    // The window's content moved on between the two renders: the very
    // first sampled pixel (top left is always on the sample grid) carries
    // another colour, and stability must not be claimed.
    let a = textured_window(60, 40, 204);
    let mut pixels = a.pixels().to_vec();
    pixels[0..3].copy_from_slice(&[1, 2, 3]);
    let b = Frame::new(a.size(), pixels).unwrap();
    assert!(!renders_agree(&a, &b));
}

#[test]
fn a_resize_is_not_stability() {
    let a = textured_window(60, 40, 204);
    let b = textured_window(61, 40, 204);
    assert!(!renders_agree(&a, &b));
}

#[test]
fn a_render_with_nothing_to_verify_is_called_stable_when_its_size_holds() {
    // Alpha 100: no sample qualifies, so there is nothing to compare —
    // sizes agreeing is the whole verdict, and the caller treats it as the
    // positional dead end it is.
    let a = textured_window(60, 40, 100);
    assert!(renders_agree(&a, &a.clone()));
}
