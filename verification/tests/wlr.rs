use vshot::capture::wlr::{
    buffer_arguments, convert_shm_pixels, plan_buffer, region_arguments, ShmFormat, ShmOffer,
};
use vshot::error::VshotError;
use vshot::geometry::{Point, Rect, Size};

#[test]
fn converts_xrgb_with_padding_and_y_inversion() {
    let map = vec![
        3, 2, 1, 99, 0, 0, 0, 0, // source row 0
        6, 5, 4, 88, 0, 0, 0, 0, // source row 1
    ];
    let frame = convert_shm_pixels(&map, 1, 2, 8, ShmFormat::Xrgb8888, true).unwrap();
    assert_eq!(frame.size(), Size::new(1, 2));
    assert_eq!(
        frame.pixel(Point::new(0, 0)),
        Some([4, 5, 6, 255])
    );
    assert_eq!(
        frame.pixel(Point::new(0, 1)),
        Some([1, 2, 3, 255])
    );
}

#[test]
fn converts_argb_alpha_without_reading_padding() {
    let map = vec![30, 20, 10, 77, 255, 255, 255, 255];
    let frame = convert_shm_pixels(&map, 1, 1, 8, ShmFormat::Argb8888, false).unwrap();
    assert_eq!(
        frame.pixel(Point::new(0, 0)),
        Some([10, 20, 30, 77])
    );
}

fn offer(width: u32, height: u32, stride: u32) -> ShmOffer {
    ShmOffer {
        format: ShmFormat::Xrgb8888,
        width,
        height,
        stride,
    }
}

#[test]
fn a_buffer_is_planned_from_the_stride() {
    let plan = plan_buffer(&offer(3, 5, 16)).unwrap();
    assert_eq!((plan.bytes, plan.pool_size, plan.stride), (80, 80, 16));
    assert!(matches!(
        plan_buffer(&offer(5, 5, 16)),
        Err(VshotError::WaylandProtocol(_))
    ));
    assert!(matches!(
        plan_buffer(&offer(1 << 16, 1 << 16, 1 << 18)),
        Err(VshotError::WaylandProtocol(_))
    ));
    let mut odd = offer(3, 5, 16);
    odd.format = ShmFormat::Other("Nv12".to_owned());
    assert!(matches!(
        plan_buffer(&odd),
        Err(VshotError::UnsupportedOutput(_))
    ));
}

#[test]
fn the_protocol_counts_in_signed_numbers() {
    assert_eq!(buffer_arguments(3, 5, 16).unwrap(), (3, 5, 16));
    assert!(buffer_arguments(1 << 31, 5, 16).is_err());
    assert!(buffer_arguments(3, 1 << 31, 16).is_err());
    assert_eq!(
        region_arguments(Rect::new(-1, 2, 3, 4)).unwrap(),
        (-1, 2, 3, 4)
    );
    assert!(region_arguments(Rect::new(0, 0, 1 << 31, 4)).is_err());
}

#[test]
fn a_map_that_is_too_short_is_refused() {
    assert!(convert_shm_pixels(&[0; 7], 1, 2, 4, ShmFormat::Argb8888, false).is_err());
    assert!(convert_shm_pixels(&[0; 8], 2, 1, 4, ShmFormat::Argb8888, false).is_err());
}
