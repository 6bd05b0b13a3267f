use vshot::capture::dmabuf::{
    modifier_count, split_modifier, zero_pixel, Allocation, GbmBuffer, DRM_FORMAT_XRGB8888,
};

#[test]
fn a_buffer_has_to_have_pixels() {
    assert!(zero_pixel(0, 4).is_some());
    assert!(zero_pixel(4, 0).is_some());
    assert!(zero_pixel(4, 4).is_none());
}

#[test]
fn a_modifier_is_sent_in_two_halves() {
    assert_eq!(
        split_modifier(0x0123_4567_89ab_cdef),
        (0x0123_4567, 0x89ab_cdef)
    );
    assert_eq!(split_modifier(1 << 56), (1 << 24, 0));
    assert_eq!(modifier_count(&[0, 1]), 2);
}

#[test]
fn an_allocation_becomes_a_buffer_or_says_why_not() {
    let allocation = Allocation {
        modifier: 1 << 56,
        fd: 9,
        stride: 256,
        offset: 64,
    };
    let buffer = GbmBuffer::wrap(Some(allocation), 60, 40, DRM_FORMAT_XRGB8888, "").unwrap();
    assert_eq!((buffer.fd(), buffer.stride(), buffer.offset()), (9, 256, 64));
    assert_eq!((buffer.width(), buffer.height()), (60, 40));
    assert_eq!(buffer.fourcc(), DRM_FORMAT_XRGB8888);
    assert_eq!(buffer.modifier(), 1 << 56);
    let frame = buffer.frame();
    assert_eq!((frame.width, frame.height), (60, 40));
    assert_eq!(frame.modifier, 1 << 56);
    // The last row does not have to be padded to the stride.
    assert_eq!(buffer.map_length(), 64 + 39 * 256 + 60 * 4);

    let error = GbmBuffer::wrap(None, 60, 40, DRM_FORMAT_XRGB8888, "ENOSPC").unwrap_err();
    assert!(error.message().contains("ENOSPC"), "{error:?}");
}

#[test]
fn a_mapped_buffer_reads_as_opaque_pixels() {
    let buffer = GbmBuffer {
        fd: 3,
        fourcc: DRM_FORMAT_XRGB8888,
        modifier: 0,
        stride: 8,
        offset: 4,
        width: 1,
        height: 2,
    };
    let map = [
        9, 9, 9, 9, // before the picture
        3, 2, 1, 0, 9, 9, 9, 9, // blue, green, red, nothing; padding
        6, 5, 4, 77,
    ];
    assert_eq!(buffer.map_length(), map.len());
    assert_eq!(buffer.read_rgba(&map), [1, 2, 3, 255, 4, 5, 6, 255]);
}
