use ruffle::vp6::luma_to_rgba;

#[test]
fn luma_becomes_grey_opaque_pixels() {
    assert_eq!(luma_to_rgba(&[0, 128, 255], 3), vec![0, 0, 0, 255, 128, 128, 128, 255, 255, 255, 255, 255]);
}

#[test]
fn only_the_first_pixels_are_expanded() {
    assert_eq!(luma_to_rgba(&[7, 9], 1), vec![7, 7, 7, 255]);
    assert!(luma_to_rgba(&[], 0).is_empty());
}

use ruffle::vp6::{preload_frame, FrameDependency};

#[test]
fn inter_frames_depend_on_the_past() {
    assert_eq!(preload_frame(&[0x80, 0, 0, 0], (320, 240)), (FrameDependency::Past, None));
    assert_eq!(preload_frame(&[], (320, 240)), (FrameDependency::Past, None));
}

#[test]
fn key_frame_without_offset() {
    // marker 0, version bits 0b011 set: counts at bytes 2 and 3
    let data = [0x00, 0x06, 15, 20];
    // 320 - 16 * 20 = 0, 240 - 16 * 15 = 0
    assert_eq!(preload_frame(&data, (320, 240)), (FrameDependency::Standalone, Some((0, 0))));
    assert_eq!(preload_frame(&data, (318, 236)), (FrameDependency::Standalone, Some((-2, -4))));
}

#[test]
fn key_frame_with_offset() {
    // marker bit set: counts at bytes 4 and 5
    let data = [0x01, 0x06, 0, 0, 10, 12];
    assert_eq!(preload_frame(&data, (200, 170)), (FrameDependency::Standalone, Some((8, 10))));
    // version bits clear also means an offset
    let v = [0x00, 0x00, 99, 99, 1, 1];
    assert_eq!(preload_frame(&v, (16, 16)), (FrameDependency::Standalone, Some((0, 0))));
}

#[test]
fn adjustment_wraps_to_a_byte() {
    let data = [0x00, 0x06, 0, 0];
    // 300 - 0 = 300 does not fit a signed byte: 300 - 256 = 44
    assert_eq!(preload_frame(&data, (300, 0)), (FrameDependency::Standalone, Some((44, 0))));
}
