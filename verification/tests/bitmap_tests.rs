use ruffle::bitmap::{Bitmap, BitmapFormat};

#[test]
fn length_for_each_format() {
    assert_eq!(BitmapFormat::Rgb.length_for_size(3, 2), 18);
    assert_eq!(BitmapFormat::Rgba.length_for_size(3, 2), 24);
    // luma 3x3, chroma 2x2 twice
    assert_eq!(BitmapFormat::Yuv420p.length_for_size(3, 3), 9 + 8);
    assert_eq!(BitmapFormat::Yuva420p.length_for_size(3, 3), 18 + 8);
    assert_eq!(BitmapFormat::Yuv420p.length_for_size(4, 2), 8 + 4);
    assert_eq!(BitmapFormat::Rgba.length_for_size(0, 5), 0);
}

#[test]
fn new_pads_short_data_with_zeros() {
    let b = Bitmap::new(2, 1, BitmapFormat::Rgba, vec![1, 2, 3]);
    assert_eq!(b.data(), &[1, 2, 3, 0, 0, 0, 0, 0]);
    assert_eq!(b.width(), 2);
    assert_eq!(b.height(), 1);
    assert_eq!(b.format(), BitmapFormat::Rgba);
}

#[test]
fn new_truncates_long_data() {
    let b = Bitmap::new(1, 1, BitmapFormat::Rgb, vec![9, 8, 7, 6, 5]);
    assert_eq!(b.data(), &[9, 8, 7]);
}

#[test]
fn new_keeps_exact_data() {
    let data: Vec<u8> = (0..17).collect();
    let b = Bitmap::new(3, 3, BitmapFormat::Yuv420p, data.clone());
    assert_eq!(b.data(), &data[..]);
    assert_eq!(b.chroma_width(), 2);
    assert_eq!(b.chroma_height(), 2);
}

#[test]
fn data_mut_writes_through() {
    let mut b = Bitmap::new(1, 1, BitmapFormat::Rgb, vec![0, 0, 0]);
    b.data_mut()[1] = 42;
    assert_eq!(b.data(), &[0, 42, 0]);
}

#[test]
fn as_colors_of_rgb_is_opaque() {
    let b = Bitmap::new(2, 1, BitmapFormat::Rgb, vec![1, 2, 3, 4, 5, 6]);
    assert_eq!(b.as_colors(), vec![0xFF010203u32 as i32, 0xFF040506u32 as i32]);
}

#[test]
fn as_colors_of_rgba_keeps_alpha() {
    let b = Bitmap::new(1, 1, BitmapFormat::Rgba, vec![0x10, 0x20, 0x30, 0x40]);
    assert_eq!(b.as_colors(), vec![0x40102030]);
}

/// A stand-in converter that records the planes it is handed: each pixel
/// becomes its luma, the first chroma sample, the first second-chroma
/// sample, and the width.
fn recording_converter(y: &[u8], u: &[u8], v: &[u8], width: usize) -> Vec<u8> {
    let mut out = Vec::new();
    for &l in y {
        out.extend_from_slice(&[l, u[0], v[0], width as u8]);
    }
    out
}

#[test]
fn to_rgba_expands_rgb() {
    let b = Bitmap::new(2, 1, BitmapFormat::Rgb, vec![1, 2, 3, 4, 5, 6]).to_rgba(recording_converter);
    assert_eq!(b.format(), BitmapFormat::Rgba);
    assert_eq!(b.data(), &[1, 2, 3, 255, 4, 5, 6, 255]);
}

#[test]
fn to_rgba_keeps_rgba() {
    let b = Bitmap::new(1, 1, BitmapFormat::Rgba, vec![1, 2, 3, 4]).to_rgba(recording_converter);
    assert_eq!(b.data(), &[1, 2, 3, 4]);
}

#[test]
fn to_rgba_hands_yuv_planes_to_converter() {
    // 2x2 luma, one sample per chroma plane
    let b = Bitmap::new(2, 2, BitmapFormat::Yuv420p, vec![10, 11, 12, 13, 20, 30]).to_rgba(recording_converter);
    assert_eq!(b.format(), BitmapFormat::Rgba);
    assert_eq!(
        b.data(),
        &[10, 20, 30, 2, 11, 20, 30, 2, 12, 20, 30, 2, 13, 20, 30, 2]
    );
}

#[test]
fn to_rgba_clamps_yuva_to_alpha() {
    // luma 2x1, chroma 1x1 each, alpha 2x1
    let b = Bitmap::new(2, 1, BitmapFormat::Yuva420p, vec![100, 5, 50, 60, 40, 255]).to_rgba(recording_converter);
    assert_eq!(b.data(), &[40, 40, 40, 40, 5, 50, 60, 255]);
}

#[test]
fn to_rgb_drops_converted_alpha() {
    let b = Bitmap::new(1, 1, BitmapFormat::Yuv420p, vec![7, 8, 9]).to_rgb(recording_converter);
    assert_eq!(b.format(), BitmapFormat::Rgb);
    assert_eq!(b.data(), &[7, 8, 9]);
    let rgb = Bitmap::new(1, 1, BitmapFormat::Rgb, vec![1, 2, 3]).to_rgb(recording_converter);
    assert_eq!(rgb.data(), &[1, 2, 3]);
}
