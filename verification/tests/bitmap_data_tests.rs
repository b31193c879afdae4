use ruffle::bitmap::BitmapHandle;
use ruffle::bitmap_data::BitmapData;
use ruffle::color::{ChannelOptions, Color, LehmerRng};

fn bitmap(width: u32, height: u32, fill: i32, transparency: bool) -> BitmapData {
    let mut b = BitmapData::default();
    b.init_pixels(width, height, fill, transparency);
    b
}

fn from_rows(rows: &[&[i32]], transparency: bool) -> BitmapData {
    let height = rows.len() as u32;
    let width = rows[0].len() as u32;
    let mut b = bitmap(width, height, 0, transparency);
    let mut pixels = Vec::new();
    for row in rows {
        for &p in row.iter() {
            pixels.push(Color(p));
        }
    }
    b.set_pixels(pixels);
    b
}

fn raw(b: &BitmapData) -> Vec<i32> {
    b.pixels().iter().map(|c| c.0).collect()
}

#[test]
fn init_pixels_fills_premultiplied() {
    let b = bitmap(3, 2, Color::argb(128, 255, 0, 0).0, true);
    assert_eq!(b.width(), 3);
    assert_eq!(b.height(), 2);
    assert!(b.transparency());
    assert!(b.dirty());
    assert_eq!(b.pixels().len(), 6);
    for p in b.pixels() {
        assert_eq!(*p, Color::argb(128, 128, 0, 0));
    }
    let opaque = bitmap(2, 2, Color::argb(0, 10, 20, 30).0, false);
    assert_eq!(opaque.pixels()[0], Color::argb(255, 10, 20, 30));
}

#[test]
fn dispose_empties_bitmap() {
    let mut b = bitmap(4, 4, -1, true);
    b.set_dirty(false);
    b.dispose();
    assert_eq!(b.width(), 0);
    assert_eq!(b.height(), 0);
    assert!(b.pixels().is_empty());
    assert!(b.dirty());
}

#[test]
fn set_then_get_pixel32_reads_back() {
    let mut b = bitmap(4, 3, 0, true);
    b.set_pixel32(2, 1, Color::argb(255, 1, 2, 3));
    assert_eq!(b.get_pixel32(2, 1), Color::argb(255, 1, 2, 3));
    b.set_pixel32(0, 0, Color::argb(128, 255, 100, 1));
    assert_eq!(b.pixels()[0], Color::argb(128, 128, 50, 1));
    assert_eq!(b.get_pixel32(0, 0), Color::argb(128, 255, 100, 2));
    let mut o = bitmap(2, 2, 0, false);
    o.set_pixel32(1, 1, Color::argb(7, 9, 8, 6));
    assert_eq!(o.get_pixel32(1, 1), Color::argb(255, 9, 8, 6));
}

#[test]
fn set_pixel32_outside_changes_nothing() {
    let mut b = bitmap(2, 2, 5, true);
    b.set_dirty(false);
    let before = raw(&b);
    b.set_pixel32(-1, 0, Color(-1));
    b.set_pixel32(2, 0, Color(-1));
    b.set_pixel32(0, 2, Color(-1));
    assert_eq!(raw(&b), before);
    assert!(!b.dirty());
}

#[test]
fn get_pixel_raw_reads_one_past_edges() {
    let b = from_rows(&[&[1, 2], &[3, 4]], true);
    assert_eq!(b.get_pixel_raw(1, 1), Some(Color(4)));
    // x == width reaches the start of the next row
    assert_eq!(b.get_pixel_raw(2, 0), Some(Color(3)));
    assert_eq!(b.get_pixel_raw(2, 1), None);
    assert_eq!(b.get_pixel_raw(3, 0), None);
    assert_eq!(b.get_pixel_raw(0, 3), None);
}

#[test]
fn get_pixel_drops_alpha_and_bounds() {
    let b = bitmap(2, 2, Color::argb(255, 1, 2, 3).0, true);
    assert_eq!(b.get_pixel(0, 0), 0x010203);
    assert_eq!(b.get_pixel(2, 0), 0);
    assert_eq!(b.get_pixel(-1, 0), 0);
    assert_eq!(b.get_pixel32(5, 5), Color(0));
}

#[test]
fn set_pixel_keeps_current_alpha() {
    let mut b = bitmap(2, 1, Color::argb(255, 0, 0, 0).0, true);
    b.set_pixel(1, 0, Color::argb(0, 10, 20, 30));
    assert_eq!(b.get_pixel32(1, 0), Color::argb(255, 10, 20, 30));
}

#[test]
fn fill_rect_clips_to_bitmap() {
    let mut b = bitmap(4, 4, 0, true);
    b.fill_rect(2, 2, 5, 5, Color::argb(255, 9, 9, 9));
    for y in 0..4 {
        for x in 0..4 {
            let expected = if x >= 2 && y >= 2 { Color::argb(255, 9, 9, 9) } else { Color(0) };
            assert_eq!(b.get_pixel32(x, y), expected, "at {} {}", x, y);
        }
    }
}

#[test]
fn pixels_rgba_orders_channels() {
    let b = from_rows(&[&[Color::argb(4, 1, 2, 3).0, Color::argb(8, 5, 6, 7).0]], true);
    assert_eq!(b.pixels_rgba(), vec![1, 2, 3, 4, 5, 6, 7, 8]);
}

#[test]
fn is_point_in_bounds_edges() {
    let b = bitmap(3, 2, 0, true);
    assert!(b.is_point_in_bounds(0, 0));
    assert!(b.is_point_in_bounds(2, 1));
    assert!(!b.is_point_in_bounds(3, 1));
    assert!(!b.is_point_in_bounds(2, 2));
    assert!(!b.is_point_in_bounds(-1, 0));
}

#[test]
fn bitmap_handle_registers_once() {
    let mut b = bitmap(1, 1, Color::argb(255, 1, 2, 3).0, true);
    let h = b.bitmap_handle(|w, h, rgba| {
        assert_eq!((w, h), (1, 1));
        assert_eq!(rgba, vec![1, 2, 3, 255]);
        Some(BitmapHandle(7))
    });
    assert_eq!(h, Some(BitmapHandle(7)));
    let again = b.bitmap_handle(|_, _, _| Some(BitmapHandle(8)));
    assert_eq!(again, Some(BitmapHandle(7)));
}

fn reference_noise(w: u32, h: u32, seed: i32, low: u8, high: u8, opts: u32, gray: bool) -> Vec<i32> {
    let true_seed = if seed <= 0 { (-seed + 1) as u32 } else { seed as u32 };
    let mut rng = LehmerRng::with_seed(true_seed);
    let opts = ChannelOptions::from(opts);
    let mut out = Vec::new();
    for _ in 0..h {
        for _ in 0..w {
            let c = if gray {
                let g = rng.gen_range(low..high);
                let a = if opts.alpha() { rng.gen_range(low..high) } else { 255 };
                Color::argb(a, g, g, g)
            } else {
                let r = if opts.red() { rng.gen_range(low..high) } else { 0 };
                let g = if opts.green() { rng.gen_range(low..high) } else { 0 };
                let b = if opts.blue() { rng.gen_range(low..high) } else { 0 };
                let a = if opts.alpha() { rng.gen_range(low..high) } else { 255 };
                Color::argb(a, r, g, b)
            };
            out.push(c.to_premultiplied_alpha(true).0);
        }
    }
    out
}

#[test]
fn noise_follows_lehmer_sequence() {
    for &(seed, gray, opts) in &[(1, false, 7u32), (0, false, 15), (-5, true, 8), (123, true, 0), (9, false, 2)] {
        let mut b = bitmap(3, 2, 0, true);
        b.noise(seed, 10, 200, ChannelOptions::from(opts), gray);
        assert_eq!(raw(&b), reference_noise(3, 2, seed, 10, 200, opts, gray));
    }
}

#[test]
fn noise_exact_first_pixel() {
    let mut b = bitmap(1, 1, 0, true);
    b.noise(1, 0, 255, ChannelOptions::from(1), false);
    // red = 16807 % 256 = 167, alpha stays 255
    assert_eq!(b.pixels()[0], Color::argb(255, 167, 0, 0));
}

#[test]
fn noise_same_seed_same_pixels() {
    let mut a = bitmap(5, 5, 0, true);
    let mut b = bitmap(5, 5, 0, true);
    a.noise(42, 0, 255, ChannelOptions::rgb(), false);
    b.noise(42, 0, 255, ChannelOptions::rgb(), false);
    assert_eq!(raw(&a), raw(&b));
}

#[test]
fn copy_channel_moves_red_into_alpha() {
    let mut dest = from_rows(&[&[0x11223344, 0x55667788u32 as i32]], true);
    let source = from_rows(&[&[0x00AB0000, 0x00CD0000]], true);
    dest.copy_channel((1, 0), (0, 0, 2, 1), &source, 1, 8);
    assert_eq!(raw(&dest), vec![0x11223344, 0xAB667788u32 as i32]);
}

#[test]
fn copy_channel_unknown_dest_keeps_colour() {
    let mut dest = from_rows(&[&[0x11223344]], true);
    let source = from_rows(&[&[-1]], true);
    dest.copy_channel((0, 0), (0, 0, 1, 1), &source, 4, 3);
    assert_eq!(raw(&dest), vec![0x11223344]);
}

#[test]
fn color_bounds_rect_single_match() {
    let b = from_rows(&[&[0, 0, 0], &[0, 0, 0], &[0, 0xFF, 0]], true);
    assert_eq!(b.color_bounds_rect(true, 0xFF, 0xFF), (1, 2, 1, 1));
    assert_eq!(b.color_bounds_rect(false, 0xFF, 0), (1, 2, 1, 1));
    assert_eq!(b.color_bounds_rect(true, 0xFF, 0x12), (0, 0, 0, 0));
}

#[test]
fn color_bounds_rect_scan_order() {
    // The scan keeps one past the last column it extended to, and only
    // extends again for a column beyond that value.
    let b = from_rows(
        &[
            &[0, 0xFF, 0, 0],
            &[0, 0, 0, 0],
            &[0, 0, 0xFF, 0],
            &[0, 0, 0, 0],
        ],
        true,
    );
    assert_eq!(b.color_bounds_rect(true, 0xFF, 0xFF), (1, 0, 1, 3));
    let all = bitmap(4, 4, 0, true);
    assert_eq!(all.color_bounds_rect(true, 0, 0), (0, 0, 3, 3));
}

#[test]
fn copy_pixels_plain_copy_clips() {
    let mut dest = bitmap(3, 3, 0, true);
    let source = from_rows(&[&[1, 2], &[3, 4]], true);
    dest.copy_pixels(&source, (0, 0, 2, 2), (2, 2), None);
    let mut expected = vec![0; 9];
    expected[8] = 1;
    assert_eq!(raw(&dest), expected);
}

#[test]
fn copy_pixels_blends_onto_opaque() {
    let mut dest = bitmap(1, 1, Color::argb(255, 200, 100, 0).0, false);
    let source = from_rows(&[&[Color::argb(128, 64, 0, 32).0]], true);
    dest.copy_pixels(&source, (0, 0, 1, 1), (0, 0), None);
    assert_eq!(dest.pixels()[0], Color::argb(254, 163, 49, 32));
}

#[test]
fn copy_pixels_with_alpha_bitmap() {
    let mut dest = bitmap(1, 1, 0, true);
    let source = from_rows(&[&[Color::argb(255, 200, 100, 50).0]], false);
    let alpha = from_rows(&[&[Color::argb(128, 0, 0, 0).0]], true);
    dest.copy_pixels(&source, (0, 0, 1, 1), (0, 0), Some((&alpha, (0, 0), false)));
    assert_eq!(dest.pixels()[0], Color::argb(128, 100, 50, 25));
}

#[test]
fn merge_mixes_channels() {
    let mut dest = from_rows(&[&[Color::argb(100, 100, 100, 100).0]], true);
    let source = from_rows(&[&[Color::argb(0, 1, 0, 0).0]], true);
    dest.merge(&source, (0, 0, 1, 1), (0, 0), (128, 256, 0, 0));
    // red: 1 * 128 + 100 * 128 / 256 = 178; green: 0 + 0; blue: 0 + 100; alpha: 0 + 100
    assert_eq!(dest.pixels()[0], Color::argb(100, 178, 0, 100));
}

#[test]
fn palette_map_sums_tables() {
    let mut tables = ([0u32; 256], [0u32; 256], [0u32; 256], [0u32; 256]);
    for i in 0..256 {
        tables.0[i] = (i as u32) << 16;
        tables.3[i] = 0xFF000000;
    }
    tables.1[5] = 0x0000_0700;
    let source = from_rows(&[&[Color::argb(255, 9, 5, 3).0]], true);
    let mut dest = bitmap(1, 1, 0, true);
    dest.palette_map(Some(&source), (0, 0, 1, 1), (0, 0), tables);
    assert_eq!(dest.pixels()[0], Color::argb(255, 9, 7, 0));
}

#[test]
fn palette_map_in_place_uses_own_pixels() {
    let mut tables = ([0u32; 256], [0u32; 256], [0u32; 256], [0u32; 256]);
    for i in 0..256 {
        tables.2[i] = i as u32;
        tables.3[i] = 0xFF000000;
    }
    let mut b = from_rows(&[&[Color::argb(255, 1, 2, 3).0, Color::argb(255, 4, 5, 6).0]], true);
    b.palette_map(None, (0, 0, 2, 1), (0, 0), tables);
    assert_eq!(raw(&b), vec![Color::argb(255, 0, 0, 3).0, Color::argb(255, 0, 0, 6).0]);
}

#[test]
fn scroll_shifts_contents() {
    let mut b = from_rows(&[&[1, 2, 3], &[4, 5, 6], &[7, 8, 9]], true);
    b.scroll(1, 0);
    assert_eq!(raw(&b), vec![1, 1, 2, 4, 4, 5, 7, 7, 8]);
    let mut d = from_rows(&[&[1, 2, 3], &[4, 5, 6], &[7, 8, 9]], true);
    d.scroll(0, -1);
    assert_eq!(raw(&d), vec![4, 5, 6, 7, 8, 9, 7, 8, 9]);
    let mut e = from_rows(&[&[1, 2, 3], &[4, 5, 6], &[7, 8, 9]], true);
    e.scroll(-1, 1);
    assert_eq!(raw(&e), vec![1, 2, 3, 2, 3, 6, 5, 6, 9]);
}

#[test]
fn scroll_too_far_is_noop() {
    let mut b = from_rows(&[&[1, 2], &[3, 4]], true);
    b.scroll(2, 0);
    b.scroll(0, -2);
    b.scroll(0, 0);
    assert_eq!(raw(&b), vec![1, 2, 3, 4]);
}

#[test]
fn flood_fill_fills_connected_region() {
    let mut b = from_rows(
        &[
            &[1, 1, 2, 1],
            &[2, 1, 2, 1],
            &[1, 1, 2, 1],
        ],
        true,
    );
    b.flood_fill(0, 0, Color(9));
    assert_eq!(raw(&b), vec![9, 9, 2, 1, 2, 9, 2, 1, 9, 9, 2, 1]);
    assert!(b.dirty());
}

#[test]
fn flood_fill_outside_uses_zero_colour() {
    let mut b = from_rows(&[&[0, 5], &[5, 0]], true);
    // (2, 1) is past the end: the expected colour is 0 and nothing is painted
    b.flood_fill(2, 1, Color(9));
    assert_eq!(raw(&b), vec![0, 5, 5, 0]);
}

#[test]
fn clone_copies_everything() {
    let a = from_rows(&[&[1, 2]], false);
    let b = a.clone();
    assert_eq!(raw(&a), raw(&b));
    assert_eq!(b.width(), 2);
    assert!(!b.transparency());
}

#[test]
fn noise_stores_premultiplied_colours() {
    let mut b = bitmap(4, 4, 0, true);
    b.noise(1, 0, 255, ChannelOptions::from(15), false);
    for p in raw(&b) {
        let c = p as u32;
        let (a, r, g, bl) = (c >> 24, (c >> 16) & 0xFF, (c >> 8) & 0xFF, c & 0xFF);
        assert!(r <= a && g <= a && bl <= a);
    }
}
