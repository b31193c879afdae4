use ruffle::avm1_bitmap_data::{
    clone, construct, constructor, dispose, fill_rect, flood_fill, generate_filter_rect,
    get_color_bounds_rect, get_pixel, get_pixel32, get_rectangle, get_transparent, height,
    hit_test, load_bitmap, noise, pixel_dissolve, scroll, set_pixel, set_pixel32, threshold,
    width, BitmapDataObject, Object, Value,
};
use ruffle::color::Color;

fn object(width: i32, height: i32, transparent: bool, fill: i32) -> Object {
    Object::BitmapData(construct(width, height, transparent, fill))
}

fn number(v: &Value) -> i64 {
    match v {
        Value::Number(n) => *n,
        _ => panic!("not a number"),
    }
}

fn pixels(o: &Object) -> Vec<i32> {
    match o {
        Object::BitmapData(b) => b.data.pixels().iter().map(|c| c.0).collect(),
        Object::Other => panic!("not a bitmap"),
    }
}

#[test]
fn constructor_with_defaults_fills_white() {
    let mut o = Object::BitmapData(BitmapDataObject::empty_object());
    let r = constructor(&mut o, Some(2), Some(3), None, None);
    assert!(matches!(r, Value::This));
    assert_eq!(number(&width(&o)), 2);
    assert_eq!(number(&height(&o)), 3);
    assert!(matches!(get_transparent(&o), Value::Bool(true)));
    assert_eq!(pixels(&o), vec![-1; 6]);
}

#[test]
fn constructor_rejects_bad_sizes() {
    for (w, h) in [(0, 5), (5, 0), (2881, 1), (1, 2881), (-3, 4)] {
        let mut o = Object::BitmapData(BitmapDataObject::empty_object());
        let r = constructor(&mut o, Some(w), Some(h), Some(false), Some(0));
        assert!(matches!(r, Value::Undefined));
        assert_eq!(number(&width(&o)), 0);
    }
    let mut max = Object::BitmapData(BitmapDataObject::empty_object());
    assert!(matches!(constructor(&mut max, Some(2880), Some(1), Some(false), Some(0)), Value::This));
    assert_eq!(number(&width(&max)), 2880);
}

#[test]
fn constructor_premultiplies_fill() {
    let o = object(1, 1, true, Color::argb(128, 255, 0, 0).0);
    assert_eq!(pixels(&o), vec![Color::argb(128, 128, 0, 0).0]);
    let opaque = object(1, 1, false, Color::argb(0, 1, 2, 3).0);
    assert_eq!(pixels(&opaque), vec![Color::argb(255, 1, 2, 3).0]);
}

#[test]
fn getters_on_other_objects_give_minus_one() {
    let o = Object::Other;
    assert_eq!(number(&width(&o)), -1);
    assert_eq!(number(&height(&o)), -1);
    assert_eq!(number(&get_transparent(&o)), -1);
    assert_eq!(number(&get_rectangle(&o)), -1);
    assert_eq!(number(&clone(&o)), -1);
    assert_eq!(number(&generate_filter_rect(&o)), -1);
    assert_eq!(number(&hit_test(&o)), -1);
    assert_eq!(number(&pixel_dissolve(&o)), -1);
    assert_eq!(number(&threshold(&o)), -1);
}

#[test]
fn rectangle_of_bitmap() {
    let o = object(7, 4, true, 0);
    assert!(matches!(get_rectangle(&o), Value::Rectangle(0, 0, 7, 4)));
}

#[test]
fn disposed_bitmap_answers_minus_one() {
    let mut o = object(3, 3, true, 0);
    assert!(matches!(dispose(&mut o), Value::Undefined));
    assert_eq!(number(&width(&o)), -1);
    assert_eq!(number(&get_pixel(&o, Some(0), Some(0))), -1);
    assert_eq!(number(&dispose(&mut o)), -1);
    match &o {
        Object::BitmapData(b) => {
            assert!(b.disposed());
            assert_eq!(b.data.width(), 0);
        }
        Object::Other => panic!(),
    }
}

#[test]
fn pixel_access_through_methods() {
    let mut o = object(2, 2, true, 0);
    assert!(matches!(set_pixel32(&mut o, Some(1), Some(0), Some(Color::argb(255, 1, 2, 3).0)), Value::Undefined));
    assert_eq!(number(&get_pixel32(&o, Some(1), Some(0))), Color::argb(255, 1, 2, 3).0 as i64);
    assert_eq!(number(&get_pixel(&o, Some(1), Some(0))), 0x010203);
    assert_eq!(number(&get_pixel(&o, None, Some(0))), -1);
    assert!(matches!(set_pixel(&mut o, Some(1), Some(0), Some(0x0A0B0C)), Value::Undefined));
    assert_eq!(number(&get_pixel32(&o, Some(1), Some(0))), Color::argb(255, 10, 11, 12).0 as i64);
    assert_eq!(number(&set_pixel(&mut o, None, Some(0), Some(1))), -1);
}

#[test]
fn fill_rect_method() {
    let mut o = object(3, 1, true, 0);
    assert!(matches!(fill_rect(&mut o, (1, 0, 5, 1), Some(-1)), Value::Undefined));
    assert_eq!(pixels(&o), vec![0, -1, -1]);
    assert_eq!(number(&fill_rect(&mut Object::Other, (0, 0, 1, 1), Some(-1))), -1);
}

#[test]
fn clone_copies_pixels_into_new_object() {
    let mut o = object(2, 1, false, 0);
    set_pixel32(&mut o, Some(0), Some(0), Some(Color::argb(255, 5, 6, 7).0));
    match clone(&o) {
        Value::BitmapData(n) => {
            assert!(!n.disposed());
            assert_eq!(n.data.width(), 2);
            assert_eq!(n.data.height(), 1);
            assert!(!n.data.transparency());
            assert_eq!(n.data.pixels()[0], Color::argb(255, 5, 6, 7));
        }
        _ => panic!("expected a bitmap"),
    }
}

#[test]
fn flood_fill_method() {
    let mut o = object(2, 2, true, 0);
    assert!(matches!(flood_fill(&mut o, Some(0), Some(0), Some(Color::argb(255, 0, 0, 9).0)), Value::Undefined));
    assert_eq!(pixels(&o), vec![Color::argb(255, 0, 0, 9).0; 4]);
}

#[test]
fn noise_method_defaults_and_missing_seed() {
    let mut a = object(2, 2, true, 0);
    let before = pixels(&a);
    assert!(matches!(noise(&mut a, None, None, None, None, None), Value::Undefined));
    assert_eq!(pixels(&a), before);
    let mut b = object(1, 1, true, 0);
    noise(&mut b, Some(1), None, None, Some(1), None);
    assert_eq!(pixels(&b), vec![Color::argb(255, 167, 0, 0).0]);
    // high below low is raised to low
    let mut c = object(1, 1, true, 0);
    noise(&mut c, Some(1), Some(40), Some(10), Some(8), Some(false));
    assert_eq!(pixels(&c), vec![Color::argb(40, 0, 0, 0).0]);
}

#[test]
fn color_bounds_method() {
    let mut o = object(3, 3, true, 0);
    set_pixel32(&mut o, Some(1), Some(2), Some(-1));
    assert!(matches!(get_color_bounds_rect(&o, Some(-1), Some(-1), None), Value::Rectangle(1, 2, 1, 1)));
    assert_eq!(number(&get_color_bounds_rect(&o, None, Some(-1), None)), -1);
}

#[test]
fn scroll_method() {
    let mut o = object(3, 1, true, 0);
    set_pixel32(&mut o, Some(0), Some(0), Some(-1));
    assert!(matches!(scroll(&mut o, Some(2), None), Value::Undefined));
    assert_eq!(pixels(&o), vec![-1, 0, -1]);
}

#[test]
fn stubs_return_undefined_on_live_bitmaps() {
    let o = object(1, 1, true, 0);
    assert!(matches!(generate_filter_rect(&o), Value::Undefined));
    assert!(matches!(hit_test(&o), Value::Undefined));
    assert!(matches!(pixel_dissolve(&o), Value::Undefined));
    assert!(matches!(threshold(&o), Value::Undefined));
}

#[test]
fn load_bitmap_wraps_colours() {
    assert!(matches!(load_bitmap(None), Value::Undefined));
    match load_bitmap(Some((2, 1, vec![7, -1]))) {
        Value::BitmapData(n) => {
            assert_eq!(n.data.width(), 2);
            assert_eq!(n.data.height(), 1);
            assert!(n.data.transparency());
            assert_eq!(n.data.pixels(), &[Color(7), Color(-1)]);
        }
        _ => panic!("expected a bitmap"),
    }
}

use ruffle::avm1_bitmap_data::{copy_channel, copy_pixels, merge, palette_map, Source};

#[test]
fn copy_channel_from_itself_reads_a_copy() {
    let mut o = object(2, 1, true, 0);
    set_pixel32(&mut o, Some(0), Some(0), Some(Color::argb(255, 0xAB, 0, 0).0));
    // red of pixel 0 goes to the blue of pixel 1; the destination point is clamped
    let r = copy_channel(&mut o, Source::This, (0, 0, 1, 1), (1, 0), 1, 4);
    assert!(matches!(r, Value::Undefined));
    assert_eq!(pixels(&o)[1], 0x000000AB);
    let r2 = copy_channel(&mut o, Source::This, (0, 0, 1, 1), (9, 0), 1, 4);
    assert!(matches!(r2, Value::Undefined));
    assert_eq!(pixels(&o)[1], 0x000000AB);
}

#[test]
fn copy_channel_from_other_object() {
    let mut o = object(1, 1, true, 0);
    let src = object(1, 1, true, Color::argb(0x7F, 0, 0, 0).0);
    copy_channel(&mut o, Source::Other(&src), (0, 0, 1, 1), (0, 0), 8, 2);
    assert_eq!(pixels(&o), vec![0x00007F00]);
    let not_bitmap = Object::Other;
    assert!(matches!(copy_channel(&mut o, Source::Other(&not_bitmap), (0, 0, 1, 1), (0, 0), 8, 1), Value::Undefined));
    assert_eq!(pixels(&o), vec![0x00007F00]);
}

#[test]
fn copy_pixels_within_itself() {
    let mut o = object(3, 1, true, 0);
    set_pixel32(&mut o, Some(0), Some(0), Some(-1));
    copy_pixels(&mut o, Source::This, (0, 0, 2, 1), (1, 0), None);
    // the copy reads the pixels as they were before it began
    assert_eq!(pixels(&o), vec![-1, -1, 0]);
}

#[test]
fn copy_pixels_needs_a_live_source() {
    let mut o = object(1, 1, true, 0);
    let mut src = object(1, 1, true, -1);
    dispose(&mut src);
    assert!(matches!(copy_pixels(&mut o, Source::Other(&src), (0, 0, 1, 1), (0, 0), None), Value::Undefined));
    assert_eq!(pixels(&o), vec![0]);
    assert_eq!(number(&copy_pixels(&mut Object::Other, Source::This, (0, 0, 1, 1), (0, 0), None)), -1);
}

#[test]
fn copy_pixels_with_alpha_from_other() {
    let mut o = object(1, 1, true, 0);
    let src = object(1, 1, false, Color::argb(255, 200, 100, 50).0);
    let alpha = object(1, 1, true, Color::argb(128, 0, 0, 0).0);
    copy_pixels(&mut o, Source::Other(&src), (0, 0, 1, 1), (0, 0), Some((Source::Other(&alpha), (0, 0), false)));
    assert_eq!(pixels(&o), vec![Color::argb(128, 100, 50, 25).0]);
    // an alpha argument that is not a bitmap stops the copy
    let mut p = object(1, 1, true, 0);
    let other = Object::Other;
    copy_pixels(&mut p, Source::Other(&src), (0, 0, 1, 1), (0, 0), Some((Source::Other(&other), (0, 0), true)));
    assert_eq!(pixels(&p), vec![0]);
}

#[test]
fn merge_truncates_multipliers() {
    let mut o = object(1, 1, true, Color::argb(255, 100, 100, 100).0);
    let src = object(1, 1, true, Color::argb(255, 1, 0, 0).0);
    // 65536 + 128 is cut to 128
    merge(&mut o, Source::Other(&src), (0, 0, 1, 1), (0, 0), (65536 + 128, 256, 0, 256));
    // red 1*128 + 100*128/256; green 0 + 0; blue 0 + 100; alpha 255*256 + 0 cut to a byte
    assert_eq!(pixels(&o), vec![Color::argb(0, 178, 0, 100).0]);
}

#[test]
fn palette_map_identity_and_in_place() {
    let mut o = object(2, 1, true, Color::argb(255, 1, 2, 3).0);
    let mut blue = [0u32; 256];
    for (i, v) in blue.iter_mut().enumerate() {
        *v = (255 - i) as u32;
    }
    palette_map(&mut o, Source::This, (0, 0, 2, 1), (0, 0), (None, None, Some(blue), None));
    assert_eq!(pixels(&o), vec![Color::argb(255, 1, 2, 252).0; 2]);
    let src = object(1, 1, true, Color::argb(255, 9, 8, 7).0);
    let mut d = object(1, 1, true, 0);
    palette_map(&mut d, Source::Other(&src), (0, 0, 1, 1), (0, 0), (None, None, None, None));
    assert_eq!(pixels(&d), vec![Color::argb(255, 9, 8, 7).0]);
}
