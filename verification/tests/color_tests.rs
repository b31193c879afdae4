use ruffle::color::{ChannelOptions, Color, LehmerRng};

fn float_premultiply(c: u8, alpha: u8) -> u8 {
    let a = alpha as f64 / 255.0;
    (c as f64 * a).round() as u8
}

fn float_unmultiply(c: u8, alpha: u8) -> u8 {
    let a = alpha as f64 / 255.0;
    (c as f64 / a).round() as u8
}

#[test]
fn channels_of_packed_colour() {
    let c = Color::argb(0x12, 0x34, 0x56, 0x78);
    assert_eq!(c.0, 0x12345678);
    assert_eq!(c.alpha(), 0x12);
    assert_eq!(c.red(), 0x34);
    assert_eq!(c.green(), 0x56);
    assert_eq!(c.blue(), 0x78);
    let neg = Color(-1);
    assert_eq!((neg.alpha(), neg.red(), neg.green(), neg.blue()), (255, 255, 255, 255));
}

#[test]
fn with_alpha_replaces_only_alpha() {
    let c = Color::argb(0x80, 1, 2, 3).with_alpha(0xFF);
    assert_eq!(c, Color::argb(0xFF, 1, 2, 3));
    assert_eq!(c.0, 0xFF010203u32 as i32);
}

#[test]
fn premultiply_matches_float_rounding_everywhere() {
    for alpha in 0..=255u8 {
        for c in 0..=255u8 {
            let col = Color::argb(alpha, c, c, c);
            let p = col.to_premultiplied_alpha(true);
            assert_eq!(p.red(), float_premultiply(c, alpha), "c={} a={}", c, alpha);
            assert_eq!(p.alpha(), alpha);
        }
    }
}

#[test]
fn unmultiply_matches_float_rounding_everywhere() {
    for alpha in 0..=255u8 {
        for c in 0..=255u8 {
            let col = Color::argb(alpha, c, 0, c);
            let u = col.to_un_multiplied_alpha();
            assert_eq!(u.red(), float_unmultiply(c, alpha), "c={} a={}", c, alpha);
            assert_eq!(u.blue(), float_unmultiply(c, alpha));
            assert_eq!(u.green(), 0);
            assert_eq!(u.alpha(), alpha);
        }
    }
}

#[test]
fn premultiply_without_transparency_is_opaque() {
    let c = Color::argb(0x10, 200, 100, 50).to_premultiplied_alpha(false);
    assert_eq!(c, Color::argb(255, 200, 100, 50));
}

#[test]
fn premultiply_exact_values() {
    let c = Color::argb(128, 255, 100, 1).to_premultiplied_alpha(true);
    assert_eq!(c, Color::argb(128, 128, 50, 1));
    let z = Color::argb(0, 255, 255, 255).to_premultiplied_alpha(true);
    assert_eq!(z, Color::argb(0, 0, 0, 0));
}

#[test]
fn unmultiply_zero_alpha_saturates() {
    let c = Color::argb(0, 0, 1, 255).to_un_multiplied_alpha();
    assert_eq!(c, Color::argb(0, 0, 255, 255));
}

#[test]
fn opaque_colour_survives_premultiply_roundtrip() {
    for c in [0u8, 1, 77, 128, 254, 255] {
        let col = Color::argb(255, c, 255 - c, c / 2);
        assert_eq!(col.to_premultiplied_alpha(true), col);
        assert_eq!(col.to_un_multiplied_alpha(), col);
    }
}

#[test]
fn blend_over_exact_value() {
    let dest = Color::argb(255, 200, 100, 0);
    let source = Color::argb(128, 64, 0, 32);
    // 200 * 127 >> 8 = 99; 100 * 127 >> 8 = 49; 255 * 127 >> 8 = 126
    assert_eq!(dest.blend_over(&source), Color::argb(254, 163, 49, 32));
    let opaque = Color::argb(255, 1, 2, 3);
    assert_eq!(dest.blend_over(&opaque), opaque);
}

#[test]
fn conversions_between_colour_and_integers() {
    let c = Color::from(-16777216i32);
    assert_eq!(c.alpha(), 255);
    assert_eq!(i32::from(c), -16777216);
    assert_eq!(u32::from(c), 0xFF000000);
}

#[test]
fn lehmer_sequence_values() {
    let mut rng = LehmerRng::with_seed(1);
    assert_eq!(rng.gen(), 16807);
    assert_eq!(rng.gen(), 282475249);
    assert_eq!(rng.gen(), 1622650073);
    let mut big = LehmerRng::with_seed(u32::MAX);
    let expected = ((u32::MAX as u64 * 16807) % 2_147_483_647) as u32;
    assert_eq!(big.gen(), expected);
}

#[test]
fn lehmer_same_seed_same_sequence() {
    let mut a = LehmerRng::with_seed(12345);
    let mut b = LehmerRng::with_seed(12345);
    for _ in 0..100 {
        assert_eq!(a.gen(), b.gen());
    }
}

#[test]
fn gen_range_stays_in_inclusive_range() {
    let mut rng = LehmerRng::with_seed(99);
    for _ in 0..1000 {
        let v = rng.gen_range(10..20);
        assert!((10..=20).contains(&v));
    }
    let mut one = LehmerRng::with_seed(5);
    assert_eq!(one.gen_range(7..7), 7);
}

#[test]
fn gen_range_exact_value() {
    let mut rng = LehmerRng::with_seed(1);
    // 16807 % 256 = 167
    assert_eq!(rng.gen_range(0..255), 167);
}

#[test]
fn channel_options_flags() {
    let rgb = ChannelOptions::rgb();
    assert!(rgb.red() && rgb.green() && rgb.blue());
    assert!(!rgb.alpha());
    let a = ChannelOptions::from(8);
    assert!(a.alpha() && !a.red() && !a.green() && !a.blue());
    assert_eq!(rgb.0, 7);
}
