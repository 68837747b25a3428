use agg::color::{
    argb8_packed, bgr8_packed, rgb8_packed, Gray16, Gray8, OrderBgra, OrderRgba, Rgba16, Rgba8,
};
use agg::gamma::GammaLut;

#[test]
fn test_rgba8_new() {
    let c = Rgba8::new(128, 64, 32, 255);
    assert_eq!(c.r, 128);
    assert_eq!(c.g, 64);
    assert_eq!(c.b, 32);
    assert_eq!(c.a, 255);
}

#[test]
fn test_rgba8_multiply() {
    assert_eq!(Rgba8::multiply(255, 255), 255);
    assert_eq!(Rgba8::multiply(255, 0), 0);
    assert_eq!(Rgba8::multiply(0, 255), 0);
    assert_eq!(Rgba8::multiply(128, 255), 128);
}

#[test]
fn test_rgba8_lerp() {
    assert_eq!(Rgba8::lerp(0, 255, 128), 128);
    assert_eq!(Rgba8::lerp(0, 255, 0), 0);
    assert_eq!(Rgba8::lerp(0, 255, 255), 255);
    assert_eq!(Rgba8::lerp(100, 200, 128), 150);
}

#[test]
fn test_rgba8_premultiply() {
    let mut c = Rgba8::new(255, 128, 64, 128);
    c.premultiply();
    assert!(c.r > 120 && c.r < 132);
    assert!(c.g > 60 && c.g < 68);
    assert!(c.b > 28 && c.b < 36);
}

#[test]
fn test_rgba8_demultiply() {
    let mut c = Rgba8::new(64, 32, 16, 128);
    c.demultiply();
    assert!(c.r > 124 && c.r < 132);
    assert!(c.g > 60 && c.g < 68);
}

#[test]
fn test_rgba8_packed() {
    let c = rgb8_packed(0xFF8040);
    assert_eq!(c.r, 0xFF);
    assert_eq!(c.g, 0x80);
    assert_eq!(c.b, 0x40);
    assert_eq!(c.a, 255);

    let c = bgr8_packed(0xFF8040);
    assert_eq!(c.r, 0x40);
    assert_eq!(c.g, 0x80);
    assert_eq!(c.b, 0xFF);

    let c = argb8_packed(0x80FF8040);
    assert_eq!(c.a, 0x80);
    assert_eq!(c.r, 0xFF);
    assert_eq!(c.g, 0x80);
    assert_eq!(c.b, 0x40);
}

#[test]
fn test_rgba16_from_rgba8() {
    let c8 = Rgba8::new(128, 64, 32, 255);
    let c16 = Rgba16::from_rgba8(&c8);
    assert_eq!(c16.r, (128 << 8) | 128);
    assert_eq!(c16.g, (64 << 8) | 64);
}

#[test]
fn test_rgba16_multiply() {
    assert_eq!(Rgba16::multiply(65535, 65535), 65535);
    assert_eq!(Rgba16::multiply(65535, 0), 0);
}

#[test]
fn test_gray8_luminance() {
    let white = Rgba8::new(255, 255, 255, 255);
    let lum = Gray8::luminance_from_rgba8(&white);
    assert!(lum > 250);

    let black = Rgba8::new(0, 0, 0, 255);
    let lum = Gray8::luminance_from_rgba8(&black);
    assert_eq!(lum, 0);
}

#[test]
fn test_gray8_premultiply() {
    let mut g = Gray8::new(200, 128);
    g.premultiply();
    assert!(g.v > 95 && g.v < 105);
}

#[test]
fn test_gray16_from_gray8() {
    let g8 = Gray8::new(128, 255);
    let g16 = Gray16::from_gray8(&g8);
    assert_eq!(g16.v, (128 << 8) | 128);
    assert_eq!(g16.a, (255 << 8) | 255);
}

#[test]
fn test_component_orders() {
    assert_eq!(OrderRgba::R, 0);
    assert_eq!(OrderRgba::G, 1);
    assert_eq!(OrderRgba::B, 2);
    assert_eq!(OrderRgba::A, 3);
    assert_eq!(OrderBgra::B, 0);
    assert_eq!(OrderBgra::G, 1);
    assert_eq!(OrderBgra::R, 2);
    assert_eq!(OrderBgra::A, 3);
}

#[test]
fn multiply_rounds_to_nearest() {
    // 100 * 200 / 255 = 78.43
    assert_eq!(Rgba8::multiply(100, 200), 78);
    // 1 * 128 / 255 = 0.502
    assert_eq!(Rgba8::multiply(1, 128), 1);
    assert_eq!(Gray8::multiply(77, 255), 77);
    // 40000 * 30000 / 65535 = 18310.83
    assert_eq!(Rgba16::multiply(40000, 30000), 18311);
}

#[test]
fn lerp_moves_downwards_symmetrically() {
    assert_eq!(Rgba8::lerp(200, 100, 128), 150);
    assert_eq!(Rgba8::lerp(255, 0, 255), 0);
    assert_eq!(Gray8::lerp(10, 10, 77), 10);
    assert_eq!(Rgba16::lerp(0, 1000, 32768), 500);
    assert_eq!(Gray16::lerp(1000, 0, 65535), 0);
}

#[test]
fn demultiply_value_is_the_rounded_quotient() {
    assert_eq!(Rgba8::demultiply_value(0, 10), 0);
    assert_eq!(Rgba8::demultiply_value(10, 0), 0);
    assert_eq!(Rgba8::demultiply_value(10, 10), 255);
    assert_eq!(Rgba8::demultiply_value(10, 20), 128);
    assert_eq!(Rgba8::demultiply_value(1, 2), 128);
    assert_eq!(Rgba8::demultiply_value(100, 200), 128);
    assert_eq!(Rgba8::demultiply_value(2, 3), 170);
    assert_eq!(Rgba8::demultiply_value(254, 255), 254);
}

#[test]
fn prelerp_wraps_around_a_byte() {
    // 200 + 100 - round(200 * 128 / 255) = 300 - 100 = 200
    assert_eq!(Rgba8::prelerp(200, 100, 128), 200);
    // 10 + 0 - round(10 * 255 / 255) = 0
    assert_eq!(Rgba8::prelerp(10, 0, 255), 0);
}

#[test]
fn invert_and_cover_helpers() {
    assert_eq!(Rgba8::invert(0), 255);
    assert_eq!(Rgba8::invert(200), 55);
    assert_eq!(Rgba16::invert(1), 65534);
    assert_eq!(Rgba8::mult_cover(200, 128), 100);
    assert_eq!(Rgba8::scale_cover(128, 200), 100);
    assert_eq!(Rgba16::mult_cover(65535, 255), 65535);
    assert_eq!(Gray8::mult_cover(255, 64), 64);
}

#[test]
fn premultiply_with_alpha_rescales_and_clamps() {
    let mut c = Rgba8::new(100, 50, 200, 200);
    c.premultiply_with_alpha(100);
    assert_eq!((c.r, c.g, c.b, c.a), (50, 25, 100, 100));

    let mut c = Rgba8::new(100, 50, 200, 0);
    c.premultiply_with_alpha(100);
    assert_eq!(c, Rgba8::no_color());

    let mut c = Rgba8::new(10, 20, 30, 255);
    c.premultiply_with_alpha(300);
    assert_eq!((c.r, c.g, c.b, c.a), (10, 20, 30, 255));
}

#[test]
fn add_saturates_and_replaces_with_opaque_source() {
    let mut c = Rgba8::new(200, 10, 0, 100);
    c.add(&Rgba8::new(100, 10, 5, 100), 255);
    assert_eq!((c.r, c.g, c.b, c.a), (255, 20, 5, 200));

    let mut c = Rgba8::new(1, 2, 3, 4);
    c.add(&Rgba8::new(9, 8, 7, 255), 255);
    assert_eq!(c, Rgba8::new(9, 8, 7, 255));

    let mut c = Rgba8::new(0, 0, 0, 0);
    c.add(&Rgba8::new(200, 100, 50, 255), 128);
    assert_eq!((c.r, c.g, c.b, c.a), (100, 50, 25, 128));
}

#[test]
fn opacity_queries_and_clearing() {
    let mut c = Rgba8::new(1, 2, 3, 255);
    assert!(c.is_opaque());
    assert!(!c.is_transparent());
    c.transparent();
    assert!(c.is_transparent());
    assert_eq!((c.r, c.g, c.b), (1, 2, 3));
    c.clear();
    assert_eq!(c, Rgba8::no_color());
    assert_eq!(Rgba8::default(), Rgba8::no_color());
    assert_eq!(Rgba8::empty_value(), 0);
    assert_eq!(Rgba8::full_value(), 255);
    let o = Rgba8::new_opaque(300, 2, 3);
    assert_eq!((o.r, o.a), (44, 255));
    let w = Rgba8::with_opacity(&o, 7);
    assert_eq!((w.r, w.g, w.b, w.a), (44, 2, 3, 7));
}

#[test]
fn rgba16_round_trip_through_rgba8() {
    let c8 = Rgba8::new(1, 127, 128, 254);
    let c16 = Rgba16::from_rgba8(&c8);
    assert_eq!(c16.to_rgba8(), c8);
    assert_eq!(Rgba16::new(70000, 1, 2, 3).r, 4464);
    assert!(Rgba16::new_opaque(1, 2, 3).is_opaque());
}

#[test]
fn rgba16_and_gray_premultiply_and_demultiply() {
    let mut c = Rgba16::new(65535, 32768, 0, 32768);
    c.premultiply();
    assert_eq!((c.r, c.g, c.b, c.a), (32768, 16384, 0, 32768));
    c.demultiply();
    assert_eq!((c.r, c.g, c.b, c.a), (65535, 32767, 0, 32768));

    let mut g = Gray16::new(1000, 0);
    g.premultiply();
    assert_eq!(g.v, 0);
    let mut g = Gray8::new(100, 200);
    g.demultiply();
    assert_eq!(g.v, 127);
    let mut g = Gray16::new(30000, 60000);
    g.demultiply();
    assert_eq!(g.v, 32767);
}

#[test]
fn gray_conversions_use_integer_luminance() {
    let c = Rgba8::new(255, 0, 0, 10);
    let g = Gray8::from_rgba8(&c);
    assert_eq!((g.v, g.a), (((55u32 * 255) >> 8) as u8, 10));
    let c16 = Rgba16::new(0, 65535, 0, 5);
    assert_eq!(Gray16::luminance_from_rgba16(&c16), ((46872u32 * 65535) >> 16) as u16);
    let g16 = Gray16::from_rgba8(&Rgba8::new(255, 255, 255, 255));
    assert_eq!((g16.v, g16.a), (65535, 65535));
    assert_eq!(Gray16::from_rgba16(&c16).a, 5);
    assert!(Gray16::new_opaque(3).is_opaque());
    assert!(Gray8::new_opaque(3).is_opaque());
    assert!(Gray8::no_color().is_transparent());
}

#[test]
fn identity_gamma_leaves_colours_unchanged() {
    let g = GammaLut::new();
    let mut c = Rgba8::new(10, 20, 30, 40);
    c.apply_gamma_dir(&g);
    assert_eq!(c, Rgba8::new(10, 20, 30, 40));
    c.apply_gamma_inv(&g);
    assert_eq!(c, Rgba8::new(10, 20, 30, 40));
    let g2 = GammaLut::with_shifts(4, 8);
    assert_eq!(g2.dir(3), 48);
    assert_eq!(g2.inv(200), 12);
}

#[test]
fn rgba8_gradient_step_interpolates_each_channel() {
    let a = Rgba8::new(10, 200, 0, 255);
    let b = Rgba8::new(250, 40, 128, 0);
    let c = a.gradient_weighted(&b, 64);
    assert_eq!((c.r, c.g, c.b, c.a), (70, 160, 32, 191));
    let s = a.gradient_weighted(&b, 0);
    assert_eq!((s.r, s.g, s.b, s.a), (10, 200, 0, 255));
    let e = a.gradient_weighted(&b, 255);
    assert_eq!((e.r, e.g, e.b, e.a), (250, 40, 128, 0));
}

#[test]
fn gray8_gradient_step_interpolates_value_and_alpha() {
    let a = Gray8::new(100, 255);
    let b = Gray8::new(0, 0);
    let c = a.gradient_weighted(&b, 128);
    assert_eq!((c.v, c.a), (50, 127));
}

#[test]
fn sixteen_bit_gradient_steps_interpolate() {
    let a = Rgba16::new(0, 30000, 1000, 65535);
    let b = Rgba16::new(40000, 10000, 1000, 65535);
    let c = a.gradient_weighted(&b, 32768);
    assert_eq!((c.r, c.g, c.b, c.a), (20000, 20000, 1000, 65535));
    let g = Gray16::new(0, 65535).gradient_weighted(&Gray16::new(40000, 65535), 32768);
    assert_eq!((g.v, g.a), (20000, 65535));
}
