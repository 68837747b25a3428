use agg::color::Rgba8;
use agg::gradient_lut::{ColorFunction, ColorInterpolatorRgba8, GradientLinearColor, GradientLut};

// The ramp position of entry `index`, rounded to a weight out of 255 the way
// the gradient colour function does.
fn get(gc: &GradientLinearColor, index: usize) -> Rgba8 {
    let k = index as f64 / (gc.size() - 1).max(1) as f64;
    gc.gradient_color((k * 255.0 + 0.5) as u32 as u8)
}

#[test]
fn test_gradient_linear_color() {
    let gc = GradientLinearColor::new(Rgba8::new(0, 0, 0, 255), Rgba8::new(255, 255, 255, 255), 256);
    assert_eq!(gc.size(), 256);
    let c0 = get(&gc, 0);
    assert_eq!(c0.r, 0);
    let c255 = get(&gc, 255);
    assert_eq!(c255.r, 255);
    let c128 = get(&gc, 128);
    assert!(c128.r > 100 && c128.r < 160, "c128.r={}", c128.r);
}

#[test]
fn test_color_interpolator_rgba8_fast() {
    let c1 = Rgba8::new(0, 0, 0, 255);
    let c2 = Rgba8::new(255, 255, 255, 255);
    let mut ci = ColorInterpolatorRgba8::new(&c1, &c2, 10);
    let first = ci.color();
    assert_eq!(first.r, 0);
    for _ in 0..10 {
        ci.inc();
    }
    let last = ci.color();
    assert_eq!(last.r, 255);
}

#[test]
fn test_gradient_linear_color_set_colors() {
    let mut gc =
        GradientLinearColor::new(Rgba8::new(0, 0, 0, 255), Rgba8::new(255, 255, 255, 255), 256);
    gc.colors(Rgba8::new(255, 0, 0, 255), Rgba8::new(0, 255, 0, 255));
    assert_eq!(get(&gc, 0).r, 255);
    assert_eq!(get(&gc, 0).g, 0);
    assert_eq!(get(&gc, 255).r, 0);
    assert_eq!(get(&gc, 255).g, 255);
}

#[test]
fn gradient_color_interpolates_each_channel() {
    let gc = GradientLinearColor::new(Rgba8::new(0, 200, 10, 0), Rgba8::new(255, 100, 10, 255), 2);
    let c = gc.gradient_color(128);
    assert_eq!((c.r, c.g, c.b, c.a), (128, 150, 10, 128));
    let w = Rgba8::new(20, 40, 60, 80).gradient_weighted(&Rgba8::new(20, 40, 60, 80), 77);
    assert_eq!((w.r, w.g, w.b, w.a), (20, 40, 60, 80));
}

#[test]
fn interpolator_descends_and_steps_evenly() {
    let mut ci = ColorInterpolatorRgba8::new(&Rgba8::new(200, 0, 0, 0), &Rgba8::new(100, 0, 0, 0), 4);
    let mut seen = vec![ci.color().r];
    for _ in 0..4 {
        ci.inc();
        seen.push(ci.color().r);
    }
    assert_eq!(seen, vec![200, 175, 150, 125, 100]);
}

fn rgba(c: Rgba8) -> (u8, u8, u8, u8) {
    (c.r, c.g, c.b, c.a)
}

#[test]
fn gradient_lut_starts_transparent_with_fast_interpolation() {
    let lut = GradientLut::new_default();
    assert_eq!(lut.size(), 256);
    assert_eq!(rgba(lut.get(0)), (0, 0, 0, 0));
    assert_eq!(rgba(lut.get(255)), (0, 0, 0, 0));
    assert!(lut.use_fast_interpolator());
    assert_eq!(GradientLut::new(64).size(), 64);
}

#[test]
fn two_stop_ramp_reaches_white_exactly() {
    let mut lut = GradientLut::new_default();
    let stops = [(0usize, Rgba8::new(0, 0, 0, 255)), (256usize, Rgba8::new(255, 255, 255, 255))];
    lut.build_from_stops(&stops);
    assert_eq!(rgba(lut.get(0)), (0, 0, 0, 255));
    assert_eq!(rgba(lut.get(128)), (128, 128, 128, 255));
    assert_eq!(rgba(lut.get(255)), (255, 255, 255, 255));
}

#[test]
fn three_stop_ramp_passes_through_the_middle_stop() {
    let mut lut = GradientLut::new_default();
    let stops = [
        (0usize, Rgba8::new(255, 0, 0, 255)),
        (128usize, Rgba8::new(0, 255, 0, 255)),
        (256usize, Rgba8::new(0, 0, 255, 255)),
    ];
    lut.build_from_stops(&stops);
    assert_eq!(rgba(lut.get(0)), (255, 0, 0, 255));
    assert_eq!(rgba(lut.get(64)), (126, 128, 0, 255));
    assert_eq!(rgba(lut.get(127)), (0, 254, 0, 255));
    assert_eq!(rgba(lut.get(128)), (0, 255, 0, 255));
    assert_eq!(rgba(lut.get(200)), (0, 110, 144, 255));
    assert_eq!(rgba(lut.get(255)), (0, 0, 254, 255));
}

#[test]
fn short_table_ramp_stops_one_short_of_white() {
    let mut lut = GradientLut::new(64);
    let stops = [(0usize, Rgba8::new(0, 0, 0, 255)), (64usize, Rgba8::new(255, 255, 255, 255))];
    lut.build_from_stops(&stops);
    assert_eq!(rgba(lut.get(0)), (0, 0, 0, 255));
    assert_eq!(rgba(lut.get(32)), (129, 129, 129, 255));
    assert_eq!(rgba(lut.get(63)), (254, 254, 254, 255));
}

#[test]
fn stops_fill_before_between_and_after() {
    let mut lut = GradientLut::new(10);
    let stops = [
        (2usize, Rgba8::new(10, 20, 30, 40)),
        (2usize, Rgba8::new(50, 60, 70, 80)),
        (6usize, Rgba8::new(90, 100, 110, 120)),
    ];
    lut.build_from_stops(&stops);
    let got: Vec<(u8, u8, u8, u8)> = (0..10).map(|i| rgba(lut.get(i))).collect();
    assert_eq!(
        got,
        vec![
            (10, 20, 30, 40),
            (10, 20, 30, 40),
            (50, 60, 70, 80),
            (63, 73, 83, 93),
            (76, 86, 96, 106),
            (89, 99, 109, 119),
            (90, 100, 110, 120),
            (90, 100, 110, 120),
            (90, 100, 110, 120),
            (90, 100, 110, 120),
        ]
    );
}

#[test]
fn stops_past_the_end_cut_the_ramp_short() {
    let mut lut = GradientLut::new(4);
    let stops = [(2usize, Rgba8::new(0, 0, 0, 0)), (10usize, Rgba8::new(70, 70, 70, 70))];
    lut.build_from_stops(&stops);
    let got: Vec<(u8, u8, u8, u8)> = (0..4).map(|i| rgba(lut.get(i))).collect();
    assert_eq!(got, vec![(0, 0, 0, 0), (0, 0, 0, 0), (0, 0, 0, 0), (10, 10, 10, 10)]);

    let mut lut = GradientLut::new(4);
    let stops = [(5usize, Rgba8::new(1, 2, 3, 4)), (9usize, Rgba8::new(9, 9, 9, 9))];
    lut.build_from_stops(&stops);
    let got: Vec<(u8, u8, u8, u8)> = (0..4).map(|i| rgba(lut.get(i))).collect();
    assert_eq!(got, vec![(1, 2, 3, 4); 4]);
}

#[test]
fn a_single_stop_leaves_the_table_alone() {
    let mut lut = GradientLut::new(4);
    lut.build_from_stops(&[(1usize, Rgba8::new(9, 9, 9, 9))]);
    assert_eq!(rgba(lut.get(1)), (0, 0, 0, 0));
    lut.set_colors(vec![Rgba8::new(1, 2, 3, 4); 4]);
    assert_eq!(rgba(lut.get(3)), (1, 2, 3, 4));
    lut.set_use_fast_interpolator(false);
    assert!(!lut.use_fast_interpolator());
}

/// Places colour stops at offsets in [0, 1] the way a gradient profile
/// does (clamped, sorted, same offsets merged, rounded to entries) and
/// fills the table from them.
fn build_with_offsets(lut: &mut GradientLut, profile: &[(f64, Rgba8)]) {
    let mut p: Vec<(f64, Rgba8)> = profile.iter().map(|&(o, c)| (o.clamp(0.0, 1.0), c)).collect();
    p.sort_by(|a, b| a.0.partial_cmp(&b.0).unwrap());
    p.dedup_by(|a, b| (a.0 - b.0).abs() < 1e-10);
    if p.len() < 2 {
        return;
    }
    let size = lut.size();
    let stops: Vec<(usize, Rgba8)> =
        p.iter().map(|&(o, c)| ((o * size as f64 + 0.5) as u32 as usize, c)).collect();
    if lut.use_fast_interpolator() {
        lut.build_from_stops(&stops);
    } else {
        let mut colors = vec![Rgba8::new(0, 0, 0, 0); size];
        let mut start = stops[0].0;
        for e in colors.iter_mut().take(start.min(size)) {
            *e = stops[0].1;
        }
        for i in 1..stops.len() {
            let end = stops[i].0;
            let len = if end > start { (end - start - 1).max(1) } else { 1 };
            let mut count = 0usize;
            while start < end && start < size {
                let k = count as f64 / len as f64;
                colors[start] = stops[i - 1].1.gradient_weighted(&stops[i].1, (k * 255.0 + 0.5) as u32 as u8);
                count += 1;
                start += 1;
            }
        }
        let last = stops[stops.len() - 1].1;
        for e in colors.iter_mut().skip(start) {
            *e = last;
        }
        lut.set_colors(colors);
    }
}

#[test]
fn test_gradient_lut_new() {
    let lut = GradientLut::new_default();
    assert_eq!(lut.size(), 256);
}

#[test]
fn test_gradient_lut_two_stops() {
    let mut lut = GradientLut::new_default();
    build_with_offsets(
        &mut lut,
        &[(0.0, Rgba8::new(255, 0, 0, 255)), (1.0, Rgba8::new(0, 0, 255, 255))],
    );
    let c0 = lut.get(0);
    assert_eq!(c0.r, 255);
    assert_eq!(c0.b, 0);
    let c255 = lut.get(255);
    assert_eq!(c255.r, 0, "c255.r={}", c255.r);
    assert_eq!(c255.b, 255, "c255.b={}", c255.b);
    let c128 = lut.get(128);
    assert!(c128.r > 50 && c128.r < 200, "Mid r={}", c128.r);
    assert!(c128.b > 50 && c128.b < 200, "Mid b={}", c128.b);
}

#[test]
fn gradient_lut_two_stop_ramp_reaches_its_end_color_exactly() {
    let mut lut = GradientLut::new_default();
    build_with_offsets(
        &mut lut,
        &[(0.0, Rgba8::new(0, 0, 0, 255)), (1.0, Rgba8::new(255, 255, 255, 255))],
    );
    let first = lut.get(0);
    assert_eq!((first.r, first.g, first.b), (0, 0, 0));
    let last = lut.get(255);
    assert_eq!((last.r, last.g, last.b), (255, 255, 255));
}

#[test]
fn test_gradient_lut_three_stops() {
    let mut lut = GradientLut::new_default();
    build_with_offsets(
        &mut lut,
        &[
            (0.0, Rgba8::new(255, 0, 0, 255)),
            (0.5, Rgba8::new(0, 255, 0, 255)),
            (1.0, Rgba8::new(0, 0, 255, 255)),
        ],
    );
    assert_eq!(lut.get(0).r, 255);
    assert!(lut.get(255).b >= 254, "last.b={}", lut.get(255).b);
    let mid = lut.get(128);
    assert!(mid.g > 128, "Mid green={}", mid.g);
}

#[test]
fn test_gradient_lut_generic_interpolator() {
    let mut lut = GradientLut::new_default();
    lut.set_use_fast_interpolator(false);
    build_with_offsets(
        &mut lut,
        &[(0.0, Rgba8::new(255, 0, 0, 255)), (1.0, Rgba8::new(0, 0, 255, 255))],
    );
    let c0 = lut.get(0);
    assert_eq!(c0.r, 255);
    let c255 = lut.get(255);
    assert!(c255.b >= 252, "c255.b={}", c255.b);
}

#[test]
fn test_gradient_lut_custom_size() {
    let mut lut = GradientLut::new(64);
    build_with_offsets(
        &mut lut,
        &[(0.0, Rgba8::new(0, 0, 0, 255)), (1.0, Rgba8::new(255, 255, 255, 255))],
    );
    assert_eq!(lut.size(), 64);
    assert_eq!(lut.get(0).r, 0);
    assert!(lut.get(63).r >= 244, "last.r={}", lut.get(63).r);
}

#[test]
fn test_gradient_lut_unsorted_stops() {
    let mut lut = GradientLut::new_default();
    build_with_offsets(
        &mut lut,
        &[(1.0, Rgba8::new(0, 0, 255, 255)), (0.0, Rgba8::new(255, 0, 0, 255))],
    );
    assert_eq!(lut.get(0).r, 255);
    assert!(lut.get(255).b >= 252, "last.b={}", lut.get(255).b);
}
