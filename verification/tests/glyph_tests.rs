use agg::curves::CurveApproximationMethod;
use agg::font_engine::GlyphDataType;
use agg::glyph_raster_bin::GlyphRasterBin;

// Height 2, baseline 0, one character 'A' two pixels wide:
// stored bottom row first, 0b1100_0000 then 0b0100_0000.
fn make_test_font() -> Vec<u8> {
    vec![2, 0, 65, 1, 0, 0, 2, 0b1100_0000, 0b0100_0000]
}

#[test]
fn test_width_calculation() {
    let font = make_test_font();
    let glyph = GlyphRasterBin::new(&font);
    assert_eq!(glyph.width("A") as f64, 2.0);
}

#[test]
fn test_font_properties() {
    let font = make_test_font();
    let glyph = GlyphRasterBin::new(&font);
    // Height and baseline are the first two bytes of the font.
    assert_eq!(glyph.font()[0] as f64, 2.0);
    assert_eq!(glyph.font()[1] as f64, 0.0);
}

#[test]
fn test_prepare_glyph() {
    let font = make_test_font();
    let mut glyph = GlyphRasterBin::new(&font);
    // Placed at x = 10, the glyph box runs from x1 = 10 to x1 + width - 1.
    let width = glyph.prepare_glyph(65).expect("'A' is in the font");
    let x1 = 10.0f64 as i32;
    assert_eq!(x1, 10);
    assert_eq!(x1 + width as i32 - 1, 11);
    assert_eq!(width as f64, 2.0);
}

#[test]
fn test_span() {
    let font = make_test_font();
    let mut glyph = GlyphRasterBin::new(&font);
    assert_eq!(glyph.prepare_glyph(65), Some(2));
    let s0 = glyph.span(0).to_vec();
    assert_eq!(s0.len(), 2);
    assert_eq!(s0[0], 0);
    assert_eq!(s0[1], 255);
    let s1 = glyph.span(1).to_vec();
    assert_eq!(s1[0], 255);
    assert_eq!(s1[1], 255);
}

#[test]
fn test_glyph_data_type_values() {
    assert_eq!(GlyphDataType::Invalid as u32, 0);
    assert_eq!(GlyphDataType::Mono as u32, 1);
    assert_eq!(GlyphDataType::Gray8 as u32, 2);
    assert_eq!(GlyphDataType::Outline as u32, 3);
}

#[test]
fn missing_glyphs_have_no_span_and_no_width() {
    let font = make_test_font();
    let other = vec![1u8, 0, 32, 0];
    let mut glyph = GlyphRasterBin::new(&font);
    assert_eq!(glyph.width("ABA!"), 4);
    assert_eq!(glyph.prepare_glyph(66), None);
    assert_eq!(glyph.span(0).len(), 0);
    assert_eq!(glyph.font().len(), 9);
    glyph.set_font(&other);
    assert_eq!(glyph.width("A"), 0);
}

#[test]
fn wide_glyph_reads_across_bytes() {
    // Height 1, one char '!' ten pixels wide: bits 1010_1010 11
    let font = vec![1u8, 0, 33, 1, 0, 0, 10, 0b1010_1010, 0b1100_0000];
    let mut glyph = GlyphRasterBin::new(&font);
    assert_eq!(glyph.prepare_glyph(33), Some(10));
    assert_eq!(glyph.span(0), &[255, 0, 255, 0, 255, 0, 255, 0, 255, 255]);
    // A glyph whose rows run past the font: the missing bits read as zero.
    let cut = vec![1u8, 0, 33, 1, 0, 0, 10, 0b1000_0001];
    let mut g2 = GlyphRasterBin::new(&cut);
    g2.prepare_glyph(33);
    assert_eq!(g2.span(0), &[255, 0, 0, 0, 0, 0, 0, 255, 0, 0]);
}

#[test]
fn curve_methods_are_distinct() {
    assert_ne!(CurveApproximationMethod::Inc, CurveApproximationMethod::Div);
}
