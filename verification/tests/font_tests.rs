use agg::font_engine::FontEngine;

fn be16(v: u16) -> [u8; 2] {
    v.to_be_bytes()
}

fn be32(v: u32) -> [u8; 4] {
    v.to_be_bytes()
}

/// A minimal TrueType face: `head` with the given units per em, `hhea`,
/// `hhea` with ascender 800 and descender -200, `maxp` with eight glyphs,
/// the `kern` table below and, when `with_cmap`, a byte-encoding `cmap`
/// that maps 'A' to glyph 5.
fn tiny_font(units_per_em: u16, with_cmap: bool) -> Vec<u8> {
    let mut cmap = Vec::new();
    cmap.extend_from_slice(&be16(0));
    cmap.extend_from_slice(&be16(1));
    cmap.extend_from_slice(&be16(0));
    cmap.extend_from_slice(&be16(3));
    cmap.extend_from_slice(&be32(12));
    cmap.extend_from_slice(&be16(0));
    cmap.extend_from_slice(&be16(262));
    cmap.extend_from_slice(&be16(0));
    let mut ids = [0u8; 256];
    ids[65] = 5;
    cmap.extend_from_slice(&ids);

    let mut head = vec![0u8; 54];
    head[18..20].copy_from_slice(&be16(units_per_em));
    let mut hhea = vec![0u8; 36];
    hhea[4..6].copy_from_slice(&800i16.to_be_bytes());
    hhea[6..8].copy_from_slice(&(-200i16).to_be_bytes());
    let mut maxp = Vec::new();
    maxp.extend_from_slice(&be32(0x0000_5000));
    maxp.extend_from_slice(&be16(8));

    let mut tables: Vec<(&[u8; 4], Vec<u8>)> = Vec::new();
    if with_cmap {
        tables.push((b"cmap", cmap));
    }
    tables.push((b"head", head));
    tables.push((b"hhea", hhea));
    tables.push((b"kern", kern_table()));
    tables.push((b"maxp", maxp));

    let mut out = Vec::new();
    out.extend_from_slice(&be32(0x0001_0000));
    out.extend_from_slice(&be16(tables.len() as u16));
    out.extend_from_slice(&[0u8; 6]);
    let mut offset = 12 + 16 * tables.len();
    for (tag, data) in &tables {
        out.extend_from_slice(*tag);
        out.extend_from_slice(&be32(0));
        out.extend_from_slice(&be32(offset as u32));
        out.extend_from_slice(&be32(data.len() as u32));
        offset += data.len();
    }
    for (_, data) in &tables {
        out.extend_from_slice(data);
    }
    out
}

/// One OpenType kerning subtable of format 0 with the given coverage
/// byte and pairs `(left, right, value)` sorted by glyph pair.
fn kern_subtable(coverage: u8, pairs: &[(u16, u16, i16)]) -> Vec<u8> {
    let mut body = Vec::new();
    body.extend_from_slice(&be16(pairs.len() as u16));
    body.extend_from_slice(&[0u8; 6]);
    for &(l, r, v) in pairs {
        body.extend_from_slice(&be16(l));
        body.extend_from_slice(&be16(r));
        body.extend_from_slice(&v.to_be_bytes());
    }
    let mut out = Vec::new();
    out.extend_from_slice(&be16(0));
    out.extend_from_slice(&be16((6 + body.len()) as u16));
    out.push(0);
    out.push(coverage);
    out.extend_from_slice(&body);
    out
}

/// A `kern` table: a vertical subtable, a horizontal one and a horizontal
/// cross-stream one.
fn kern_table() -> Vec<u8> {
    let mut out = Vec::new();
    out.extend_from_slice(&be16(0));
    out.extend_from_slice(&be16(3));
    out.extend_from_slice(&kern_subtable(0, &[(5, 5, -100)]));
    out.extend_from_slice(&kern_subtable(1, &[(5, 5, -50), (5, 6, 30)]));
    out.extend_from_slice(&kern_subtable(5, &[(6, 5, 99)]));
    out
}

#[test]
fn kerning_comes_from_the_first_horizontal_subtable_with_the_pair() {
    let e = FontEngine::from_data(tiny_font(1000, true), 0).expect("tiny font parses");
    assert_eq!(e.kerning_units(5, 5), Some(-50));
    assert_eq!(e.kerning_units(5, 6), Some(30));
    assert_eq!(e.kerning_units(6, 5), None);
    assert_eq!(e.kerning_units(1, 2), None);
}

#[test]
fn face_metrics_in_font_units() {
    let e = FontEngine::from_data(tiny_font(1000, true), 0).expect("tiny font parses");
    assert_eq!(e.ascender_units(), 800);
    assert_eq!(e.descender_units(), -200);
    assert_eq!(e.hor_advance_units(5), None);
    assert_eq!(e.glyph_bbox_units(5), None);
}

#[test]
fn empty_data_is_refused_with_unknown_magic() {
    match FontEngine::from_data(Vec::new(), 0) {
        Err(e) => assert_eq!(e, "Failed to parse font: UnknownMagic"),
        Ok(_) => panic!("empty data parsed"),
    }
}

#[test]
fn second_face_of_a_single_font_is_out_of_bounds() {
    match FontEngine::from_data(tiny_font(1000, true), 1) {
        Err(e) => assert_eq!(e, "Failed to parse font: FaceIndexOutOfBounds"),
        Ok(_) => panic!("face 1 parsed"),
    }
}

#[test]
fn bad_em_size_is_refused_as_missing_head() {
    match FontEngine::from_data(tiny_font(8, true), 0) {
        Err(e) => assert_eq!(e, "Failed to parse font: NoHeadTable"),
        Ok(_) => panic!("em size 8 parsed"),
    }
}

#[test]
fn tiny_font_parses_with_default_settings() {
    let mut e = FontEngine::from_data(tiny_font(1000, true), 0).expect("tiny font parses");
    assert_eq!(e.units_per_em(), 1000);
    assert!(!e.flip_y());
    assert!(!e.hinting());
    assert_eq!(e.face_index(), 0);
    assert_eq!(e.face_data().len(), tiny_font(1000, true).len());
    e.set_flip_y(true);
    e.set_hinting(true);
    assert!(e.flip_y());
    assert!(e.hinting());
}

#[test]
fn character_map_lookup() {
    let e = FontEngine::from_data(tiny_font(2048, true), 0).expect("tiny font parses");
    assert_eq!(e.glyph_index('A' as u32), Some(5));
    assert_eq!(e.glyph_index('B' as u32), None);
    assert_eq!(e.glyph_index(0xD800), None);
    assert_eq!(e.glyph_index(0x11_0000), None);
    let bare = FontEngine::from_data(tiny_font(2048, false), 0).expect("font without cmap parses");
    assert_eq!(bare.glyph_index('A' as u32), None);
}
