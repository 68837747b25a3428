use agg::basics::{ConstRowInfo, RowInfo};
use agg::gamma::{GammaLut, GammaNone};

#[test]
fn gamma_lut_default_is_identity() {
    let lut = GammaLut::new();
    assert_eq!(lut.dir(0), 0);
    assert_eq!(lut.dir(128), 128);
    assert_eq!(lut.dir(255), 255);
    assert_eq!(lut.inv(0), 0);
    assert_eq!(lut.inv(128), 128);
    assert_eq!(lut.inv(255), 255);
    let _none = GammaNone::default();
}

#[test]
fn row_infos_hold_their_fields() {
    let r = RowInfo::new(1, 5, 40);
    assert_eq!((r.x1, r.x2, r.offset), (1, 5, 40));
    let c = ConstRowInfo::new(-2, 3, 0);
    assert_eq!((c.x1, c.x2, c.offset), (-2, 3, 0));
}

#[test]
fn gamma_lut_sizes_follow_shifts() {
    let lut = GammaLut::with_shifts(4, 6);
    assert_eq!(lut.gamma_size(), 16);
    assert_eq!(lut.hi_res_size(), 64);
    assert_eq!(lut.dir(3), 12);
    assert_eq!(lut.inv(13), 3);
}

#[test]
fn gamma_lut_takes_wide_shifts() {
    let lut = GammaLut::with_shifts(10, 17);
    assert_eq!(lut.gamma_size(), 1024);
    assert_eq!(lut.hi_res_size(), 131072);
    assert_eq!(lut.dir(3), 128);
    assert_eq!(lut.dir(2), 0);
    assert_eq!(lut.inv(255), 1);
}

#[test]
fn gamma_lut_installed_tables_are_read_back() {
    let mut lut = GammaLut::new();
    let dir: Vec<u8> = (0..256u32).map(|i| (255 - i) as u8).collect();
    let inv: Vec<u8> = (0..256u32).map(|i| (i / 2) as u8).collect();
    lut.set_tables(dir, inv);
    assert_eq!(lut.dir(0), 255);
    assert_eq!(lut.dir(200), 55);
    assert_eq!(lut.inv(201), 100);
    assert_eq!(lut.gamma_size(), 256);
}
