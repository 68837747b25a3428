use agg::color::Rgba8;
use agg::comp_op::{CompOp, PixfmtRgba32CompOp};
use agg::rendering_buffer::RowAccessor;

#[test]
fn test_comp_op_default() {
    assert_eq!(CompOp::default(), CompOp::SrcOver);
}

#[test]
fn pixel_format_holds_its_operation() {
    let mut ra = RowAccessor::new(vec![0u8; 16], 2, 2, 8);
    let mut pf = PixfmtRgba32CompOp::new(&mut ra);
    assert_eq!(pf.comp_op(), CompOp::SrcOver);
    pf.set_comp_op(CompOp::Xor);
    assert_eq!(pf.comp_op(), CompOp::Xor);
    let pf2 = PixfmtRgba32CompOp::new_with_op(&mut ra, CompOp::Multiply);
    assert_eq!(pf2.comp_op(), CompOp::Multiply);
    assert_eq!((pf2.width(), pf2.height()), (2, 2));
}

#[test]
fn copy_and_clear_write_whole_pixels() {
    // Two pixels per row, four bytes of padding per row.
    let mut ra = RowAccessor::new(vec![7u8; 24], 2, 2, 12);
    {
        let mut pf = PixfmtRgba32CompOp::new(&mut ra);
        pf.clear(&Rgba8::new(1, 2, 3, 4));
        pf.copy_pixel(1, 0, &Rgba8::new(10, 20, 30, 40));
        pf.copy_hline(0, 1, 2, &Rgba8::new(5, 6, 7, 8));
        let p = pf.pixel(1, 0);
        assert_eq!((p.r, p.g, p.b, p.a), (10, 20, 30, 40));
        let q = pf.pixel(0, 0);
        assert_eq!((q.r, q.g, q.b, q.a), (1, 2, 3, 4));
    }
    let b = ra.buf();
    assert_eq!(&b[0..12], &[1, 2, 3, 4, 10, 20, 30, 40, 7, 7, 7, 7]);
    assert_eq!(&b[12..24], &[5, 6, 7, 8, 5, 6, 7, 8, 7, 7, 7, 7]);
}
