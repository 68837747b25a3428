use agg::alpha_mask_u8::{
    AlphaMask, AlphaMaskGray8, AlphaMaskRgba32a, AlphaMaskRgba32r, AlphaMaskU8,
    AmaskNoClipGray8, MaskFunction, OneComponentMask, RgbToGrayMask,
};
use agg::rendering_buffer::RowAccessor;

fn gray_buffer(width: u32, height: u32, cells: &[(usize, u8)]) -> RowAccessor {
    let mut data = vec![0u8; (width * height) as usize];
    for &(i, v) in cells {
        data[i] = v;
    }
    RowAccessor::new(data, width, height, width)
}

#[test]
fn test_one_component_mask() {
    let m = OneComponentMask;
    assert_eq!(m.calculate(&[128, 0, 0, 0]), 128);
    assert_eq!(m.calculate(&[255]), 255);
    assert_eq!(m.calculate(&[0, 99]), 0);
}

#[test]
fn test_rgb_to_gray_mask() {
    let m = RgbToGrayMask::new(0, 1, 2);
    let val = m.calculate(&[255, 0, 0]);
    assert_eq!(val, ((255u32 * 77) >> 8) as u8);
    let val = m.calculate(&[0, 255, 0]);
    assert_eq!(val, ((255u32 * 150) >> 8) as u8);
    let val = m.calculate(&[0, 0, 255]);
    assert_eq!(val, ((255u32 * 29) >> 8) as u8);
    let val = m.calculate(&[255, 255, 255]);
    assert_eq!(val, 255);
}

#[test]
fn test_pixel_in_bounds() {
    let rbuf = gray_buffer(4, 4, &[(1 * 4 + 2, 200)]);
    let mask = AlphaMaskGray8::new(&rbuf, OneComponentMask);
    assert_eq!(mask.pixel(2, 1), 200);
}

#[test]
fn test_pixel_out_of_bounds() {
    let rbuf = gray_buffer(4, 4, &[]);
    let mask = AlphaMaskGray8::new(&rbuf, OneComponentMask);
    assert_eq!(mask.pixel(-1, 0), 0);
    assert_eq!(mask.pixel(0, -1), 0);
    assert_eq!(mask.pixel(4, 0), 0);
    assert_eq!(mask.pixel(0, 4), 0);
}

#[test]
fn test_combine_pixel() {
    let rbuf = gray_buffer(4, 4, &[(0, 128)]);
    let mask = AlphaMaskGray8::new(&rbuf, OneComponentMask);
    let result = mask.combine_pixel(0, 0, 200);
    assert_eq!(result, ((255 + 200u32 * 128) >> 8) as u8);
}

#[test]
fn test_combine_pixel_out_of_bounds() {
    let rbuf = gray_buffer(4, 4, &[]);
    let mask = AlphaMaskGray8::new(&rbuf, OneComponentMask);
    assert_eq!(mask.combine_pixel(-1, 0, 200), 0);
}

fn first_row_ramp() -> RowAccessor {
    gray_buffer(4, 4, &[(0, 50), (1, 100), (2, 150), (3, 200)])
}

#[test]
fn test_fill_hspan_in_bounds() {
    let rbuf = first_row_ramp();
    let mask = AlphaMaskGray8::new(&rbuf, OneComponentMask);
    let mut dst = vec![0u8; 4];
    mask.fill_hspan(0, 0, &mut dst);
    assert_eq!(dst, vec![50, 100, 150, 200]);
}

#[test]
fn test_fill_hspan_y_out_of_range() {
    let rbuf = gray_buffer(4, 4, &[]);
    let mask = AlphaMaskGray8::new(&rbuf, OneComponentMask);
    let mut dst = vec![99u8; 4];
    mask.fill_hspan(0, -1, &mut dst);
    assert_eq!(dst, vec![0, 0, 0, 0]);
    let mut dst = vec![99u8; 4];
    mask.fill_hspan(0, 4, &mut dst);
    assert_eq!(dst, vec![0, 0, 0, 0]);
}

#[test]
fn test_fill_hspan_left_clip() {
    let rbuf = first_row_ramp();
    let mask = AlphaMaskGray8::new(&rbuf, OneComponentMask);
    let mut dst = vec![99u8; 3];
    mask.fill_hspan(-1, 0, &mut dst);
    assert_eq!(dst[0], 0);
    assert_eq!(dst[1], 50);
    assert_eq!(dst[2], 100);
}

#[test]
fn test_fill_hspan_right_clip() {
    let rbuf = first_row_ramp();
    let mask = AlphaMaskGray8::new(&rbuf, OneComponentMask);
    let mut dst = vec![99u8; 3];
    mask.fill_hspan(2, 0, &mut dst);
    assert_eq!(dst[0], 150);
    assert_eq!(dst[1], 200);
    assert_eq!(dst[2], 0);
}

#[test]
fn test_combine_hspan() {
    let rbuf = gray_buffer(4, 4, &[(0, 128), (1, 255)]);
    let mask = AlphaMaskGray8::new(&rbuf, OneComponentMask);
    let mut dst = vec![200u8, 100u8];
    mask.combine_hspan(0, 0, &mut dst);
    assert_eq!(dst[0], ((255 + 200u32 * 128) >> 8) as u8);
    assert_eq!(dst[1], ((255 + 100u32 * 255) >> 8) as u8);
}

#[test]
fn test_fill_vspan() {
    let rbuf = gray_buffer(4, 4, &[(1, 10), (4 + 1, 20), (8 + 1, 30), (12 + 1, 40)]);
    let mask = AlphaMaskGray8::new(&rbuf, OneComponentMask);
    let mut dst = vec![0u8; 4];
    mask.fill_vspan(1, 0, &mut dst);
    assert_eq!(dst, vec![10, 20, 30, 40]);
}

#[test]
fn test_fill_vspan_x_out_of_range() {
    let rbuf = gray_buffer(4, 4, &[]);
    let mask = AlphaMaskGray8::new(&rbuf, OneComponentMask);
    let mut dst = vec![99u8; 4];
    mask.fill_vspan(-1, 0, &mut dst);
    assert_eq!(dst, vec![0, 0, 0, 0]);
}

#[test]
fn test_rgba_mask() {
    let mut data = vec![0u8; 4 * 4 * 4];
    data[0] = 100;
    data[1] = 150;
    data[2] = 200;
    data[3] = 255;
    let rbuf = RowAccessor::new(data, 4, 4, 16);
    let mask = AlphaMaskRgba32a::new(&rbuf, OneComponentMask);
    assert_eq!(mask.pixel(0, 0), 255);
    let rmask = AlphaMaskRgba32r::new(&rbuf, OneComponentMask);
    assert_eq!(rmask.pixel(0, 0), 100);
}

#[test]
fn test_no_clip_pixel() {
    let rbuf = gray_buffer(4, 4, &[(5, 42)]);
    let mask = AmaskNoClipGray8::new(&rbuf, OneComponentMask);
    assert_eq!(mask.pixel(1, 1), 42);
}

#[test]
fn test_no_clip_fill_hspan() {
    let rbuf = gray_buffer(4, 4, &[(0, 10), (1, 20), (2, 30)]);
    let mask = AmaskNoClipGray8::new(&rbuf, OneComponentMask);
    let mut dst = vec![0u8; 3];
    mask.fill_hspan(0, 0, &mut dst);
    assert_eq!(dst, vec![10, 20, 30]);
}

#[test]
fn test_no_clip_combine_pixel() {
    let rbuf = gray_buffer(4, 4, &[(0, 128)]);
    let mask = AmaskNoClipGray8::new(&rbuf, OneComponentMask);
    let result = mask.combine_pixel(0, 0, 200);
    assert_eq!(result, ((255 + 200u32 * 128) >> 8) as u8);
}

// A clipped span equals the pixels read one by one.
#[test]
fn clipped_spans_agree_with_pixels() {
    let cells: Vec<(usize, u8)> = (0..20).map(|i| (i, (i * 13 % 256) as u8)).collect();
    let rbuf = gray_buffer(5, 4, &cells);
    let mask = AlphaMaskGray8::new(&rbuf, OneComponentMask);
    for y in -2..6 {
        for x in -7..8 {
            let mut h = vec![77u8; 6];
            mask.fill_hspan(x, y, &mut h);
            let mut v = vec![77u8; 6];
            mask.fill_vspan(x, y, &mut v);
            let mut ch = vec![200u8; 6];
            mask.combine_hspan(x, y, &mut ch);
            for i in 0..6 {
                assert_eq!(h[i], mask.pixel(x + i as i32, y));
                assert_eq!(v[i], mask.pixel(x, y + i as i32));
                assert_eq!(ch[i], mask.combine_pixel(x + i as i32, y, 200));
            }
        }
    }
}

#[test]
fn gray_mask_over_rgb_pixels_and_vertical_combine() {
    let mut data = vec![0u8; 3 * 2 * 2];
    data[0] = 255;
    data[3 * 2 + 1] = 255;
    let rbuf = RowAccessor::new(data, 2, 2, 6);
    let mask = AlphaMaskU8::<3, 0, RgbToGrayMask>::new(&rbuf, RgbToGrayMask::new(0, 1, 2));
    assert_eq!(mask.pixel(0, 0), 76);
    assert_eq!(mask.pixel(0, 1), 149);
    let mut dst = vec![255u8, 255, 255];
    mask.combine_vspan(0, 0, &mut dst);
    assert_eq!(dst, vec![((255 + 255u32 * 76) >> 8) as u8, ((255 + 255u32 * 149) >> 8) as u8, 0]);
    assert_eq!(mask.mask_function().g_offset, 1);
}

#[test]
fn no_clip_vertical_spans() {
    let rbuf = gray_buffer(3, 3, &[(2, 9), (5, 8), (8, 7)]);
    let mask = AmaskNoClipGray8::new(&rbuf, OneComponentMask);
    let mut dst = vec![0u8; 3];
    mask.fill_vspan(2, 0, &mut dst);
    assert_eq!(dst, vec![9, 8, 7]);
    let mut dst = vec![255u8; 2];
    mask.combine_vspan(2, 1, &mut dst);
    assert_eq!(dst, vec![((255 + 255u32 * 8) >> 8) as u8, ((255 + 255u32 * 7) >> 8) as u8]);
    let mut dst = vec![100u8; 2];
    mask.combine_hspan(1, 1, &mut dst);
    assert_eq!(dst, vec![((255u32) >> 8) as u8, ((255 + 100u32 * 8) >> 8) as u8]);
}

#[test]
fn spans_ending_at_the_largest_coordinate_of_an_empty_buffer_are_zero() {
    let rbuf = gray_buffer(1, 0, &[]);
    let mask = AlphaMaskGray8::new(&rbuf, OneComponentMask);
    let mut one = [7u8; 1];
    mask.fill_vspan(0, i32::MAX - 1, &mut one);
    assert_eq!(one, [0]);
    let wide = gray_buffer(0, 1, &[]);
    let mask = AlphaMaskGray8::new(&wide, OneComponentMask);
    let mut one = [7u8; 1];
    mask.fill_hspan(i32::MAX - 1, 0, &mut one);
    assert_eq!(one, [0]);
}
