use agg::image_accessors::{
    ImageAccessorClip, ImageAccessorClone, ImageAccessorNoClip, ImageAccessorWrap, WrapMode,
    WrapModeReflect, WrapModeReflectAutoPow2, WrapModeReflectPow2, WrapModeRepeat,
    WrapModeRepeatAutoPow2, WrapModeRepeatPow2,
};
use agg::rendering_buffer::RowAccessor;

fn set_rgba_pixel(data: &mut [u8], width: u32, x: u32, y: u32, rgba: [u8; 4]) {
    let off = (y * width * 4 + x * 4) as usize;
    data[off..off + 4].copy_from_slice(&rgba);
}

fn make_rgba_buffer(width: u32, height: u32, pixels: &[(u32, u32, [u8; 4])]) -> RowAccessor {
    let stride = width * 4;
    let mut data = vec![0u8; (stride * height) as usize];
    for &(x, y, rgba) in pixels {
        set_rgba_pixel(&mut data, width, x, y, rgba);
    }
    RowAccessor::new(data, width, height, stride)
}

#[test]
fn test_wrap_repeat() {
    let mut w = WrapModeRepeat::new(4);
    assert_eq!(w.func(0), 0);
    assert_eq!(w.func(3), 3);
    assert_eq!(w.func(4), 0);
    assert_eq!(w.func(5), 1);
    assert_eq!(w.func(-1), 3);
}

#[test]
fn test_wrap_repeat_inc() {
    let mut w = WrapModeRepeat::new(3);
    w.func(0);
    assert_eq!(w.inc(), 1);
    assert_eq!(w.inc(), 2);
    assert_eq!(w.inc(), 0);
}

#[test]
fn test_wrap_repeat_pow2() {
    let mut w = WrapModeRepeatPow2::new(4);
    assert_eq!(w.func(0), 0);
    assert_eq!(w.func(3), 3);
    assert_eq!(w.func(4), 0);
    assert_eq!(w.func(7), 3);
}

#[test]
fn test_wrap_reflect() {
    let mut w = WrapModeReflect::new(4);
    assert_eq!(w.func(0), 0);
    assert_eq!(w.func(3), 3);
    assert_eq!(w.func(4), 3);
    assert_eq!(w.func(7), 0);
}

#[test]
fn test_wrap_reflect_inc() {
    let mut w = WrapModeReflect::new(3);
    w.func(0);
    assert_eq!(w.inc(), 1);
    assert_eq!(w.inc(), 2);
    assert_eq!(w.inc(), 2);
    assert_eq!(w.inc(), 1);
    assert_eq!(w.inc(), 0);
    assert_eq!(w.inc(), 0);
}

#[test]
fn test_wrap_repeat_auto_pow2() {
    let mut w = WrapModeRepeatAutoPow2::new(8);
    assert_eq!(w.func(8), 0);
    assert_eq!(w.func(9), 1);

    let mut w2 = WrapModeRepeatAutoPow2::new(5);
    assert_eq!(w2.func(5), 0);
    assert_eq!(w2.func(7), 2);
}

#[test]
fn test_wrap_reflect_pow2() {
    let mut w = WrapModeReflectPow2::new(4);
    assert_eq!(w.func(0), 0);
    assert_eq!(w.func(3), 3);
    assert_eq!(w.func(4), 3);
    assert_eq!(w.func(7), 0);
}

#[test]
fn test_clip_in_bounds() {
    let rbuf = make_rgba_buffer(4, 4, &[(1, 1, [10, 20, 30, 40])]);
    let mut acc = ImageAccessorClip::<4>::new(&rbuf, &[0, 0, 0, 0]);
    let pix = acc.span(1, 1, 1);
    assert_eq!(&pix[..4], &[10, 20, 30, 40]);
}

#[test]
fn test_clip_out_of_bounds() {
    let rbuf = make_rgba_buffer(4, 4, &[]);
    let mut acc = ImageAccessorClip::<4>::new(&rbuf, &[99, 88, 77, 66]);
    let pix = acc.span(-1, 0, 1);
    assert_eq!(&pix[..4], &[99, 88, 77, 66]);
}

#[test]
fn test_clip_span_fast_path() {
    let rbuf = make_rgba_buffer(4, 4, &[(0, 0, [1, 2, 3, 4]), (1, 0, [5, 6, 7, 8])]);
    let mut acc = ImageAccessorClip::<4>::new(&rbuf, &[0, 0, 0, 0]);
    let pix = acc.span(0, 0, 2);
    assert_eq!(&pix[..4], &[1, 2, 3, 4]);
    let pix = acc.next_x();
    assert_eq!(&pix[..4], &[5, 6, 7, 8]);
}

#[test]
fn test_no_clip_span() {
    let rbuf = make_rgba_buffer(4, 4, &[(2, 1, [11, 22, 33, 44])]);
    let mut acc = ImageAccessorNoClip::<4>::new(&rbuf);
    let pix = acc.span(2, 1, 1);
    assert_eq!(&pix[..4], &[11, 22, 33, 44]);
}

#[test]
fn test_no_clip_next_x() {
    let rbuf = make_rgba_buffer(
        4,
        4,
        &[(0, 0, [10, 0, 0, 0]), (1, 0, [20, 0, 0, 0]), (2, 0, [30, 0, 0, 0])],
    );
    let mut acc = ImageAccessorNoClip::<4>::new(&rbuf);
    acc.span(0, 0, 3);
    let p1 = acc.next_x();
    assert_eq!(p1[0], 20);
    let p2 = acc.next_x();
    assert_eq!(p2[0], 30);
}

#[test]
fn test_clone_in_bounds() {
    let rbuf = make_rgba_buffer(4, 4, &[(1, 1, [50, 60, 70, 80])]);
    let mut acc = ImageAccessorClone::<4>::new(&rbuf);
    let pix = acc.span(1, 1, 1);
    assert_eq!(&pix[..4], &[50, 60, 70, 80]);
}

#[test]
fn test_clone_clamps_negative() {
    let rbuf = make_rgba_buffer(4, 4, &[(0, 0, [10, 20, 30, 40])]);
    let mut acc = ImageAccessorClone::<4>::new(&rbuf);
    let pix = acc.span(-5, -3, 1);
    assert_eq!(&pix[..4], &[10, 20, 30, 40]);
}

#[test]
fn test_clone_clamps_overflow() {
    let rbuf = make_rgba_buffer(4, 4, &[(3, 3, [99, 88, 77, 66])]);
    let mut acc = ImageAccessorClone::<4>::new(&rbuf);
    let pix = acc.span(100, 100, 1);
    assert_eq!(&pix[..4], &[99, 88, 77, 66]);
}

#[test]
fn test_wrap_repeat_access() {
    let rbuf = make_rgba_buffer(
        2,
        2,
        &[
            (0, 0, [10, 0, 0, 0]),
            (1, 0, [20, 0, 0, 0]),
            (0, 1, [30, 0, 0, 0]),
            (1, 1, [40, 0, 0, 0]),
        ],
    );
    let mut acc = ImageAccessorWrap::<4, WrapModeRepeat, WrapModeRepeat>::new(&rbuf);
    let pix = acc.span(2, 0, 1);
    assert_eq!(pix[0], 10);
    let pix = acc.next_x();
    assert_eq!(pix[0], 20);
}

#[test]
fn test_wrap_next_y() {
    let rbuf = make_rgba_buffer(2, 2, &[(0, 0, [10, 0, 0, 0]), (0, 1, [30, 0, 0, 0])]);
    let mut acc = ImageAccessorWrap::<4, WrapModeRepeat, WrapModeRepeat>::new(&rbuf);
    acc.span(0, 0, 1);
    let pix = acc.next_y();
    assert_eq!(pix[0], 30);
}

// Stepping after mapping `v` agrees with mapping `v + 1`, for every mode.
#[test]
fn inc_continues_func_for_every_mode() {
    fn check<W: WrapMode>(size: u32) {
        for v in -20..20 {
            let mut a = W::new(size);
            a.func(v);
            let stepped = a.inc();
            let mut b = W::new(size);
            assert_eq!(stepped, b.func(v + 1), "size {} v {}", size, v);
        }
    }
    for size in 1..9 {
        check::<WrapModeRepeat>(size);
        check::<WrapModeRepeatPow2>(size);
        check::<WrapModeRepeatAutoPow2>(size);
        check::<WrapModeReflect>(size);
        check::<WrapModeReflectPow2>(size);
        check::<WrapModeReflectAutoPow2>(size);
    }
}

#[test]
fn repeat_wraps_negative_coordinates_euclidean() {
    let mut w = WrapModeRepeat::new(5);
    assert_eq!(w.func(-1), 4);
    assert_eq!(w.func(-5), 0);
    assert_eq!(w.func(-7), 3);
    let mut p = WrapModeRepeatPow2::new(8);
    assert_eq!(p.func(-1), 7);
    assert_eq!(p.func(-9), 7);
}

#[test]
fn pow2_modes_on_sizes_that_are_not_powers_of_two() {
    // The repeat tile shrinks to the largest power of two not above the size.
    let mut w = WrapModeRepeatPow2::new(6);
    assert_eq!(w.func(4), 0);
    assert_eq!(w.func(5), 1);
    // The reflect tile is twice that power of two.
    let mut r = WrapModeReflectPow2::new(6);
    assert_eq!(r.func(4), 3);
    assert_eq!(r.func(7), 0);
    assert_eq!(r.func(8), 0);
}

#[test]
fn reflect_auto_pow2_both_paths() {
    let mut w = WrapModeReflectAutoPow2::new(4);
    assert_eq!(w.func(4), 3);
    assert_eq!(w.func(9), 1);
    let mut w3 = WrapModeReflectAutoPow2::new(3);
    assert_eq!(w3.func(3), 2);
    assert_eq!(w3.func(-1), 0);
    assert_eq!(w3.func(6), 0);
}

#[test]
fn clip_background_keeps_eight_bytes_and_next_y_leaves_image() {
    let rbuf = make_rgba_buffer(2, 2, &[(0, 1, [7, 7, 7, 7])]);
    let mut acc = ImageAccessorClip::<4>::new(&rbuf, &[1, 2, 3, 4, 5, 6, 7, 8, 9]);
    acc.set_background(&[9, 9]);
    let pix = acc.span(0, 0, 2);
    assert_eq!(pix, &[0, 0, 0, 0]);
    let pix = acc.next_y();
    assert_eq!(pix, &[7, 7, 7, 7]);
    let pix = acc.next_y();
    assert_eq!(pix, &[9, 9, 3, 4]);
}

#[test]
fn clone_slow_path_walks_and_clamps() {
    let rbuf = make_rgba_buffer(2, 2, &[(0, 0, [1, 0, 0, 0]), (1, 0, [2, 0, 0, 0])]);
    let mut acc = ImageAccessorClone::<4>::new(&rbuf);
    assert_eq!(acc.span(-1, 0, 5)[0], 1);
    assert_eq!(acc.next_x()[0], 1);
    assert_eq!(acc.next_x()[0], 2);
    assert_eq!(acc.next_x()[0], 2);
}

#[test]
fn wrap_reflect_access_mirrors() {
    let rbuf = make_rgba_buffer(2, 1, &[(0, 0, [10, 0, 0, 0]), (1, 0, [20, 0, 0, 0])]);
    let mut acc = ImageAccessorWrap::<4, WrapModeReflect, WrapModeRepeat>::new(&rbuf);
    assert_eq!(acc.span(2, 5, 4)[0], 20);
    assert_eq!(acc.next_x()[0], 10);
    assert_eq!(acc.next_x()[0], 10);
    assert_eq!(acc.next_y()[0], 20);
}
