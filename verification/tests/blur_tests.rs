use agg::blur::{
    apply_box_blur_3x3, stack_blur_line, stack_blur_rgba32, STACK_BLUR8_MUL, STACK_BLUR8_SHR,
};
use agg::rendering_buffer::RowAccessor;

fn make_buffer(w: u32, h: u32) -> RowAccessor {
    RowAccessor::new(vec![0u8; (h * w * 4) as usize], w, h, w * 4)
}

fn set_pixel(ra: &mut RowAccessor, x: usize, y: usize, r: u8, g: u8, b: u8, a: u8) {
    let stride = ra.stride() as usize;
    let buf = ra.buf_mut();
    let off = y * stride + x * 4;
    buf[off] = r;
    buf[off + 1] = g;
    buf[off + 2] = b;
    buf[off + 3] = a;
}

fn get_pixel(ra: &RowAccessor, x: usize, y: usize) -> [u8; 4] {
    let row = ra.row_slice(y as u32);
    let off = x * 4;
    [row[off], row[off + 1], row[off + 2], row[off + 3]]
}

#[test]
fn test_stack_blur_zero_radius() {
    let mut ra = make_buffer(10, 10);
    set_pixel(&mut ra, 5, 5, 255, 0, 0, 255);
    let before = get_pixel(&ra, 5, 5);
    stack_blur_rgba32(&mut ra, 0, 0);
    let after = get_pixel(&ra, 5, 5);
    assert_eq!(before, after);
}

#[test]
fn test_stack_blur_spreads_pixel() {
    let mut ra = make_buffer(20, 20);
    set_pixel(&mut ra, 10, 10, 255, 255, 255, 255);
    stack_blur_rgba32(&mut ra, 3, 3);
    let center = get_pixel(&ra, 10, 10);
    assert!(center[0] > 0, "center should have some red after blur");
    let neighbor = get_pixel(&ra, 11, 10);
    assert!(neighbor[0] > 0, "neighbor should have some red after blur");
}

#[test]
fn test_stack_blur_uniform_stays_uniform() {
    let mut ra = make_buffer(10, 10);
    for y in 0..10 {
        for x in 0..10 {
            set_pixel(&mut ra, x, y, 128, 128, 128, 255);
        }
    }
    stack_blur_rgba32(&mut ra, 2, 2);
    for y in 0..10 {
        for x in 0..10 {
            let p = get_pixel(&ra, x, y);
            assert!((p[0] as i32 - 128).abs() <= 1, "pixel ({x},{y}) r={} should be ~128", p[0]);
        }
    }
}

fn triangle_blur(p: &[u8], x: usize, r: usize) -> u8 {
    let n = p.len() as i64;
    let mut sum: u64 = 0;
    for k in -(r as i64)..=(r as i64) {
        let pos = (x as i64 + k).clamp(0, n - 1) as usize;
        let weight = r as i64 + 1 - k.abs();
        sum += p[pos] as u64 * weight as u64;
    }
    ((sum * STACK_BLUR8_MUL[r] as u64) >> STACK_BLUR8_SHR[r]) as u8
}

// The sliding window gives the triangle-kernel convolution at every position.
#[test]
fn line_blur_is_triangle_convolution() {
    let lines: Vec<Vec<u8>> = vec![
        vec![7],
        vec![0, 255],
        vec![10, 200, 30, 0, 90, 255, 1],
        (0..40).map(|i| ((i * 37 + 11) % 256) as u8).collect(),
    ];
    for p in &lines {
        for r in [1usize, 2, 3, 5, 17, 254] {
            let out = stack_blur_line(p, r);
            assert_eq!(out.len(), p.len());
            for x in 0..p.len() {
                assert_eq!(out[x], triangle_blur(p, x, r), "r {} x {}", r, x);
            }
        }
    }
}

#[test]
fn line_blur_radius_one_exact() {
    // weights 1 2 1, divided by 4 (512 >> 11)
    let out = stack_blur_line(&vec![0, 40, 80], 1);
    assert_eq!(out, vec![10, 40, 70]);
}

#[test]
fn stack_blur_rows_only_leaves_columns_apart() {
    let mut ra = make_buffer(5, 3);
    set_pixel(&mut ra, 2, 1, 200, 100, 40, 255);
    stack_blur_rgba32(&mut ra, 1, 0);
    assert_eq!(get_pixel(&ra, 2, 0), [0, 0, 0, 0]);
    assert_eq!(get_pixel(&ra, 1, 1), [50, 25, 10, 63]);
    assert_eq!(get_pixel(&ra, 2, 1), [100, 50, 20, 127]);
    assert_eq!(get_pixel(&ra, 3, 1), [50, 25, 10, 63]);
}

#[test]
fn stack_blur_keeps_row_padding_and_clamps_radius() {
    // stride 12 for 2 pixels: 4 padding bytes per row stay untouched
    let mut data = vec![0u8; 24];
    data[8] = 9;
    data[20] = 9;
    data[0] = 255;
    let mut ra = RowAccessor::new(data, 2, 2, 12);
    stack_blur_rgba32(&mut ra, 1000, 1000);
    let b = ra.buf();
    assert_eq!(b[8], 9);
    assert_eq!(b[20], 9);
    // Radius 254 over a 2x2 image: nearly the mean, biased to the edges.
    assert!(b[0] > 0 && b[0] < 255);
}

#[test]
fn box_blur_3x3_averages_interior_only() {
    let w = 3u32;
    let h = 3u32;
    let mut buf = vec![0u8; (w * h * 4) as usize];
    for i in 0..9 {
        buf[i * 4] = 90;
    }
    buf[4 * 4 + 1] = 81;
    apply_box_blur_3x3(&mut buf, w, h);
    assert_eq!(buf[4 * 4], 90);
    assert_eq!(buf[4 * 4 + 1], 9);
    assert_eq!(buf[0], 90);
    assert_eq!(buf[1], 0);
    let mut small = vec![5u8; 8];
    apply_box_blur_3x3(&mut small, 2, 1);
    assert_eq!(small, vec![5u8; 8]);
}

// A constant line stays constant: every weighted sum is c * (r + 1)^2.
#[test]
fn constant_line_blurs_to_constant() {
    for r in [1usize, 2, 7, 100] {
        let p = vec![128u8; 13];
        let out = stack_blur_line(&p, r);
        let expected = ((128u64 * ((r as u64 + 1) * (r as u64 + 1)) * STACK_BLUR8_MUL[r] as u64)
            >> STACK_BLUR8_SHR[r]) as u8;
        assert!(out.iter().all(|&v| v == expected), "r {}", r);
    }
}
