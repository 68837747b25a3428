use agg::dda_line::{
    line_lr, Dda2LineInterpolator, DdaLineInterpolator, LineBresenhamInterpolator, SUBPIXEL_SCALE,
};

#[test]
fn test_dda_line_interpolator_basic() {
    let mut dda = DdaLineInterpolator::<8, 0>::new(0, 100, 10);
    assert_eq!(dda.y(), 0);
    for _ in 0..10 {
        dda.inc();
    }
    assert_eq!(dda.y(), 100);
}

#[test]
fn test_dda_line_interpolator_midpoint() {
    let mut dda = DdaLineInterpolator::<8, 0>::new(0, 100, 10);
    for _ in 0..5 {
        dda.inc();
    }
    assert_eq!(dda.y(), 50);
}

#[test]
fn test_dda_line_interpolator_backward() {
    let mut dda = DdaLineInterpolator::<8, 0>::new(0, 100, 10);
    dda.inc_by(10);
    assert_eq!(dda.y(), 100);
    dda.dec_by(10);
    assert_eq!(dda.y(), 0);
}

#[test]
fn test_dda2_forward() {
    let mut dda = Dda2LineInterpolator::new_forward(0, 10, 10);
    for _ in 0..10 {
        dda.inc();
    }
    assert_eq!(dda.y(), 10);
}

#[test]
fn test_dda2_forward_negative() {
    let mut dda = Dda2LineInterpolator::new_forward(10, 0, 10);
    for _ in 0..10 {
        dda.inc();
    }
    assert_eq!(dda.y(), 0);
}

#[test]
fn test_dda2_backward() {
    let mut dda = Dda2LineInterpolator::new_backward(0, 10, 10);
    for _ in 0..10 {
        dda.inc();
    }
    assert_eq!(dda.y(), 10);
}

#[test]
fn test_dda2_save_load() {
    let mut dda = Dda2LineInterpolator::new_forward(0, 100, 10);
    for _ in 0..5 {
        dda.inc();
    }
    let saved = dda.save();
    let y_at_5 = dda.y();

    for _ in 0..3 {
        dda.inc();
    }
    assert_ne!(dda.y(), y_at_5);

    dda.load(&saved);
    assert_eq!(dda.y(), y_at_5);
}

#[test]
fn test_dda2_dec() {
    let mut dda = Dda2LineInterpolator::new_forward(0, 10, 10);
    for _ in 0..10 {
        dda.inc();
    }
    assert_eq!(dda.y(), 10);
    for _ in 0..10 {
        dda.dec();
    }
    assert_eq!(dda.y(), 0);
}

#[test]
fn test_bresenham_horizontal() {
    let bi = LineBresenhamInterpolator::new(0, 0, 10 * SUBPIXEL_SCALE, 0);
    assert!(!bi.is_ver());
    assert_eq!(bi.len(), 10);
    assert_eq!(bi.inc(), 1);
}

#[test]
fn test_bresenham_vertical() {
    let bi = LineBresenhamInterpolator::new(0, 0, 0, 10 * SUBPIXEL_SCALE);
    assert!(bi.is_ver());
    assert_eq!(bi.len(), 10);
    assert_eq!(bi.inc(), 1);
}

#[test]
fn test_bresenham_diagonal() {
    let mut bi = LineBresenhamInterpolator::new(0, 0, 10 * SUBPIXEL_SCALE, 10 * SUBPIXEL_SCALE);
    assert_eq!(bi.len(), 10);
    for _ in 0..bi.len() {
        if bi.is_ver() {
            bi.vstep();
        } else {
            bi.hstep();
        }
    }
}

#[test]
fn test_bresenham_negative_direction() {
    let bi = LineBresenhamInterpolator::new(10 * SUBPIXEL_SCALE, 0, 0, 0);
    assert!(!bi.is_ver());
    assert_eq!(bi.inc(), -1);
}

#[test]
fn forward_interpolation_reaches_its_end_for_uneven_steps() {
    // 7 over 3 steps: lft = 2, rem = 1
    let mut dda = Dda2LineInterpolator::new_forward(0, 7, 3);
    assert_eq!((dda.lft(), dda.rem(), dda.mod_val()), (2, 1, -2));
    let mut ys = Vec::new();
    for _ in 0..3 {
        dda.inc();
        ys.push(dda.y());
    }
    assert_eq!(ys, vec![2, 4, 7]);
    let mut dda = Dda2LineInterpolator::new_forward(5, -8, 4);
    for _ in 0..4 {
        dda.inc();
    }
    assert_eq!(dda.y(), -8);
}

#[test]
fn forward_interpolation_from_the_lowest_i32_reaches_its_end() {
    let mut dda = Dda2LineInterpolator::new_forward(i32::MIN, -10, 7);
    for _ in 0..7 {
        dda.inc();
        assert!(dda.mod_val() <= 0 && dda.mod_val() > -7);
    }
    assert_eq!(dda.y(), -10);
}

#[test]
fn relative_interpolation_and_phase_adjustments() {
    let mut dda = Dda2LineInterpolator::new_relative(10, 4);
    assert_eq!((dda.y(), dda.lft(), dda.rem(), dda.mod_val()), (0, 2, 2, 2));
    dda.adjust_forward();
    assert_eq!(dda.mod_val(), -2);
    dda.adjust_backward();
    assert_eq!(dda.mod_val(), 2);
    let zero_count = Dda2LineInterpolator::new_forward(3, 9, 0);
    assert_eq!(zero_count.y(), 3);
}

#[test]
fn fixed_point_interpolator_exposes_its_accumulator() {
    let mut dda = DdaLineInterpolator::<14, 0>::new(0, 255, 10);
    assert_eq!(dda.dy(), 0);
    dda.inc();
    assert_eq!(dda.dy(), (255 << 14) / 10);
    dda.dec();
    assert_eq!(dda.dy(), 0);
}

#[test]
fn bresenham_walk_ends_at_the_last_pixel() {
    let x2 = 7 * SUBPIXEL_SCALE + 100;
    let y2 = 3 * SUBPIXEL_SCALE + 20;
    let mut bi = LineBresenhamInterpolator::new(0, 0, x2, y2);
    assert!(!bi.is_ver());
    let n = bi.len();
    for _ in 0..n {
        bi.hstep();
    }
    assert_eq!(bi.x1(), line_lr(x2));
    assert_eq!(bi.y2_hr(), y2);
    assert_eq!(bi.y2(), line_lr(y2));
    assert_eq!(bi.y1(), 0);
    assert_eq!(line_lr(-1), -1);
}
