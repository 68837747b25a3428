use agg::ellipse_bresenham::EllipseBresenhamInterpolator;

#[test]
fn test_circle() {
    let mut ei = EllipseBresenhamInterpolator::new(5, 5);
    let mut dx = 0i32;
    let mut dy = -5i32;
    let mut steps = 0;
    loop {
        ei.next();
        dx += ei.dx();
        dy += ei.dy();
        steps += 1;
        if dy >= 0 {
            break;
        }
    }
    assert!(steps > 0);
    assert!(dx > 0);
    assert!(dy >= 0);
}

#[test]
fn test_wide_ellipse() {
    let mut ei = EllipseBresenhamInterpolator::new(10, 3);
    let mut dx = 0i32;
    let mut dy = -3i32;
    let mut steps = 0;
    loop {
        ei.next();
        dx += ei.dx();
        dy += ei.dy();
        steps += 1;
        if dy >= 0 {
            break;
        }
    }
    assert!(steps > 0);
    assert!(dx > 3);
}

#[test]
fn test_tall_ellipse() {
    let mut ei = EllipseBresenhamInterpolator::new(3, 10);
    let mut dx = 0i32;
    let mut dy = -10i32;
    let mut steps = 0;
    loop {
        ei.next();
        dx += ei.dx();
        dy += ei.dy();
        steps += 1;
        if dy >= 0 {
            break;
        }
    }
    assert!(steps > 0);
    assert!(dy >= 0);
}

#[test]
fn test_unit_ellipse() {
    let mut ei = EllipseBresenhamInterpolator::new(1, 1);
    let mut dy = -1i32;
    ei.next();
    dy += ei.dy();
    if dy < 0 {
        ei.next();
        dy += ei.dy();
    }
    assert!(dy >= 0);
}

#[test]
fn circle_quadrant_steps_hug_the_circle() {
    // From (0, -5): the points visited stay within one pixel of the circle.
    let mut ei = EllipseBresenhamInterpolator::new(5, 5);
    let mut x = 0i32;
    let mut y = -5i32;
    while y < 0 {
        ei.next();
        x += ei.dx();
        y += ei.dy();
        let r2 = x * x + y * y;
        assert!((r2 - 25).abs() <= 10, "({x}, {y})");
        assert!(ei.dx() + ei.dy() >= 1);
    }
    assert_eq!((x, y), (5, 0));
}
