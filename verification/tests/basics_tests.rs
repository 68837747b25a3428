use agg::basics::{
    clear_orientation, get_close_flag, get_orientation, intersect_rectangles, is_ccw, is_close,
    is_closed, is_curve, is_curve3, is_curve4, is_cw, is_drawing, is_end_poly, is_line_to,
    is_move_to, is_next_poly, is_oriented, is_stop, is_vertex, mul_one, set_orientation,
    unite_rectangles, PointBase, RectI, VertexBase, COVER_FULL, COVER_MASK, COVER_NONE,
    COVER_SHIFT, COVER_SIZE, PATH_CMD_CURVE3, PATH_CMD_CURVE4, PATH_CMD_END_POLY,
    PATH_CMD_LINE_TO, PATH_CMD_MOVE_TO, PATH_CMD_STOP, PATH_FLAGS_CCW, PATH_FLAGS_CLOSE,
    PATH_FLAGS_CW, POLY_SUBPIXEL_MASK, POLY_SUBPIXEL_SCALE, POLY_SUBPIXEL_SHIFT,
};

#[test]
fn test_mul_one_shift8() {
    assert_eq!(mul_one(255, 255, 8), 255);
    assert_eq!(mul_one(128, 255, 8), 128);
    assert_eq!(mul_one(0, 255, 8), 0);
}

#[test]
fn test_cover_constants() {
    assert_eq!(COVER_SHIFT, 8);
    assert_eq!(COVER_SIZE, 256);
    assert_eq!(COVER_MASK, 255);
    assert_eq!(COVER_NONE, 0);
    assert_eq!(COVER_FULL, 255);
}

#[test]
fn test_poly_subpixel_constants() {
    assert_eq!(POLY_SUBPIXEL_SHIFT, 8);
    assert_eq!(POLY_SUBPIXEL_SCALE, 256);
    assert_eq!(POLY_SUBPIXEL_MASK, 255);
}

#[test]
fn test_rect_new_and_is_valid() {
    let r = RectI::new(10, 20, 30, 40);
    assert!(r.is_valid());
    assert_eq!(r.x1, 10);
    assert_eq!(r.y1, 20);
    assert_eq!(r.x2, 30);
    assert_eq!(r.y2, 40);

    let r_invalid = RectI::new(30, 40, 10, 20);
    assert!(!r_invalid.is_valid());
}

#[test]
fn test_rect_normalize() {
    let mut r = RectI::new(30, 40, 10, 20);
    r.normalize();
    assert_eq!(r.x1, 10);
    assert_eq!(r.y1, 20);
    assert_eq!(r.x2, 30);
    assert_eq!(r.y2, 40);
}

#[test]
fn test_rect_clip() {
    let mut r = RectI::new(10, 20, 100, 200);
    let clip = RectI::new(50, 50, 80, 80);
    let valid = r.clip(&clip);
    assert!(valid);
    assert_eq!(r.x1, 50);
    assert_eq!(r.y1, 50);
    assert_eq!(r.x2, 80);
    assert_eq!(r.y2, 80);
}

#[test]
fn test_rect_hit_test() {
    let r = RectI::new(10, 20, 30, 40);
    assert!(r.hit_test(15, 25));
    assert!(r.hit_test(10, 20));
    assert!(r.hit_test(30, 40));
    assert!(!r.hit_test(5, 25));
    assert!(!r.hit_test(15, 45));
}

#[test]
fn test_rect_overlaps() {
    let r1 = RectI::new(10, 20, 30, 40);
    let r2 = RectI::new(25, 35, 50, 60);
    assert!(r1.overlaps(&r2));
    assert!(r2.overlaps(&r1));

    let r3 = RectI::new(31, 41, 50, 60);
    assert!(!r1.overlaps(&r3));
}

#[test]
fn test_intersect_rectangles() {
    let r1 = RectI::new(10, 20, 100, 200);
    let r2 = RectI::new(50, 50, 80, 80);
    let r = intersect_rectangles(&r1, &r2);
    assert_eq!(r.x1, 50);
    assert_eq!(r.y1, 50);
    assert_eq!(r.x2, 80);
    assert_eq!(r.y2, 80);
}

#[test]
fn test_unite_rectangles() {
    let r1 = RectI::new(10, 20, 30, 40);
    let r2 = RectI::new(50, 60, 70, 80);
    let r = unite_rectangles(&r1, &r2);
    assert_eq!(r.x1, 10);
    assert_eq!(r.y1, 20);
    assert_eq!(r.x2, 70);
    assert_eq!(r.y2, 80);
}

#[test]
fn test_path_command_classification() {
    assert!(is_stop(PATH_CMD_STOP));
    assert!(!is_stop(PATH_CMD_MOVE_TO));

    assert!(is_move_to(PATH_CMD_MOVE_TO));
    assert!(is_line_to(PATH_CMD_LINE_TO));

    assert!(is_vertex(PATH_CMD_MOVE_TO));
    assert!(is_vertex(PATH_CMD_LINE_TO));
    assert!(is_vertex(PATH_CMD_CURVE3));
    assert!(is_vertex(PATH_CMD_CURVE4));
    assert!(!is_vertex(PATH_CMD_STOP));
    assert!(!is_vertex(PATH_CMD_END_POLY));

    assert!(is_drawing(PATH_CMD_LINE_TO));
    assert!(is_drawing(PATH_CMD_CURVE3));
    assert!(!is_drawing(PATH_CMD_MOVE_TO));
    assert!(!is_drawing(PATH_CMD_END_POLY));

    assert!(is_curve(PATH_CMD_CURVE3));
    assert!(is_curve(PATH_CMD_CURVE4));
    assert!(!is_curve(PATH_CMD_LINE_TO));

    assert!(is_curve3(PATH_CMD_CURVE3));
    assert!(!is_curve3(PATH_CMD_CURVE4));

    assert!(is_curve4(PATH_CMD_CURVE4));
    assert!(!is_curve4(PATH_CMD_CURVE3));
}

#[test]
fn test_path_end_poly_and_close() {
    assert!(is_end_poly(PATH_CMD_END_POLY));
    assert!(is_end_poly(PATH_CMD_END_POLY | PATH_FLAGS_CLOSE));
    assert!(is_end_poly(PATH_CMD_END_POLY | PATH_FLAGS_CW));
    assert!(!is_end_poly(PATH_CMD_LINE_TO));

    assert!(is_close(PATH_CMD_END_POLY | PATH_FLAGS_CLOSE));
    assert!(!is_close(PATH_CMD_END_POLY));
    assert!(is_close(PATH_CMD_END_POLY | PATH_FLAGS_CLOSE | PATH_FLAGS_CW));
}

#[test]
fn test_path_flags() {
    let cmd = PATH_CMD_END_POLY | PATH_FLAGS_CLOSE | PATH_FLAGS_CW;
    assert!(is_cw(cmd));
    assert!(!is_ccw(cmd));
    assert!(is_oriented(cmd));
    assert!(is_closed(cmd));

    assert_eq!(get_close_flag(cmd), PATH_FLAGS_CLOSE);
    assert_eq!(get_orientation(cmd), PATH_FLAGS_CW);
    assert_eq!(clear_orientation(cmd), PATH_CMD_END_POLY | PATH_FLAGS_CLOSE);
    assert_eq!(
        set_orientation(cmd, PATH_FLAGS_CCW),
        PATH_CMD_END_POLY | PATH_FLAGS_CLOSE | PATH_FLAGS_CCW
    );
}

#[test]
fn test_is_next_poly() {
    assert!(is_next_poly(PATH_CMD_STOP));
    assert!(is_next_poly(PATH_CMD_MOVE_TO));
    assert!(is_next_poly(PATH_CMD_END_POLY));
    assert!(!is_next_poly(PATH_CMD_LINE_TO));
    assert!(!is_next_poly(PATH_CMD_CURVE3));
}

#[test]
fn test_point() {
    let p = PointBase::new(1.5, 2.5);
    assert_eq!(p.x, 1.5);
    assert_eq!(p.y, 2.5);
}

#[test]
fn test_vertex() {
    let v = VertexBase::new(1.0, 2.0, PATH_CMD_LINE_TO);
    assert_eq!(v.x, 1.0);
    assert_eq!(v.y, 2.0);
    assert_eq!(v.cmd, PATH_CMD_LINE_TO);
}

#[test]
fn mul_one_rounds_to_nearest_for_bytes() {
    // round(200 * 100 / 255) = round(78.43) = 78
    assert_eq!(mul_one(200, 100, 8), 78);
    // round(1 * 128 / 255) = round(0.502) = 1
    assert_eq!(mul_one(1, 128, 8), 1);
}

#[test]
fn set_orientation_then_get_orientation_reads_it_back() {
    let cmd = PATH_CMD_END_POLY | PATH_FLAGS_CLOSE | PATH_FLAGS_CW;
    let c = set_orientation(cmd, PATH_FLAGS_CCW);
    assert_eq!(get_orientation(c), PATH_FLAGS_CCW);
    assert_eq!(clear_orientation(c), clear_orientation(cmd));
    assert_eq!(get_orientation(clear_orientation(c)), 0);
}
