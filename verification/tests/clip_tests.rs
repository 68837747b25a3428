use agg::basics::Rect;
use agg::clip_liang_barsky::{
    clipping_flags, clipping_flags_x, clipping_flags_y, CLIPPING_FLAGS_X1_CLIPPED,
    CLIPPING_FLAGS_X2_CLIPPED, CLIPPING_FLAGS_Y1_CLIPPED, CLIPPING_FLAGS_Y2_CLIPPED,
};

fn clip_box() -> Rect<f64> {
    Rect::new(10.0, 10.0, 100.0, 100.0)
}

#[test]
fn test_clipping_flags_inside() {
    let cb = clip_box();
    assert_eq!(clipping_flags(50.0, 50.0, &cb), 0);
}

#[test]
fn test_clipping_flags_right() {
    let cb = clip_box();
    assert_eq!(clipping_flags(110.0, 50.0, &cb), CLIPPING_FLAGS_X2_CLIPPED);
}

#[test]
fn test_clipping_flags_left() {
    let cb = clip_box();
    assert_eq!(clipping_flags(5.0, 50.0, &cb), CLIPPING_FLAGS_X1_CLIPPED);
}

#[test]
fn test_clipping_flags_above() {
    let cb = clip_box();
    assert_eq!(clipping_flags(50.0, 110.0, &cb), CLIPPING_FLAGS_Y2_CLIPPED);
}

#[test]
fn test_clipping_flags_below() {
    let cb = clip_box();
    assert_eq!(clipping_flags(50.0, 5.0, &cb), CLIPPING_FLAGS_Y1_CLIPPED);
}

#[test]
fn test_clipping_flags_corner() {
    let cb = clip_box();
    assert_eq!(
        clipping_flags(110.0, 110.0, &cb),
        CLIPPING_FLAGS_X2_CLIPPED | CLIPPING_FLAGS_Y2_CLIPPED
    );
    assert_eq!(
        clipping_flags(5.0, 5.0, &cb),
        CLIPPING_FLAGS_X1_CLIPPED | CLIPPING_FLAGS_Y1_CLIPPED
    );
}

#[test]
fn test_clipping_flags_x() {
    let cb = clip_box();
    assert_eq!(clipping_flags_x(5.0, &cb), CLIPPING_FLAGS_X1_CLIPPED);
    assert_eq!(clipping_flags_x(110.0, &cb), CLIPPING_FLAGS_X2_CLIPPED);
    assert_eq!(clipping_flags_x(50.0, &cb), 0);
}

#[test]
fn test_clipping_flags_y() {
    let cb = clip_box();
    assert_eq!(clipping_flags_y(5.0, &cb), CLIPPING_FLAGS_Y1_CLIPPED);
    assert_eq!(clipping_flags_y(110.0, &cb), CLIPPING_FLAGS_Y2_CLIPPED);
    assert_eq!(clipping_flags_y(50.0, &cb), 0);
}

#[test]
fn clipping_flags_on_integer_boxes_treat_the_border_as_inside() {
    let cb = Rect::new(0, 0, 10, 10);
    assert_eq!(clipping_flags(0, 10, &cb), 0);
    assert_eq!(clipping_flags(11, -1, &cb), CLIPPING_FLAGS_X2_CLIPPED | CLIPPING_FLAGS_Y1_CLIPPED);
}
