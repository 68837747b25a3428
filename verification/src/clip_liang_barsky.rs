//! Cohen-Sutherland outcodes of a point against a clip box.
use crate::basics::Rect;
use vstd::prelude::*;
use vstd::std_specs::cmp::{PartialOrdIs, PartialOrdSpec};

verus! {

pub const CLIPPING_FLAGS_X1_CLIPPED: u32 = 4;

pub const CLIPPING_FLAGS_X2_CLIPPED: u32 = 1;

pub const CLIPPING_FLAGS_Y1_CLIPPED: u32 = 8;

pub const CLIPPING_FLAGS_Y2_CLIPPED: u32 = 2;

pub const CLIPPING_FLAGS_X_CLIPPED: u32 = 5;

pub const CLIPPING_FLAGS_Y_CLIPPED: u32 = 10;

/// `bit` when `cond` holds, else 0.
pub open spec fn flag_if(cond: bool, bit: u32) -> u32 {
    if cond {
        bit
    } else {
        0
    }
}

/// The x outcode bits of `x` against `clip_box`: 1 right of `x2`, 4 left of `x1`.
pub open spec fn x_flags<T: Copy + PartialOrd>(x: T, clip_box: Rect<T>) -> int {
    flag_if(x.is_gt(&clip_box.x2), CLIPPING_FLAGS_X2_CLIPPED) + flag_if(
        x.is_lt(&clip_box.x1),
        CLIPPING_FLAGS_X1_CLIPPED,
    )
}

/// The y outcode bits of `y` against `clip_box`: 2 above `y2`, 8 below `y1`.
pub open spec fn y_flags<T: Copy + PartialOrd>(y: T, clip_box: Rect<T>) -> int {
    flag_if(y.is_gt(&clip_box.y2), CLIPPING_FLAGS_Y2_CLIPPED) + flag_if(
        y.is_lt(&clip_box.y1),
        CLIPPING_FLAGS_Y1_CLIPPED,
    )
}

/// Cohen-Sutherland outcode of the point `(x, y)` against `clip_box`:
/// bit 0 right of the box, bit 1 above, bit 2 left, bit 3 below.
pub fn clipping_flags<T: Copy + PartialOrd>(x: T, y: T, clip_box: &Rect<T>) -> (r: u32)
    ensures
        T::obeys_partial_cmp_spec() ==> r == x_flags(x, *clip_box) + y_flags(y, *clip_box),
        r < 16,
{
    let mut r: u32 = 0;
    if x > clip_box.x2 {
        r = r + CLIPPING_FLAGS_X2_CLIPPED;
    }
    if y > clip_box.y2 {
        r = r + CLIPPING_FLAGS_Y2_CLIPPED;
    }
    if x < clip_box.x1 {
        r = r + CLIPPING_FLAGS_X1_CLIPPED;
    }
    if y < clip_box.y1 {
        r = r + CLIPPING_FLAGS_Y1_CLIPPED;
    }
    r
}

/// The x outcode bits of `x` against `clip_box`.
pub fn clipping_flags_x<T: Copy + PartialOrd>(x: T, clip_box: &Rect<T>) -> (r: u32)
    ensures
        T::obeys_partial_cmp_spec() ==> r == x_flags(x, *clip_box),
        r < 16,
{
    let mut r: u32 = 0;
    if x > clip_box.x2 {
        r = r + CLIPPING_FLAGS_X2_CLIPPED;
    }
    if x < clip_box.x1 {
        r = r + CLIPPING_FLAGS_X1_CLIPPED;
    }
    r
}

/// The y outcode bits of `y` against `clip_box`.
pub fn clipping_flags_y<T: Copy + PartialOrd>(y: T, clip_box: &Rect<T>) -> (r: u32)
    ensures
        T::obeys_partial_cmp_spec() ==> r == y_flags(y, *clip_box),
        r < 16,
{
    let mut r: u32 = 0;
    if y > clip_box.y2 {
        r = r + CLIPPING_FLAGS_Y2_CLIPPED;
    }
    if y < clip_box.y1 {
        r = r + CLIPPING_FLAGS_Y1_CLIPPED;
    }
    r
}


/// The outcode of a point is the union of its x and y codes, which occupy
/// disjoint bits: `clipping_flags_x(x) | clipping_flags_y(y)` is
/// `clipping_flags(x, y)`.
pub proof fn lemma_flags_compose<T: Copy + PartialOrd>(x: T, y: T, b: Rect<T>)
    ensures
        ((x_flags(x, b) as u32) | (y_flags(y, b) as u32)) == x_flags(x, b) + y_flags(y, b),
        (x_flags(x, b) as u32) & CLIPPING_FLAGS_Y_CLIPPED == 0,
        (y_flags(y, b) as u32) & CLIPPING_FLAGS_X_CLIPPED == 0,
{
    let xf = x_flags(x, b) as u32;
    let yf = y_flags(y, b) as u32;
    assert(xf == 0 || xf == 1 || xf == 4 || xf == 5);
    assert(yf == 0 || yf == 2 || yf == 8 || yf == 10);
    assert((xf | yf) == xf + yf && xf & 10 == 0 && yf & 5 == 0) by (bit_vector)
        requires
            xf == 0 || xf == 1 || xf == 4 || xf == 5,
            yf == 0 || yf == 2 || yf == 8 || yf == 10,
    ;
}

} // verus!
