//! Foundation types, constants and path-command predicates.
use vstd::prelude::*;
use vstd::arithmetic::power2::{pow2, lemma_pow2_pos, lemma_pow2_strictly_increases};
use vstd::bits::{lemma_u32_shl_is_mul, lemma_u32_shr_is_div};
use vstd::std_specs::cmp::{PartialOrdIs, PartialOrdSpec};

verus! {

// ---------------------------------------------------------------------------
// Fixed-point multiply
// ---------------------------------------------------------------------------
/// The value `mul_one` computes: `q = a*b + 2^(shift-1)`, then
/// `(q + (q >> shift)) >> shift`.
pub open spec fn mul_one_spec(a: u32, b: u32, shift: u32) -> int {
    let q: int = a * b + pow2((shift - 1) as nat);
    (q + q / pow2(shift as nat) as int) / pow2(shift as nat) as int
}

/// Division by `d` rounded to the nearest integer (for odd `d` there are no
/// ties): the exact meaning of the fixed-point multiplies of this library.
pub open spec fn div_round(n: int, d: int) -> int {
    (n + (d - 1) / 2) / d
}

/// Fixed-point multiply with rounding: `(q + (q >> shift)) >> shift` where
/// `q = a * b + 2^(shift - 1)`. With `shift == 8` and 8-bit operands this is
/// `a * b / 255` rounded to the nearest integer.
pub fn mul_one(a: u32, b: u32, shift: u32) -> (r: u32)
    requires
        1 <= shift < 32,
        a * b + pow2((shift - 1) as nat) + (a * b + pow2((shift - 1) as nat)) / (pow2(shift as nat) as int)
            <= u32::MAX,
    ensures
        r == mul_one_spec(a, b, shift),
        shift == 8 && a <= 255 && b <= 255 ==> r == div_round(a * b, 255),
{
    proof {
        lemma_pow2_pos(shift as nat);
        lemma_pow2_pos((shift - 1) as nat);
        lemma_pow2_strictly_increases((shift - 1) as nat, shift as nat);
        lemma_u32_shl_is_mul(1, (shift - 1) as u32);
        vstd::arithmetic::div_mod::lemma_div_is_ordered_by_denominator(
            a * b + pow2((shift - 1) as nat),
            1,
            pow2(shift as nat) as int,
        );
    }
    let q = a * b + (1u32 << (shift - 1));
    proof {
        lemma_u32_shr_is_div(q, shift);
    }
    let s = q + (q >> shift);
    proof {
        lemma_u32_shr_is_div(s, shift);
    }
    let r = s >> shift;
    proof {
        if shift == 8 && a <= 255 && b <= 255 {
            vstd::arithmetic::power2::lemma2_to64();
            assert(r == (a * b + 127) / 255) by (bit_vector)
                requires
                    a <= 255,
                    b <= 255,
                    shift == 8,
                    q == a * b + 128,
                    s == q + (q >> shift),
                    r == s >> shift,
            ;
        }
    }
    r
}

// ---------------------------------------------------------------------------
// Cover and subpixel constants
// ---------------------------------------------------------------------------
/// The type used for anti-aliasing coverage values.
pub type CoverType = u8;

pub const COVER_SHIFT: u32 = 8;

pub const COVER_SIZE: u32 = 256;

pub const COVER_MASK: u32 = 255;

pub const COVER_NONE: CoverType = 0;

pub const COVER_FULL: CoverType = 255;

pub const POLY_SUBPIXEL_SHIFT: u32 = 8;

pub const POLY_SUBPIXEL_SCALE: u32 = 256;

pub const POLY_SUBPIXEL_MASK: u32 = 255;

/// Filling rule for polygon rasterization.
#[derive(Debug, Clone, Copy, PartialEq, Eq, Structural)]
pub enum FillingRule {
    NonZero,
    EvenOdd,
}

// ---------------------------------------------------------------------------
// Rectangles
// ---------------------------------------------------------------------------
/// A rectangle defined by two corner points.
#[derive(Debug, Clone, Copy)]
pub struct Rect<T: Copy> {
    pub x1: T,
    pub y1: T,
    pub x2: T,
    pub y2: T,
}

/// Rectangle with `i32` coordinates.
pub type RectI = Rect<i32>;

/// Whether the rectangle `r` is non-empty (`x1 <= x2` and `y1 <= y2`).
pub open spec fn rect_valid<T: Copy + PartialOrd>(r: Rect<T>) -> bool {
    r.x1.is_le(&r.x2) && r.y1.is_le(&r.y2)
}

/// Whether `v` is the smaller of `a` and `b`, ties keeping `a`.
pub open spec fn keeps_min<T: Copy + PartialOrd>(v: T, a: T, b: T) -> bool {
    if a.is_gt(&b) {
        v == b
    } else {
        v == a
    }
}

/// Whether `v` is the larger of `a` and `b`, ties keeping `a`.
pub open spec fn keeps_max<T: Copy + PartialOrd>(v: T, a: T, b: T) -> bool {
    if a.is_lt(&b) {
        v == b
    } else {
        v == a
    }
}

/// The intersection of `a` and `b`, as `clip` and `intersect_rectangles`
/// compute it.
pub open spec fn is_intersection<T: Copy + PartialOrd>(r: Rect<T>, a: Rect<T>, b: Rect<T>) -> bool {
    &&& keeps_min(r.x2, a.x2, b.x2)
    &&& keeps_min(r.y2, a.y2, b.y2)
    &&& keeps_max(r.x1, a.x1, b.x1)
    &&& keeps_max(r.y1, a.y1, b.y1)
}

/// The bounding box of `a` and `b`, as `unite_rectangles` computes it.
pub open spec fn is_union<T: Copy + PartialOrd>(r: Rect<T>, a: Rect<T>, b: Rect<T>) -> bool {
    &&& keeps_max(r.x2, a.x2, b.x2)
    &&& keeps_max(r.y2, a.y2, b.y2)
    &&& keeps_min(r.x1, a.x1, b.x1)
    &&& keeps_min(r.y1, a.y1, b.y1)
}

impl<T: Copy + PartialOrd> Rect<T> {
    pub fn new(x1: T, y1: T, x2: T, y2: T) -> (r: Self)
        ensures
            r.x1 == x1 && r.y1 == y1 && r.x2 == x2 && r.y2 == y2,
    {
        Rect { x1, y1, x2, y2 }
    }

    pub fn init(&mut self, x1: T, y1: T, x2: T, y2: T)
        ensures
            final(self).x1 == x1 && final(self).y1 == y1,
            final(self).x2 == x2 && final(self).y2 == y2,
    {
        self.x1 = x1;
        self.y1 = y1;
        self.x2 = x2;
        self.y2 = y2;
    }

    /// Swaps the corners where needed so that `x1 <= x2` and `y1 <= y2`.
    pub fn normalize(&mut self)
        ensures
            T::obeys_partial_cmp_spec() ==> (old(self).x1.is_gt(&old(self).x2) ==> (
            final(self).x1 == old(self).x2 && final(self).x2 == old(self).x1)),
            T::obeys_partial_cmp_spec() ==> (!old(self).x1.is_gt(&old(self).x2) ==> (
            final(self).x1 == old(self).x1 && final(self).x2 == old(self).x2)),
            T::obeys_partial_cmp_spec() ==> (old(self).y1.is_gt(&old(self).y2) ==> (
            final(self).y1 == old(self).y2 && final(self).y2 == old(self).y1)),
            T::obeys_partial_cmp_spec() ==> (!old(self).y1.is_gt(&old(self).y2) ==> (
            final(self).y1 == old(self).y1 && final(self).y2 == old(self).y2)),
    {
        if self.x1 > self.x2 {
            let t = self.x1;
            self.x1 = self.x2;
            self.x2 = t;
        }
        if self.y1 > self.y2 {
            let t = self.y1;
            self.y1 = self.y2;
            self.y2 = t;
        }
    }

    /// Clips this rectangle to its intersection with `r`; returns whether the
    /// result is non-empty.
    pub fn clip(&mut self, r: &Self) -> (valid: bool)
        ensures
            T::obeys_partial_cmp_spec() ==> is_intersection(*final(self), *old(self), *r),
            T::obeys_partial_cmp_spec() ==> valid == rect_valid(*final(self)),
    {
        if self.x2 > r.x2 {
            self.x2 = r.x2;
        }
        if self.y2 > r.y2 {
            self.y2 = r.y2;
        }
        if self.x1 < r.x1 {
            self.x1 = r.x1;
        }
        if self.y1 < r.y1 {
            self.y1 = r.y1;
        }
        self.x1 <= self.x2 && self.y1 <= self.y2
    }

    /// Whether the rectangle is non-empty.
    pub fn is_valid(&self) -> (b: bool)
        ensures
            T::obeys_partial_cmp_spec() ==> b == rect_valid(*self),
    {
        self.x1 <= self.x2 && self.y1 <= self.y2
    }

    /// Whether the point `(x, y)` lies inside the rectangle, borders included.
    pub fn hit_test(&self, x: T, y: T) -> (b: bool)
        ensures
            T::obeys_partial_cmp_spec() ==> b == (x.is_ge(&self.x1) && x.is_le(&self.x2)
                && y.is_ge(&self.y1) && y.is_le(&self.y2)),
    {
        x >= self.x1 && x <= self.x2 && y >= self.y1 && y <= self.y2
    }

    /// Whether this rectangle and `r` share at least one point.
    pub fn overlaps(&self, r: &Self) -> (b: bool)
        ensures
            T::obeys_partial_cmp_spec() ==> b == !(r.x1.is_gt(&self.x2) || r.x2.is_lt(&self.x1)
                || r.y1.is_gt(&self.y2) || r.y2.is_lt(&self.y1)),
    {
        !(r.x1 > self.x2 || r.x2 < self.x1 || r.y1 > self.y2 || r.y2 < self.y1)
    }
}

/// The intersection of two rectangles.
pub fn intersect_rectangles<T: Copy + PartialOrd>(r1: &Rect<T>, r2: &Rect<T>) -> (r: Rect<T>)
    ensures
        T::obeys_partial_cmp_spec() ==> is_intersection(r, *r1, *r2),
{
    let mut r = *r1;
    if r.x2 > r2.x2 {
        r.x2 = r2.x2;
    }
    if r.y2 > r2.y2 {
        r.y2 = r2.y2;
    }
    if r.x1 < r2.x1 {
        r.x1 = r2.x1;
    }
    if r.y1 < r2.y1 {
        r.y1 = r2.y1;
    }
    r
}

/// The bounding box of two rectangles.
pub fn unite_rectangles<T: Copy + PartialOrd>(r1: &Rect<T>, r2: &Rect<T>) -> (r: Rect<T>)
    ensures
        T::obeys_partial_cmp_spec() ==> is_union(r, *r1, *r2),
{
    let mut r = *r1;
    if r.x2 < r2.x2 {
        r.x2 = r2.x2;
    }
    if r.y2 < r2.y2 {
        r.y2 = r2.y2;
    }
    if r.x1 > r2.x1 {
        r.x1 = r2.x1;
    }
    if r.y1 > r2.y1 {
        r.y1 = r2.y1;
    }
    r
}

/// `T`'s comparison is a total order: `a < b` exactly when `b > a`, two
/// values neither less nor greater than each other are equal, `<=` and `>=`
/// are `<` and `>` or equality, and `<` is transitive.
pub open spec fn total_order<T: PartialOrd>() -> bool {
    &&& T::obeys_partial_cmp_spec()
    &&& forall|a: T, b: T|
        #![trigger a.partial_cmp_spec(&b)]
        a.is_lt(&b) == b.is_gt(&a)
    &&& forall|a: T, b: T|
        #![trigger a.partial_cmp_spec(&b)]
        !a.is_lt(&b) && !a.is_gt(&b) ==> a == b
    &&& forall|a: T, b: T|
        #![trigger a.partial_cmp_spec(&b)]
        a.is_le(&b) == (a.is_lt(&b) || a == b) && a.is_ge(&b) == (a.is_gt(&b) || a == b)
    &&& forall|a: T, b: T, c: T|
        #![trigger a.partial_cmp_spec(&b), b.partial_cmp_spec(&c)]
        a.is_lt(&b) && b.is_lt(&c) ==> a.is_lt(&c)
}

/// The comparison of `i32` is a total order.
pub proof fn lemma_i32_total_order()
    ensures
        total_order::<i32>(),
{
}

/// Under a total order the intersection is corner-wise: the larger lower
/// corner and the smaller upper corner; so it does not depend on the order
/// of its arguments.
pub proof fn lemma_intersection_of_rects<T: Copy + PartialOrd>(
    r: Rect<T>,
    r2: Rect<T>,
    a: Rect<T>,
    b: Rect<T>,
)
    requires
        total_order::<T>(),
        is_intersection(r, a, b),
        is_intersection(r2, b, a),
    ensures
        r.x1 == (if a.x1.is_gt(&b.x1) { a.x1 } else { b.x1 }),
        r.y1 == (if a.y1.is_gt(&b.y1) { a.y1 } else { b.y1 }),
        r.x2 == (if a.x2.is_lt(&b.x2) { a.x2 } else { b.x2 }),
        r.y2 == (if a.y2.is_lt(&b.y2) { a.y2 } else { b.y2 }),
        r == r2,
{
}

/// Under a total order the union is corner-wise: the smaller lower corner
/// and the larger upper corner; it does not depend on the order of its
/// arguments, and every point of either rectangle lies in it.
pub proof fn lemma_union_of_rects<T: Copy + PartialOrd>(
    r: Rect<T>,
    r2: Rect<T>,
    a: Rect<T>,
    b: Rect<T>,
    x: T,
    y: T,
)
    requires
        total_order::<T>(),
        is_union(r, a, b),
        is_union(r2, b, a),
    ensures
        r.x1 == (if a.x1.is_lt(&b.x1) { a.x1 } else { b.x1 }),
        r.y1 == (if a.y1.is_lt(&b.y1) { a.y1 } else { b.y1 }),
        r.x2 == (if a.x2.is_gt(&b.x2) { a.x2 } else { b.x2 }),
        r.y2 == (if a.y2.is_gt(&b.y2) { a.y2 } else { b.y2 }),
        r == r2,
        (a.x1.is_le(&x) && x.is_le(&a.x2) && a.y1.is_le(&y) && y.is_le(&a.y2)) || (b.x1.is_le(&x)
            && x.is_le(&b.x2) && b.y1.is_le(&y) && y.is_le(&b.y2)) ==> r.x1.is_le(&x) && x.is_le(
            &r.x2,
        ) && r.y1.is_le(&y) && y.is_le(&r.y2),
{
}

/// Under a total order a rectangle after `normalize` (as its contract gives
/// it) has its corners ordered, and normalizing it again changes nothing.
pub proof fn lemma_normalized_rect<T: Copy + PartialOrd>(old_r: Rect<T>, r: Rect<T>)
    requires
        total_order::<T>(),
        old_r.x1.is_gt(&old_r.x2) ==> r.x1 == old_r.x2 && r.x2 == old_r.x1,
        !old_r.x1.is_gt(&old_r.x2) ==> r.x1 == old_r.x1 && r.x2 == old_r.x2,
        old_r.y1.is_gt(&old_r.y2) ==> r.y1 == old_r.y2 && r.y2 == old_r.y1,
        !old_r.y1.is_gt(&old_r.y2) ==> r.y1 == old_r.y1 && r.y2 == old_r.y2,
    ensures
        rect_valid(r),
        !r.x1.is_gt(&r.x2) && !r.y1.is_gt(&r.y2),
{
}

/// Under a total order two valid rectangles overlap, in either order,
/// exactly when their intersection is valid.
pub proof fn lemma_overlap_of_rects<T: Copy + PartialOrd>(a: Rect<T>, b: Rect<T>, r: Rect<T>)
    requires
        total_order::<T>(),
        rect_valid(a),
        rect_valid(b),
        is_intersection(r, a, b),
    ensures
        !(b.x1.is_gt(&a.x2) || b.x2.is_lt(&a.x1) || b.y1.is_gt(&a.y2) || b.y2.is_lt(&a.y1)) == !(
        a.x1.is_gt(&b.x2) || a.x2.is_lt(&b.x1) || a.y1.is_gt(&b.y2) || a.y2.is_lt(&b.y1)),
        !(b.x1.is_gt(&a.x2) || b.x2.is_lt(&a.x1) || b.y1.is_gt(&a.y2) || b.y2.is_lt(&a.y1))
            == rect_valid(r),
{
}

// ---------------------------------------------------------------------------
// Path commands and flags
// ---------------------------------------------------------------------------
pub const PATH_CMD_STOP: u32 = 0;

pub const PATH_CMD_MOVE_TO: u32 = 1;

pub const PATH_CMD_LINE_TO: u32 = 2;

pub const PATH_CMD_CURVE3: u32 = 3;

pub const PATH_CMD_CURVE4: u32 = 4;

pub const PATH_CMD_CURVE_N: u32 = 5;

pub const PATH_CMD_CATROM: u32 = 6;

pub const PATH_CMD_UBSPLINE: u32 = 7;

pub const PATH_CMD_END_POLY: u32 = 0x0F;

pub const PATH_CMD_MASK: u32 = 0x0F;

pub const PATH_FLAGS_NONE: u32 = 0;

pub const PATH_FLAGS_CCW: u32 = 0x10;

pub const PATH_FLAGS_CW: u32 = 0x20;

pub const PATH_FLAGS_CLOSE: u32 = 0x40;

pub const PATH_FLAGS_MASK: u32 = 0xF0;

/// The two orientation flag bits.
pub open spec fn orientation_bits() -> u32 {
    PATH_FLAGS_CW | PATH_FLAGS_CCW
}

proof fn lemma_flag_values()
    ensures
        orientation_bits() == 0x30u32,
        PATH_CMD_END_POLY | PATH_FLAGS_CLOSE == 0x4Fu32,
{
    assert(0x20u32 | 0x10u32 == 0x30u32) by (bit_vector);
    assert(0x0Fu32 | 0x40u32 == 0x4Fu32) by (bit_vector);
}

/// Whether `c` is a vertex command (move_to up to, excluding, end_poly).
pub fn is_vertex(c: u32) -> (b: bool)
    ensures
        b == (PATH_CMD_MOVE_TO <= c < PATH_CMD_END_POLY),
{
    PATH_CMD_MOVE_TO <= c && c < PATH_CMD_END_POLY
}

/// Whether `c` is a drawing command (line_to up to, excluding, end_poly).
pub fn is_drawing(c: u32) -> (b: bool)
    ensures
        b == (PATH_CMD_LINE_TO <= c < PATH_CMD_END_POLY),
{
    PATH_CMD_LINE_TO <= c && c < PATH_CMD_END_POLY
}

/// Whether `c` is the stop command.
pub fn is_stop(c: u32) -> (b: bool)
    ensures
        b == (c == PATH_CMD_STOP),
{
    c == PATH_CMD_STOP
}

/// Whether `c` is a move_to command.
pub fn is_move_to(c: u32) -> (b: bool)
    ensures
        b == (c == PATH_CMD_MOVE_TO),
{
    c == PATH_CMD_MOVE_TO
}

/// Whether `c` is a line_to command.
pub fn is_line_to(c: u32) -> (b: bool)
    ensures
        b == (c == PATH_CMD_LINE_TO),
{
    c == PATH_CMD_LINE_TO
}

/// Whether `c` is a quadratic or cubic curve command.
pub fn is_curve(c: u32) -> (b: bool)
    ensures
        b == (c == PATH_CMD_CURVE3 || c == PATH_CMD_CURVE4),
{
    c == PATH_CMD_CURVE3 || c == PATH_CMD_CURVE4
}

/// Whether `c` is a quadratic curve command.
pub fn is_curve3(c: u32) -> (b: bool)
    ensures
        b == (c == PATH_CMD_CURVE3),
{
    c == PATH_CMD_CURVE3
}

/// Whether `c` is a cubic curve command.
pub fn is_curve4(c: u32) -> (b: bool)
    ensures
        b == (c == PATH_CMD_CURVE4),
{
    c == PATH_CMD_CURVE4
}

/// Whether the command part of `c` is end_poly, whatever its flags.
pub fn is_end_poly(c: u32) -> (b: bool)
    ensures
        b == (c & PATH_CMD_MASK == PATH_CMD_END_POLY),
        b == (c % 16 == 15),
{
    assert((c & 0x0F == 0x0F) == (c % 16 == 15)) by (bit_vector);
    (c & PATH_CMD_MASK) == PATH_CMD_END_POLY
}

/// Whether `c` is end_poly with the close flag, orientation flags ignored.
pub fn is_close(c: u32) -> (b: bool)
    ensures
        b == (c & !orientation_bits() == PATH_CMD_END_POLY | PATH_FLAGS_CLOSE),
{
    (c & !(PATH_FLAGS_CW | PATH_FLAGS_CCW)) == (PATH_CMD_END_POLY | PATH_FLAGS_CLOSE)
}

/// Whether `c` starts a new polygon: stop, move_to or end_poly.
pub fn is_next_poly(c: u32) -> (b: bool)
    ensures
        b == (c == PATH_CMD_STOP || c == PATH_CMD_MOVE_TO || c & PATH_CMD_MASK
            == PATH_CMD_END_POLY),
{
    is_stop(c) || is_move_to(c) || is_end_poly(c)
}

/// Whether the clockwise flag of `c` is set.
pub fn is_cw(c: u32) -> (b: bool)
    ensures
        b == (c & PATH_FLAGS_CW != 0),
{
    (c & PATH_FLAGS_CW) != 0
}

/// Whether the counter-clockwise flag of `c` is set.
pub fn is_ccw(c: u32) -> (b: bool)
    ensures
        b == (c & PATH_FLAGS_CCW != 0),
{
    (c & PATH_FLAGS_CCW) != 0
}

/// Whether either orientation flag of `c` is set.
pub fn is_oriented(c: u32) -> (b: bool)
    ensures
        b == (c & orientation_bits() != 0),
        b == (c & PATH_FLAGS_CW != 0 || c & PATH_FLAGS_CCW != 0),
{
    proof {
        lemma_flag_values();
    }
    assert((c & 0x30 != 0) == (c & 0x20 != 0 || c & 0x10 != 0)) by (bit_vector);
    (c & (PATH_FLAGS_CW | PATH_FLAGS_CCW)) != 0
}

/// Whether the close flag of `c` is set.
pub fn is_closed(c: u32) -> (b: bool)
    ensures
        b == (c & PATH_FLAGS_CLOSE != 0),
{
    (c & PATH_FLAGS_CLOSE) != 0
}

/// The close flag of `c` (either `PATH_FLAGS_CLOSE` or 0).
pub fn get_close_flag(c: u32) -> (r: u32)
    ensures
        r == c & PATH_FLAGS_CLOSE,
        r == PATH_FLAGS_CLOSE || r == 0,
{
    assert(c & 0x40 == 0x40 || c & 0x40 == 0) by (bit_vector);
    c & PATH_FLAGS_CLOSE
}

/// `c` with both orientation flags cleared.
pub fn clear_orientation(c: u32) -> (r: u32)
    ensures
        r == c & !orientation_bits(),
{
    c & !(PATH_FLAGS_CW | PATH_FLAGS_CCW)
}

/// The orientation flags of `c`.
pub fn get_orientation(c: u32) -> (r: u32)
    ensures
        r == c & orientation_bits(),
{
    c & (PATH_FLAGS_CW | PATH_FLAGS_CCW)
}

/// `c` with its orientation flags replaced by `o`.
pub fn set_orientation(c: u32, o: u32) -> (r: u32)
    ensures
        r == (c & !orientation_bits()) | o,
{
    clear_orientation(c) | o
}

/// Setting an orientation (one of none, cw, ccw) and reading it back gives
/// that orientation; the rest of the command is left unchanged.
pub proof fn lemma_set_then_get_orientation(c: u32, o: u32)
    requires
        o == PATH_FLAGS_NONE || o == PATH_FLAGS_CW || o == PATH_FLAGS_CCW,
    ensures
        ((c & !orientation_bits()) | o) & orientation_bits() == o,
        ((c & !orientation_bits()) | o) & !orientation_bits() == c & !orientation_bits(),
{
    lemma_flag_values();
    assert(((c & !0x30u32) | o) & 0x30u32 == o) by (bit_vector)
        requires
            o == 0 || o == 0x20 || o == 0x10,
    ;
    assert(((c & !0x30u32) | o) & !0x30u32 == c & !0x30u32) by (bit_vector)
        requires
            o == 0 || o == 0x20 || o == 0x10,
    ;
}

/// Clearing the orientation twice is the same as clearing it once, and a
/// cleared command reports no orientation.
pub proof fn lemma_clear_orientation_idempotent(c: u32)
    ensures
        (c & !orientation_bits()) & !orientation_bits() == c & !orientation_bits(),
        (c & !orientation_bits()) & orientation_bits() == 0,
{
    lemma_flag_values();
    assert((c & !0x30u32) & !0x30u32 == c & !0x30u32) by (bit_vector);
    assert((c & !0x30u32) & 0x30u32 == 0) by (bit_vector);
}

/// A close command is an end_poly command with the close flag set.
pub proof fn lemma_close_is_closed_end_poly(c: u32)
    requires
        c & !orientation_bits() == PATH_CMD_END_POLY | PATH_FLAGS_CLOSE,
    ensures
        c & PATH_CMD_MASK == PATH_CMD_END_POLY,
        c & PATH_FLAGS_CLOSE != 0,
{
    lemma_flag_values();
    assert(c & 0x0F == 0x0F && c & 0x40 != 0) by (bit_vector)
        requires
            c & !0x30u32 == 0x4F,
    ;
}

// ---------------------------------------------------------------------------
// Points and vertices
// ---------------------------------------------------------------------------
/// A 2D point.
#[derive(Debug, Clone, Copy, Default)]
pub struct PointBase<T: Copy> {
    pub x: T,
    pub y: T,
}

impl<T: Copy> PointBase<T> {
    pub fn new(x: T, y: T) -> (p: Self)
        ensures
            p.x == x && p.y == y,
    {
        PointBase { x, y }
    }
}

pub type PointI = PointBase<i32>;

/// A vertex: coordinates and a path command.
#[derive(Debug, Clone, Copy)]
pub struct VertexBase<T: Copy> {
    pub x: T,
    pub y: T,
    pub cmd: u32,
}

impl<T: Copy> VertexBase<T> {
    pub fn new(x: T, y: T, cmd: u32) -> (v: Self)
        ensures
            v.x == x && v.y == y && v.cmd == cmd,
    {
        VertexBase { x, y, cmd }
    }
}

pub type VertexI = VertexBase<i32>;

/// A row of a rendering buffer: the span `x1..=x2` of pixels it covers and
/// the position of its first byte in the buffer.
#[derive(Debug, Clone, Copy)]
pub struct RowInfo {
    pub x1: i32,
    pub x2: i32,
    pub offset: usize,
}

impl RowInfo {
    pub fn new(x1: i32, x2: i32, offset: usize) -> (r: Self)
        ensures
            r.x1 == x1 && r.x2 == x2 && r.offset == offset,
    {
        RowInfo { x1, x2, offset }
    }
}

/// A read-only row of a rendering buffer: the span `x1..=x2` of pixels it
/// covers and the position of its first byte in the buffer.
#[derive(Debug, Clone, Copy)]
pub struct ConstRowInfo {
    pub x1: i32,
    pub x2: i32,
    pub offset: usize,
}

impl ConstRowInfo {
    pub fn new(x1: i32, x2: i32, offset: usize) -> (r: Self)
        ensures
            r.x1 == x1 && r.x2 == x2 && r.offset == offset,
    {
        ConstRowInfo { x1, x2, offset }
    }
}

} // verus!
