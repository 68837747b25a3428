//! Stack blur: an integer approximation of a Gaussian blur by a triangle
//! kernel, computed with a sliding window ("stack") over each row and then
//! each column of an RGBA buffer. Also a plain 3x3 box blur.
use crate::rendering_buffer::RowAccessor;
use vstd::arithmetic::power2::pow2;
use vstd::prelude::*;

verus! {

/// Multipliers that stand in for the division by `(r + 1)^2` at radius `r`.
pub const STACK_BLUR8_MUL: [u32; 255] = [
    512, 512, 456, 512, 328, 456, 335, 512, 405, 328, 271, 456, 388, 335, 292, 512,
    454, 405, 364, 328, 298, 271, 496, 456, 420, 388, 360, 335, 312, 292, 273, 512,
    482, 454, 428, 405, 383, 364, 345, 328, 312, 298, 284, 271, 259, 496, 475, 456,
    437, 420, 404, 388, 374, 360, 347, 335, 323, 312, 302, 292, 282, 273, 265, 512,
    497, 482, 468, 454, 441, 428, 417, 405, 394, 383, 373, 364, 354, 345, 337, 328,
    320, 312, 305, 298, 291, 284, 278, 271, 265, 259, 507, 496, 485, 475, 465, 456,
    446, 437, 428, 420, 412, 404, 396, 388, 381, 374, 367, 360, 354, 347, 341, 335,
    329, 323, 318, 312, 307, 302, 297, 292, 287, 282, 278, 273, 269, 265, 261, 512,
    505, 497, 489, 482, 475, 468, 461, 454, 447, 441, 435, 428, 422, 417, 411, 405,
    399, 394, 389, 383, 378, 373, 368, 364, 359, 354, 350, 345, 341, 337, 332, 328,
    324, 320, 316, 312, 309, 305, 301, 298, 294, 291, 287, 284, 281, 278, 274, 271,
    268, 265, 262, 259, 257, 507, 501, 496, 491, 485, 480, 475, 470, 465, 460, 456,
    451, 446, 442, 437, 433, 428, 424, 420, 416, 412, 408, 404, 400, 396, 392, 388,
    385, 381, 377, 374, 370, 367, 363, 360, 357, 354, 350, 347, 344, 341, 338, 335,
    332, 329, 326, 323, 320, 318, 315, 312, 310, 307, 304, 302, 299, 297, 294, 292,
    289, 287, 285, 282, 280, 278, 275, 273, 271, 269, 267, 265, 263, 261, 259,
];

/// Shifts that go with `STACK_BLUR8_MUL`: the sum is multiplied, then
/// shifted right by this amount.
pub const STACK_BLUR8_SHR: [u32; 255] = [
    9, 11, 12, 13, 13, 14, 14, 15, 15, 15, 15, 16, 16, 16, 16, 17,
    17, 17, 17, 17, 17, 17, 18, 18, 18, 18, 18, 18, 18, 18, 18, 19,
    19, 19, 19, 19, 19, 19, 19, 19, 19, 19, 19, 19, 19, 20, 20, 20,
    20, 20, 20, 20, 20, 20, 20, 20, 20, 20, 20, 20, 20, 20, 20, 21,
    21, 21, 21, 21, 21, 21, 21, 21, 21, 21, 21, 21, 21, 21, 21, 21,
    21, 21, 21, 21, 21, 21, 21, 21, 21, 21, 22, 22, 22, 22, 22, 22,
    22, 22, 22, 22, 22, 22, 22, 22, 22, 22, 22, 22, 22, 22, 22, 22,
    22, 22, 22, 22, 22, 22, 22, 22, 22, 22, 22, 22, 22, 22, 22, 23,
    23, 23, 23, 23, 23, 23, 23, 23, 23, 23, 23, 23, 23, 23, 23, 23,
    23, 23, 23, 23, 23, 23, 23, 23, 23, 23, 23, 23, 23, 23, 23, 23,
    23, 23, 23, 23, 23, 23, 23, 23, 23, 23, 23, 23, 23, 23, 23, 23,
    23, 23, 23, 23, 23, 24, 24, 24, 24, 24, 24, 24, 24, 24, 24, 24,
    24, 24, 24, 24, 24, 24, 24, 24, 24, 24, 24, 24, 24, 24, 24, 24,
    24, 24, 24, 24, 24, 24, 24, 24, 24, 24, 24, 24, 24, 24, 24, 24,
    24, 24, 24, 24, 24, 24, 24, 24, 24, 24, 24, 24, 24, 24, 24, 24,
    24, 24, 24, 24, 24, 24, 24, 24, 24, 24, 24, 24, 24, 24, 24,
];

/// `i` clamped into `0..n`.
pub open spec fn clamp_index(i: int, n: int) -> int {
    if i < 0 {
        0
    } else if i >= n {
        n - 1
    } else {
        i
    }
}

/// The value of the line at `i`, its end values repeated beyond the ends.
pub open spec fn edge_value(p: Seq<u8>, i: int) -> int {
    p[clamp_index(i, p.len() as int)] as int
}

/// `edge_value(p, lo) + ... + edge_value(p, hi - 1)`.
pub open spec fn box_sum(p: Seq<u8>, lo: int, hi: int) -> int
    decreases hi - lo,
{
    if hi <= lo {
        0
    } else {
        box_sum(p, lo, hi - 1) + edge_value(p, hi - 1)
    }
}

/// Weight of offset `k` in the triangle kernel of radius `r`.
pub open spec fn tri_weight(r: int, k: int) -> int {
    r + 1 - if k < 0 {
        -k
    } else {
        k
    }
}

/// Sum over `k` in `lo..hi` of `tri_weight(r, k) * edge_value(p, x + k)`.
pub open spec fn tri_sum(p: Seq<u8>, x: int, r: int, lo: int, hi: int) -> int
    decreases hi - lo,
{
    if hi <= lo {
        0
    } else {
        tri_sum(p, x, r, lo, hi - 1) + tri_weight(r, hi - 1) * edge_value(p, x + hi - 1)
    }
}

/// The triangle-weighted sum of the `2r + 1` values around `x`.
pub open spec fn blur_sum(p: Seq<u8>, x: int, r: int) -> int {
    tri_sum(p, x, r, -r, r + 1)
}

/// The stack-blurred value at `x`: the weighted sum times the radius's
/// multiplier, divided by two to the radius's shift.
pub open spec fn blur_value(p: Seq<u8>, x: int, r: int) -> u8 {
    (blur_sum(p, x, r) * STACK_BLUR8_MUL[r] / (pow2(STACK_BLUR8_SHR[r] as nat) as int)) as u8
}

/// Every value of the line, blurred with radius `r`.
pub open spec fn blur_line_spec(p: Seq<u8>, r: int) -> Seq<u8> {
    Seq::new(p.len(), |x: int| blur_value(p, x, r))
}

// ---------------------------------------------------------------------------
// Sums

proof fn lemma_box_split(p: Seq<u8>, lo: int, mid: int, hi: int)
    requires
        lo <= mid <= hi,
    ensures
        box_sum(p, lo, hi) == box_sum(p, lo, mid) + box_sum(p, mid, hi),
    decreases hi - mid,
{
    if hi > mid {
        lemma_box_split(p, lo, mid, hi - 1);
    }
}

proof fn lemma_box_bounds(p: Seq<u8>, lo: int, hi: int)
    requires
        lo <= hi,
    ensures
        0 <= box_sum(p, lo, hi) <= 255 * (hi - lo),
    decreases hi - lo,
{
    if hi > lo {
        lemma_box_bounds(p, lo, hi - 1);
    }
}

/// Peeling the lowest term of a box sum.
proof fn lemma_box_low(p: Seq<u8>, lo: int, hi: int)
    requires
        lo < hi,
    ensures
        box_sum(p, lo, hi) == edge_value(p, lo) + box_sum(p, lo + 1, hi),
{
    lemma_box_split(p, lo, lo + 1, hi);
    assert(box_sum(p, lo, lo) == 0);
}

proof fn lemma_tri_split(p: Seq<u8>, x: int, r: int, lo: int, mid: int, hi: int)
    requires
        lo <= mid <= hi,
    ensures
        tri_sum(p, x, r, lo, hi) == tri_sum(p, x, r, lo, mid) + tri_sum(p, x, r, mid, hi),
    decreases hi - mid,
{
    if hi > mid {
        lemma_tri_split(p, x, r, lo, mid, hi - 1);
    }
}

/// Inside the kernel every weight is at least one and at most `r + 1`.
proof fn lemma_tri_bounds(p: Seq<u8>, x: int, r: int, lo: int, hi: int)
    requires
        0 <= r,
        -r <= lo <= hi <= r + 1,
    ensures
        box_sum(p, x + lo, x + hi) <= tri_sum(p, x, r, lo, hi) <= 255 * (r + 1) * (hi - lo),
    decreases hi - lo,
{
    if hi > lo {
        lemma_tri_bounds(p, x, r, lo, hi - 1);
        let w = tri_weight(r, hi - 1);
        let v = edge_value(p, x + hi - 1);
        assert(v <= w * v <= (r + 1) * 255) by (nonlinear_arith)
            requires
                1 <= w <= r + 1,
                0 <= v <= 255,
        ;
        assert(255 * (r + 1) * (hi - 1 - lo) + (r + 1) * 255 == 255 * (r + 1) * (hi - lo))
            by (nonlinear_arith);
    }
}

/// Moving the centre right by one, for offsets at or right of the centre:
/// each weight drops by one.
proof fn lemma_shift_right_part(p: Seq<u8>, x: int, r: int, lo: int, hi: int)
    requires
        0 <= lo <= hi,
    ensures
        tri_sum(p, x + 1, r, lo, hi) == tri_sum(p, x, r, lo + 1, hi + 1) + box_sum(
            p,
            x + lo + 1,
            x + hi + 1,
        ),
    decreases hi - lo,
{
    if hi > lo {
        lemma_shift_right_part(p, x, r, lo, hi - 1);
        let e = edge_value(p, x + hi);
        assert(edge_value(p, x + 1 + hi - 1) == e);
        assert(edge_value(p, x + (hi + 1) - 1) == e);
        let w = tri_weight(r, hi);
        assert(tri_weight(r, hi - 1) == w + 1);
        assert((w + 1) * e == w * e + e) by (nonlinear_arith);
    }
}

/// Moving the centre right by one, for offsets left of the centre: each
/// weight grows by one.
proof fn lemma_shift_left_part(p: Seq<u8>, x: int, r: int, lo: int, hi: int)
    requires
        lo <= hi <= 0,
    ensures
        tri_sum(p, x + 1, r, lo, hi) == tri_sum(p, x, r, lo + 1, hi + 1) - box_sum(
            p,
            x + lo + 1,
            x + hi + 1,
        ),
    decreases hi - lo,
{
    if hi > lo {
        lemma_shift_left_part(p, x, r, lo, hi - 1);
        let e = edge_value(p, x + hi);
        assert(edge_value(p, x + 1 + hi - 1) == e);
        assert(edge_value(p, x + (hi + 1) - 1) == e);
        let w = tri_weight(r, hi);
        assert(tri_weight(r, hi - 1) == w - 1);
        assert((w - 1) * e == w * e - e) by (nonlinear_arith);
    }
}

/// The sliding-window step: the sum at `x + 1` is the sum at `x`, less the
/// values from `x - r` to `x`, plus those from `x + 1` to `x + r + 1`.
pub proof fn lemma_blur_sum_slide(p: Seq<u8>, x: int, r: int)
    requires
        r >= 0,
    ensures
        blur_sum(p, x + 1, r) == blur_sum(p, x, r) - box_sum(p, x - r, x + 1) + box_sum(
            p,
            x + 1,
            x + r + 2,
        ),
{
    lemma_tri_split(p, x + 1, r, -r, 0, r + 1);
    lemma_shift_left_part(p, x, r, -r, 0);
    lemma_shift_right_part(p, x, r, 0, r + 1);
    lemma_tri_split(p, x, r, -r + 1, 1, r + 2);
    lemma_tri_split(p, x, r, -r, -r + 1, r + 1);
    lemma_box_low(p, x - r, x + 1);
    // The end terms of the kernel: weight one at `-r`, weight zero at `r + 1`.
    assert(tri_sum(p, x, r, -r, -r + 1) == edge_value(p, x - r)) by {
        assert(tri_sum(p, x, r, -r, -r) == 0);
        assert(tri_weight(r, -r) == 1);
        assert(edge_value(p, x + (-r + 1) - 1) == edge_value(p, x - r));
        let e = edge_value(p, x - r);
        assert(tri_weight(r, -r) * e == e) by (nonlinear_arith)
            requires
                tri_weight(r, -r) == 1,
        ;
    }
    assert(tri_sum(p, x, r, -r + 1, r + 2) == tri_sum(p, x, r, -r + 1, r + 1)) by {
        assert(tri_weight(r, r + 1) == 0);
        let e = edge_value(p, x + (r + 2) - 1);
        assert(tri_weight(r, r + 1) * e == 0) by (nonlinear_arith)
            requires
                tri_weight(r, r + 1) == 0,
        ;
    }
    assert(box_sum(p, x + -r + 1, x + 0 + 1) == box_sum(p, x - r + 1, x + 1));
    assert(box_sum(p, x + 0 + 1, x + (r + 1) + 1) == box_sum(p, x + 1, x + r + 2));
}

/// Sum of the kernel weights at offsets `lo..hi`.
pub open spec fn weight_sum(r: int, lo: int, hi: int) -> int
    decreases hi - lo,
{
    if hi <= lo {
        0
    } else {
        weight_sum(r, lo, hi - 1) + tri_weight(r, hi - 1)
    }
}

/// Over a constant line the weighted sum is the constant times the weights.
proof fn lemma_tri_sum_constant(p: Seq<u8>, x: int, r: int, lo: int, hi: int)
    requires
        p.len() >= 1,
        forall|i: int| 0 <= i < p.len() ==> #[trigger] p[i] == p[0],
    ensures
        tri_sum(p, x, r, lo, hi) == p[0] * weight_sum(r, lo, hi),
    decreases hi - lo,
{
    if hi > lo {
        lemma_tri_sum_constant(p, x, r, lo, hi - 1);
        let c = p[0] as int;
        assert(edge_value(p, x + hi - 1) == c);
        let w = tri_weight(r, hi - 1);
        assert(c * weight_sum(r, lo, hi - 1) + w * c == c * (weight_sum(r, lo, hi - 1) + w))
            by (nonlinear_arith);
    }
}

/// The weights left of the centre rise 1, 2, ..., m.
proof fn lemma_weight_sum_left(r: int, m: int)
    requires
        0 <= m <= r + 1,
    ensures
        2 * weight_sum(r, -r, -r + m) == m * (m + 1),
    decreases m,
{
    if m > 0 {
        lemma_weight_sum_left(r, m - 1);
        assert(weight_sum(r, -r, -r + m) == weight_sum(r, -r, -r + (m - 1)) + tri_weight(
            r,
            -r + m - 1,
        ));
        assert(tri_weight(r, -r + m - 1) == m);
        let prev = weight_sum(r, -r, -r + (m - 1));
        assert(2 * (prev + m) == m * (m + 1)) by (nonlinear_arith)
            requires
                2 * prev == (m - 1) * (m - 1 + 1),
        ;
    } else {
        assert(m * (m + 1) == 0) by (nonlinear_arith)
            requires
                m == 0,
        ;
    }
}

/// The weights right of the centre fall r, r - 1, ..., r - m + 1.
proof fn lemma_weight_sum_right(r: int, m: int)
    requires
        0 <= m <= r,
    ensures
        2 * weight_sum(r, 1, 1 + m) == 2 * m * r - m * (m - 1),
    decreases m,
{
    if m > 0 {
        lemma_weight_sum_right(r, m - 1);
        assert(weight_sum(r, 1, 1 + m) == weight_sum(r, 1, 1 + (m - 1)) + tri_weight(r, m));
        assert(tri_weight(r, m) == r + 1 - m);
        let prev = weight_sum(r, 1, 1 + (m - 1));
        assert(2 * (prev + (r + 1 - m)) == 2 * m * r - m * (m - 1)) by (nonlinear_arith)
            requires
                2 * prev == 2 * (m - 1) * r - (m - 1) * (m - 1 - 1),
        ;
    } else {
        assert(2 * m * r - m * (m - 1) == 0) by (nonlinear_arith)
            requires
                m == 0,
        ;
    }
}

/// The triangle kernel's weights add up to `(r + 1)^2`.
proof fn lemma_weight_total(r: int)
    requires
        r >= 0,
    ensures
        weight_sum(r, -r, r + 1) == (r + 1) * (r + 1),
{
    lemma_weight_sum_left(r, r + 1);
    lemma_weight_sum_right(r, r);
    lemma_weight_split(r, -r, 1, r + 1);
    assert((r + 1) * (r + 2) + 2 * r * r - r * (r - 1) == 2 * ((r + 1) * (r + 1)))
        by (nonlinear_arith);
}

proof fn lemma_weight_split(r: int, lo: int, mid: int, hi: int)
    requires
        lo <= mid <= hi,
    ensures
        weight_sum(r, lo, hi) == weight_sum(r, lo, mid) + weight_sum(r, mid, hi),
    decreases hi - mid,
{
    if hi > mid {
        lemma_weight_split(r, lo, mid, hi - 1);
    }
}

/// A constant line blurs to a constant line: at every position the weighted
/// sum is the constant times `(r + 1)^2`.
pub proof fn lemma_blur_of_constant(p: Seq<u8>, x: int, r: int)
    requires
        r >= 0,
        p.len() >= 1,
        forall|i: int| 0 <= i < p.len() ==> #[trigger] p[i] == p[0],
    ensures
        blur_sum(p, x, r) == p[0] * ((r + 1) * (r + 1)),
{
    lemma_tri_sum_constant(p, x, r, -r, r + 1);
    lemma_weight_total(r);
}

// ---------------------------------------------------------------------------
// One line

/// Every multiplier is at most 512 and every shift at most 24.
pub proof fn lemma_table_bounds(r: int)
    requires
        0 <= r < 255,
    ensures
        STACK_BLUR8_MUL[r] <= 512,
        STACK_BLUR8_SHR[r] <= 24,
{
}

/// Two positions of a window of `div` consecutive positions share a slot
/// of the circular stack only if they are equal.
proof fn lemma_slot_distinct(a: int, d: int, div: int)
    requires
        a >= 0,
        0 < d < div,
    ensures
        (a + d) % div != a % div,
{
    vstd::arithmetic::div_mod::lemma_fundamental_div_mod(a, div);
    vstd::arithmetic::div_mod::lemma_fundamental_div_mod(a + d, div);
    let q1 = a / div;
    let q2 = (a + d) / div;
    if (a + d) % div == a % div {
        assert(d == div * (q2 - q1)) by (nonlinear_arith)
            requires
                a == div * q1 + a % div,
                a + d == div * q2 + (a + d) % div,
                (a + d) % div == a % div,
        ;
        if q2 - q1 >= 1 {
            assert(div * (q2 - q1) >= div) by (nonlinear_arith)
                requires
                    q2 - q1 >= 1,
                    div > 0,
            ;
        } else {
            assert(div * (q2 - q1) <= 0) by (nonlinear_arith)
                requires
                    q2 - q1 <= 0,
                    div > 0,
            ;
        }
    }
}

/// `v` in `0..div` congruent to `a` is `a % div`.
proof fn lemma_slot_of(a: int, q: int, v: int, div: int)
    requires
        div > 0,
        0 <= v < div,
        a == div * q + v,
    ensures
        a % div == v,
{
    assert(div * q == q * div) by (nonlinear_arith);
    vstd::arithmetic::div_mod::lemma_fundamental_div_mod_converse(a, div, q, v);
}

/// The state of the sliding window before the first output: the circular
/// stack holds positions `-r..=r` (slot `pos + r`), with the weighted sum
/// and the sums of the left half (with the centre) and of the right half.
fn stack_blur_prime(src: &Vec<u8>, r: usize) -> (res: (Vec<u8>, u64, u64, u64))
    requires
        1 <= r <= 254,
        src@.len() >= 1,
    ensures
        res.0@.len() == 2 * r + 1,
        forall|j: int| 0 <= j < 2 * r + 1 ==> res.0@[j] as int == edge_value(src@, j - r),
        res.1 == blur_sum(src@, 0, r as int),
        res.2 == box_sum(src@, 1, r + 1),
        res.3 == box_sum(src@, -(r as int), 1),
{
    let n = src.len();
    let wm = n - 1;
    let ghost p = src@;
    let ghost ri = r as int;
    let mut stack: Vec<u8> = Vec::new();
    let mut sum: u64 = 0;
    let mut sum_in: u64 = 0;
    let mut sum_out: u64 = 0;
    // The first value stands for the positions left of the line.
    let first = src[0];
    let mut i: usize = 0;
    while i <= r
        invariant
            n == p.len() >= 1,
            src@ == p,
            1 <= r <= 254,
            ri == r,
            i <= r + 1,
            first == p[0],
            stack@.len() == i,
            forall|j: int| 0 <= j < i ==> stack@[j] as int == edge_value(p, j - ri),
            sum == tri_sum(p, 0, ri, -ri, -ri + i),
            sum_out == box_sum(p, -ri, -ri + i),
            sum <= 255 * (ri + 1) * i,
            sum_out <= 255 * i,
        decreases r + 1 - i,
    {
        proof {
            assert(edge_value(p, 0 + (-ri + i + 1) - 1) == first);
            assert(edge_value(p, -ri + i + 1 - 1) == first);
            assert(tri_weight(ri, -ri + i) == i + 1);
            assert(first * (i + 1) <= 255 * (ri + 1) && (i + 1) * first == first * (i + 1))
                by (nonlinear_arith)
                requires
                    i <= ri,
                    first <= 255,
            ;
            assert(255 * (ri + 1) * i + 255 * (ri + 1) == 255 * (ri + 1) * (i + 1))
                by (nonlinear_arith);
            assert(255 * (ri + 1) * (i + 1) <= 255 * 255 * 255) by (nonlinear_arith)
                requires
                    i <= ri <= 254,
            ;
        }
        stack.push(first);
        sum = sum + first as u64 * (i + 1) as u64;
        sum_out = sum_out + first as u64;
        i = i + 1;
    }
    // Positions right of the first, the last value repeated past the end.
    let mut src_pos: usize = 0;
    let mut i: usize = 1;
    while i <= r
        invariant
            n == p.len() >= 1,
            wm == n - 1,
            src@ == p,
            1 <= r <= 254,
            ri == r,
            1 <= i <= r + 1,
            src_pos as int == if i - 1 < wm {
                i - 1
            } else {
                wm as int
            },
            stack@.len() == r + i,
            forall|j: int| 0 <= j < r + i ==> stack@[j] as int == edge_value(p, j - ri),
            sum == tri_sum(p, 0, ri, -ri, i as int),
            sum_out == box_sum(p, -ri, 1),
            sum_in == box_sum(p, 1, i as int),
            sum <= 255 * (ri + 1) * (ri + i),
            sum_in <= 255 * i,
            sum_out <= 255 * (ri + 1),
        decreases r + 1 - i,
    {
        if i <= wm {
            src_pos = i;
        }
        let v = src[src_pos];
        proof {
            assert(v as int == edge_value(p, i as int));
            assert(edge_value(p, 0 + (i + 1) - 1) == v);
            assert(edge_value(p, (i + 1) - 1) == v);
            assert(tri_weight(ri, i as int) == ri + 1 - i);
            assert(v * (ri + 1 - i) <= 255 * (ri + 1) && (ri + 1 - i) * v == v * (ri + 1 - i))
                by (nonlinear_arith)
                requires
                    1 <= i <= ri,
                    v <= 255,
            ;
            assert(255 * (ri + 1) * (ri + i) + 255 * (ri + 1) == 255 * (ri + 1) * (ri + i + 1))
                by (nonlinear_arith);
            assert(255 * (ri + 1) * (ri + i + 1) <= 255 * 255 * 510) by (nonlinear_arith)
                requires
                    1 <= i <= ri <= 254,
            ;
        }
        stack.push(v);
        sum = sum + v as u64 * (r + 1 - i) as u64;
        sum_in = sum_in + v as u64;
        i = i + 1;
    }
    (stack, sum, sum_in, sum_out)
}

/// Blurs one line of values with radius `r` by the stack (sliding window)
/// method: a circular stack holds the `2r + 1` values under the kernel, the
/// weighted sum is updated by the sums of the values leaving and entering.
#[verifier::rlimit(40)]
pub fn stack_blur_line(src: &Vec<u8>, r: usize) -> (out: Vec<u8>)
    requires
        1 <= r <= 254,
        src@.len() >= 1,
    ensures
        out@ == blur_line_spec(src@, r as int),
{
    let n = src.len();
    let wm = n - 1;
    let div = r * 2 + 1;
    proof {
        lemma_table_bounds(r as int);
    }
    let mul: u64 = STACK_BLUR8_MUL[r] as u64;
    let shr: u64 = STACK_BLUR8_SHR[r] as u64;
    let ghost p = src@;
    let ghost ri = r as int;
    let (mut stack, mut sum, mut sum_in, mut sum_out) = stack_blur_prime(src, r);
    let mut stack_ptr: usize = r;
    let mut xp: usize = if r > wm {
        wm
    } else {
        r
    };
    let mut out: Vec<u8> = Vec::new();
    let mut x: usize = 0;
    proof {
        assert forall|pos: int| -ri <= pos <= ri implies stack@[(pos + ri) % (div as int)] as int
            == edge_value(p, pos) by {
            vstd::arithmetic::div_mod::lemma_small_mod((pos + ri) as nat, div as nat);
        }
        vstd::arithmetic::div_mod::lemma_small_mod(ri as nat, div as nat);
    }
    while x < n
        invariant
            n == p.len() >= 1,
            wm == n - 1,
            src@ == p,
            1 <= r <= 254,
            ri == r,
            div == 2 * r + 1,
            mul == STACK_BLUR8_MUL[ri],
            shr == STACK_BLUR8_SHR[ri],
            mul <= 512,
            shr <= 24,
            x <= n,
            stack@.len() == div,
            out@.len() == x,
            forall|j: int| 0 <= j < x ==> out@[j] == blur_value(p, j, ri),
            sum == blur_sum(p, x as int, ri),
            sum_out == box_sum(p, x - ri, x + 1),
            sum_in == box_sum(p, x + 1, x + ri + 1),
            stack_ptr as int == (x + ri) % (div as int),
            forall|pos: int|
                x - ri <= pos <= x + ri ==> stack@[(pos + ri) % (div as int)] as int == edge_value(
                    p,
                    pos,
                ),
            xp as int == if x + ri < wm {
                x + ri
            } else {
                wm as int
            },
        decreases n - x,
    {
        let ghost xi = x as int;
        let ghost d = div as int;
        proof {
            lemma_tri_bounds(p, xi, ri, -ri, ri + 1);
            lemma_box_split(p, xi - ri, xi + 1, xi + ri + 1);
            lemma_box_bounds(p, xi + 1, xi + ri + 1);
            lemma_box_bounds(p, xi - ri, xi + 1);
            assert(sum * mul <= 255 * (ri + 1) * (2 * ri + 1) * 512) by (nonlinear_arith)
                requires
                    sum <= 255 * (ri + 1) * (2 * ri + 1),
                    mul <= 512,
            ;
            assert(255 * (ri + 1) * (2 * ri + 1) * 512 <= 255 * 255 * 509 * 512) by (nonlinear_arith)
                requires
                    ri <= 254,
                    ri >= 1,
            ;
            vstd::bits::lemma_u64_shr_is_div((sum * mul) as u64, shr);
        }
        out.push(((sum * mul) >> shr) as u8);
        sum = sum - sum_out;
        // The slot of position x - r.
        let mut stack_start = stack_ptr + div - r;
        if stack_start >= div {
            stack_start = stack_start - div;
        }
        proof {
            let q0 = (xi + ri) / d;
            vstd::arithmetic::div_mod::lemma_fundamental_div_mod(xi + ri, d);
            assert(d * (q0 - 1) == d * q0 - d) by (nonlinear_arith);
            if stack_ptr + div - r >= div {
                lemma_slot_of(xi, q0, stack_start as int, d);
            } else {
                lemma_slot_of(xi, q0 - 1, stack_start as int, d);
            }
            assert(stack@[stack_start as int] as int == edge_value(p, xi - ri)) by {
                assert((xi - ri + ri) % d == stack_start);
            }
            lemma_box_low(p, xi - ri, xi + 1);
            lemma_box_bounds(p, xi - ri + 1, xi + 1);
        }
        sum_out = sum_out - stack[stack_start] as u64;
        if xp < wm {
            xp = xp + 1;
        }
        let v = src[xp];
        assert(v as int == edge_value(p, xi + ri + 1));
        let ghost old_stack = stack@;
        stack.set(stack_start, v);
        proof {
            // Position x + r + 1 takes the slot of position x - r.
            assert((xi + ri + 1 + ri) % d == stack_start) by {
                vstd::arithmetic::div_mod::lemma_mod_add_multiples_vanish(xi, d);
            }
            assert forall|pos: int| xi + 1 - ri <= pos <= xi + 1 + ri implies stack@[(pos + ri) % d]
                as int == edge_value(p, pos) by {
                if pos <= xi + ri {
                    lemma_slot_distinct(xi, pos + ri - xi, d);
                    assert(old_stack[(pos + ri) % d] as int == edge_value(p, pos));
                }
            }
            lemma_box_bounds(p, xi + 1, xi + ri + 2);
            lemma_blur_sum_slide(p, xi, ri);
        }
        sum_in = sum_in + v as u64;
        sum = sum + sum_in;
        stack_ptr = stack_ptr + 1;
        if stack_ptr >= div {
            stack_ptr = 0;
        }
        proof {
            let q0 = (xi + ri) / d;
            vstd::arithmetic::div_mod::lemma_fundamental_div_mod(xi + ri, d);
            assert(d * (q0 + 1) == d * q0 + d) by (nonlinear_arith);
            if stack_ptr == 0 {
                lemma_slot_of(xi + 1 + ri, q0 + 1, 0, d);
            } else {
                lemma_slot_of(xi + 1 + ri, q0, stack_ptr as int, d);
            }
            lemma_box_low(p, xi + 1, xi + ri + 2);
            lemma_box_bounds(p, xi + 2, xi + ri + 2);
        }
        let s = stack[stack_ptr];
        assert(s as int == edge_value(p, xi + 1));
        sum_out = sum_out + s as u64;
        sum_in = sum_in - s as u64;
        x = x + 1;
    }
    assert(out@ =~= blur_line_spec(p, ri));
    out
}

// ---------------------------------------------------------------------------
// Lines of a buffer

/// The `n` bytes of `b` at `start`, `start + step`, `start + 2 step`, ...
pub open spec fn strided(b: Seq<u8>, start: int, step: int, n: int) -> Seq<u8> {
    Seq::new(n as nat, |k: int| b[start + k * step])
}

/// Byte `i` is one of the `n` bytes at `start + k * step`.
pub open spec fn on_line(i: int, start: int, step: int, n: int) -> bool {
    i >= start && (i - start) % step == 0 && (i - start) / step < n
}

/// `start + k * step` is on the line, as its `k`-th byte.
proof fn lemma_on_line(start: int, step: int, n: int, k: int)
    requires
        step > 0,
        0 <= k < n,
    ensures
        on_line(start + k * step, start, step, n),
        (start + k * step - start) / step == k,
{
    vstd::arithmetic::div_mod::lemma_fundamental_div_mod_converse(k * step, step, k, 0);
    vstd::arithmetic::mul::lemma_mul_nonnegative(k, step);
}

/// A byte on the line is `start + k * step` for its `k`.
proof fn lemma_line_index(i: int, start: int, step: int, n: int)
    requires
        step > 0,
        on_line(i, start, step, n),
    ensures
        i == start + ((i - start) / step) * step,
        0 <= (i - start) / step < n,
{
    vstd::arithmetic::div_mod::lemma_fundamental_div_mod(i - start, step);
    vstd::arithmetic::div_mod::lemma_div_pos_is_pos(i - start, step);
    assert(step * ((i - start) / step) == ((i - start) / step) * step) by (nonlinear_arith);
}

/// Blurs, with radius `r`, the line of `n` bytes of `buf` at `start`,
/// `start + step`, ...; every other byte stays.
fn blur_strided(buf: &mut Vec<u8>, start: usize, step: usize, n: usize, r: usize)
    requires
        1 <= r <= 254,
        n >= 1,
        step >= 1,
        start + (n - 1) * step < old(buf)@.len(),
    ensures
        final(buf)@.len() == old(buf)@.len(),
        forall|i: int|
            0 <= i < old(buf)@.len() ==> final(buf)@[i] == if on_line(
                i,
                start as int,
                step as int,
                n as int,
            ) {
                blur_value(
                    strided(old(buf)@, start as int, step as int, n as int),
                    (i - start) / (step as int),
                    r as int,
                )
            } else {
                old(buf)@[i]
            },
{
    let ghost b = buf@;
    let ghost line_spec = strided(b, start as int, step as int, n as int);
    assert(buf.len() == b.len());
    let mut line: Vec<u8> = Vec::new();
    let mut k: usize = 0;
    while k < n
        invariant
            buf@ == b,
            b.len() <= usize::MAX,
            n >= 1,
            step >= 1,
            start + (n - 1) * step < b.len(),
            k <= n,
            line_spec.len() == n,
            line_spec == strided(b, start as int, step as int, n as int),
            line@ == line_spec.subrange(0, k as int),
        decreases n - k,
    {
        proof {
            vstd::arithmetic::mul::lemma_mul_inequality(k as int, n - 1, step as int);
        }
        line.push(buf[start + k * step]);
        assert(line@ =~= line_spec.subrange(0, k + 1));
        k = k + 1;
    }
    assert(line@ =~= line_spec);
    let out = stack_blur_line(&line, r);
    let mut k: usize = 0;
    while k < n
        invariant
            buf@.len() == b.len(),
            b.len() <= usize::MAX,
            n >= 1,
            step >= 1,
            start + (n - 1) * step < b.len(),
            k <= n,
            line_spec.len() == n,
            out@ == blur_line_spec(line_spec, r as int),
            forall|i: int|
                0 <= i < b.len() ==> buf@[i] == if on_line(i, start as int, step as int, k as int) {
                    blur_value(line_spec, (i - start) / (step as int), r as int)
                } else {
                    b[i]
                },
        decreases n - k,
    {
        proof {
            vstd::arithmetic::mul::lemma_mul_inequality(k as int, n - 1, step as int);
            lemma_on_line(start as int, step as int, k + 1, k as int);
        }
        let ghost before = buf@;
        buf.set(start + k * step, out[k]);
        proof {
            assert forall|i: int| 0 <= i < b.len() implies buf@[i] == if on_line(
                i,
                start as int,
                step as int,
                k + 1,
            ) {
                blur_value(line_spec, (i - start) / (step as int), r as int)
            } else {
                b[i]
            } by {
                let here = start + k * step;
                if i == here {
                    assert(on_line(i, start as int, step as int, k + 1));
                    assert(!on_line(i, start as int, step as int, k as int));
                } else {
                    assert(buf@[i] == before[i]);
                    if on_line(i, start as int, step as int, k + 1) {
                        lemma_line_index(i, start as int, step as int, k + 1);
                        let j = (i - start) / (step as int);
                        if j == k {
                            assert(i == here);
                        }
                        assert(on_line(i, start as int, step as int, k as int));
                    } else if on_line(i, start as int, step as int, k as int) {
                        lemma_line_index(i, start as int, step as int, k as int);
                    }
                }
            }
        }
        k = k + 1;
    }
}

// ---------------------------------------------------------------------------
// Images

/// Byte `i` belongs to a pixel of an image of `h` rows of `w` four-byte
/// pixels, rows `stride` bytes apart.
pub open spec fn pixel_byte(i: int, w: int, h: int, stride: int) -> bool {
    0 <= i && stride > 0 && i / stride < h && i % stride < 4 * w
}

/// Each channel of each row blurred as a line with radius `r`.
pub open spec fn blur_rows_spec(b: Seq<u8>, w: int, h: int, stride: int, r: int) -> Seq<u8> {
    Seq::new(
        b.len(),
        |i: int|
            if pixel_byte(i, w, h, stride) {
                blur_value(
                    strided(b, (i / stride) * stride + (i % stride) % 4, 4, w),
                    (i % stride) / 4,
                    r,
                )
            } else {
                b[i]
            },
    )
}

/// Each channel of each column blurred as a line with radius `r`.
pub open spec fn blur_columns_spec(b: Seq<u8>, w: int, h: int, stride: int, r: int) -> Seq<u8> {
    Seq::new(
        b.len(),
        |i: int|
            if pixel_byte(i, w, h, stride) {
                blur_value(strided(b, i % stride, stride, h), i / stride, r)
            } else {
                b[i]
            },
    )
}

/// A radius as used: at most 254.
pub open spec fn clamp_radius(r: u32) -> int {
    if r > 254 {
        254
    } else {
        r as int
    }
}

/// The stack blur of an RGBA image: rows blurred with radius `rx` (if
/// positive), then columns with radius `ry` (if positive).
pub open spec fn stack_blur_spec(b: Seq<u8>, w: int, h: int, stride: int, rx: u32, ry: u32) -> Seq<
    u8,
> {
    if w == 0 || h == 0 {
        b
    } else {
        let b1 = if rx > 0 {
            blur_rows_spec(b, w, h, stride, clamp_radius(rx))
        } else {
            b
        };
        if ry > 0 {
            blur_columns_spec(b1, w, h, stride, clamp_radius(ry))
        } else {
            b1
        }
    }
}

/// `a == q * d + v` with `0 <= v < d`: quotient and remainder.
pub proof fn lemma_divmod(a: int, d: int, q: int, v: int)
    requires
        d > 0,
        0 <= v < d,
        a == q * d + v,
    ensures
        a / d == q,
        a % d == v,
{
    vstd::arithmetic::div_mod::lemma_fundamental_div_mod_converse(a, d, q, v);
}

/// The bytes of channel `c` of row `y` are the pixel bytes of row `y` whose
/// offset in the row is `c` modulo four.
proof fn lemma_row_line(i: int, y: int, c: int, w: int, stride: int)
    requires
        0 <= c < 4,
        w >= 1,
        y >= 0,
        4 * w <= stride,
        0 <= i,
    ensures
        on_line(i, y * stride + c, 4, w) == (i / stride == y && i % stride < 4 * w && (i % stride)
            % 4 == c),
        on_line(i, y * stride + c, 4, w) ==> (i - (y * stride + c)) / 4 == (i % stride) / 4,
{
    vstd::arithmetic::div_mod::lemma_fundamental_div_mod(i, stride);
    let q = i / stride;
    let off = i % stride;
    assert(i == q * stride + off) by (nonlinear_arith)
        requires
            i == stride * (i / stride) + i % stride,
            q == i / stride,
            off == i % stride,
    ;
    if on_line(i, y * stride + c, 4, w) {
        let k = (i - (y * stride + c)) / 4;
        vstd::arithmetic::div_mod::lemma_fundamental_div_mod(i - (y * stride + c), 4);
        lemma_divmod(i, stride, y, c + 4 * k);
        lemma_divmod(c + 4 * k, 4, k, c);
    }
    if q == y && off < 4 * w && off % 4 == c {
        vstd::arithmetic::div_mod::lemma_fundamental_div_mod(off, 4);
        lemma_divmod(i - (y * stride + c), 4, off / 4, 0);
    }
}

/// The bytes of channel `c` of column `x` are the pixel bytes at offset
/// `4x + c` in their row.
proof fn lemma_column_line(i: int, col: int, h: int, stride: int)
    requires
        0 <= col < stride,
        h >= 1,
        0 <= i,
    ensures
        on_line(i, col, stride, h) == (i % stride == col && i / stride < h),
        on_line(i, col, stride, h) ==> (i - col) / stride == i / stride,
{
    vstd::arithmetic::div_mod::lemma_fundamental_div_mod(i, stride);
    let q = i / stride;
    let off = i % stride;
    assert(i == q * stride + off) by (nonlinear_arith)
        requires
            i == stride * (i / stride) + i % stride,
            q == i / stride,
            off == i % stride,
    ;
    if on_line(i, col, stride, h) {
        let k = (i - col) / stride;
        vstd::arithmetic::div_mod::lemma_fundamental_div_mod(i - col, stride);
        assert(i - col == k * stride) by (nonlinear_arith)
            requires
                i - col == stride * ((i - col) / stride) + (i - col) % stride,
                (i - col) % stride == 0,
                k == (i - col) / stride,
        ;
        lemma_divmod(i, stride, k, col);
    }
    if off == col && q < h {
        lemma_divmod(i - col, stride, q, 0);
    }
}

/// Blurs every channel of every row with radius `r`.
fn blur_rows(buf: &mut Vec<u8>, w: usize, h: usize, stride: usize, r: usize)
    requires
        1 <= r <= 254,
        w >= 1,
        h >= 1,
        4 * w <= stride,
        h * stride <= old(buf)@.len(),
    ensures
        final(buf)@ == blur_rows_spec(old(buf)@, w as int, h as int, stride as int, r as int),
{
    let ghost b = buf@;
    let ghost target = blur_rows_spec(b, w as int, h as int, stride as int, r as int);
    let mut line: usize = 0;
    assert(buf.len() == b.len());
    assert(4 * h <= h * stride) by (nonlinear_arith)
        requires
            4 * w <= stride,
            w >= 1,
    ;
    while line < 4 * h
        invariant
            1 <= r <= 254,
            w >= 1,
            h >= 1,
            4 * w <= stride,
            h * stride <= b.len() <= usize::MAX,
            4 * h <= h * stride,
            line <= 4 * h,
            target == blur_rows_spec(b, w as int, h as int, stride as int, r as int),
            buf@.len() == b.len(),
            forall|i: int|
                0 <= i < b.len() ==> buf@[i] == if pixel_byte(i, w as int, h as int, stride as int)
                    && 4 * (i / (stride as int)) + (i % (stride as int)) % 4 < line {
                    target[i]
                } else {
                    b[i]
                },
        decreases 4 * h - line,
    {
        let y = line / 4;
        let c = line % 4;
        proof {
            vstd::arithmetic::mul::lemma_mul_inequality(y as int + 1, h as int, stride as int);
            assert((y + 1) * stride == y * stride + stride) by (nonlinear_arith);
        }
        let start = y * stride + c;
        let ghost cur = buf@;
        blur_strided(buf, start, 4, w, r);
        proof {
            let si = stride as int;
            vstd::arithmetic::div_mod::lemma_fundamental_div_mod(line as int, 4);
            assert(line == 4 * y + c);
            assert(strided(cur, start as int, 4, w as int) =~= strided(b, start as int, 4, w as int))
                by {
                assert forall|k: int| 0 <= k < w implies #[trigger] strided(
                    cur,
                    start as int,
                    4,
                    w as int,
                )[k] == strided(b, start as int, 4, w as int)[k] by {
                    let j = start + k * 4;
                    lemma_row_line(j, y as int, c as int, w as int, si);
                    lemma_on_line(start as int, 4, w as int, k);
                    vstd::arithmetic::div_mod::lemma_mod_bound(j % si, 4);
                }
            }
            assert forall|i: int| 0 <= i < b.len() implies buf@[i] == if pixel_byte(
                i,
                w as int,
                h as int,
                si,
            ) && 4 * (i / si) + (i % si) % 4 < line + 1 {
                target[i]
            } else {
                b[i]
            } by {
                lemma_row_line(i, y as int, c as int, w as int, si);
                vstd::arithmetic::div_mod::lemma_mod_bound(i % si, 4);
                vstd::arithmetic::div_mod::lemma_mod_bound(i, si);
                if on_line(i, start as int, 4, w as int) {
                    assert(i / si == y);
                    assert((i / si) * si + (i % si) % 4 == start);
                }
            }
        }
        line = line + 1;
    }
    assert(buf@ =~= target) by {
        assert forall|i: int| 0 <= i < b.len() implies buf@[i] == target[i] by {
            if pixel_byte(i, w as int, h as int, stride as int) {
                assert(4 * (i / (stride as int)) + (i % (stride as int)) % 4 < 4 * h);
            }
        }
    }
}

/// Blurs every channel of every column with radius `r`.
fn blur_columns(buf: &mut Vec<u8>, w: usize, h: usize, stride: usize, r: usize)
    requires
        1 <= r <= 254,
        w >= 1,
        h >= 1,
        4 * w <= stride,
        h * stride <= old(buf)@.len(),
    ensures
        final(buf)@ == blur_columns_spec(old(buf)@, w as int, h as int, stride as int, r as int),
{
    let ghost b = buf@;
    let ghost target = blur_columns_spec(b, w as int, h as int, stride as int, r as int);
    let mut col: usize = 0;
    assert(buf.len() == b.len());
    assert(stride <= h * stride) by (nonlinear_arith)
        requires
            h >= 1,
    ;
    while col < 4 * w
        invariant
            1 <= r <= 254,
            w >= 1,
            h >= 1,
            4 * w <= stride,
            h * stride <= b.len() <= usize::MAX,
            col <= 4 * w,
            target == blur_columns_spec(b, w as int, h as int, stride as int, r as int),
            buf@.len() == b.len(),
            forall|i: int|
                0 <= i < b.len() ==> buf@[i] == if pixel_byte(i, w as int, h as int, stride as int)
                    && i % (stride as int) < col {
                    target[i]
                } else {
                    b[i]
                },
        decreases 4 * w - col,
    {
        proof {
            vstd::arithmetic::mul::lemma_mul_inequality(h as int - 1, h as int, stride as int);
            assert((h - 1) * stride + stride == h * stride) by (nonlinear_arith);
        }
        let ghost cur = buf@;
        blur_strided(buf, col, stride, h, r);
        proof {
            let si = stride as int;
            assert(strided(cur, col as int, si, h as int) =~= strided(b, col as int, si, h as int))
                by {
                assert forall|k: int| 0 <= k < h implies #[trigger] strided(
                    cur,
                    col as int,
                    si,
                    h as int,
                )[k] == strided(b, col as int, si, h as int)[k] by {
                    let j = col + k * si;
                    vstd::arithmetic::mul::lemma_mul_inequality(k, h - 1, si);
                    lemma_on_line(col as int, si, h as int, k);
                    lemma_column_line(j, col as int, h as int, si);
                }
            }
            assert forall|i: int| 0 <= i < b.len() implies buf@[i] == if pixel_byte(
                i,
                w as int,
                h as int,
                si,
            ) && i % si < col + 1 {
                target[i]
            } else {
                b[i]
            } by {
                lemma_column_line(i, col as int, h as int, si);
            }
        }
        col = col + 1;
    }
    assert(buf@ =~= target);
}

/// Stack blur of the RGBA image in `rbuf`, in place: every channel of every
/// row is blurred with radius `rx`, then every channel of every column with
/// radius `ry`; a radius of zero skips its pass and radii above 254 count as
/// 254. Only the pixel bytes of the rows change.
pub fn stack_blur_rgba32(rbuf: &mut RowAccessor, rx: u32, ry: u32)
    requires
        old(rbuf).wf(),
        4 * old(rbuf).width_spec() <= old(rbuf).stride_spec(),
    ensures
        final(rbuf).width_spec() == old(rbuf).width_spec(),
        final(rbuf).height_spec() == old(rbuf).height_spec(),
        final(rbuf).stride_spec() == old(rbuf).stride_spec(),
        final(rbuf).bytes() == stack_blur_spec(
            old(rbuf).bytes(),
            old(rbuf).width_spec() as int,
            old(rbuf).height_spec() as int,
            old(rbuf).stride_spec() as int,
            rx,
            ry,
        ),
{
    let w = rbuf.width() as usize;
    let h = rbuf.height() as usize;
    let stride = rbuf.stride() as usize;
    if w == 0 || h == 0 {
        return;
    }
    let buf = rbuf.buf_mut();
    if rx > 0 {
        let r: usize = if rx > 254 {
            254
        } else {
            rx as usize
        };
        blur_rows(buf, w, h, stride, r);
    }
    if ry > 0 {
        let r: usize = if ry > 254 {
            254
        } else {
            ry as usize
        };
        blur_columns(buf, w, h, stride, r);
    }
}

// ---------------------------------------------------------------------------
// Box blur

/// Byte `i` of an image of `h` rows of `w` four-byte pixels, packed rows,
/// belongs to a pixel that is not on the image's border.
pub open spec fn interior_byte(i: int, w: int, h: int) -> bool {
    let stride = 4 * w;
    &&& w > 0
    &&& 0 <= i
    &&& 1 <= i / stride < h - 1
    &&& 1 <= (i % stride) / 4 < w - 1
}

/// The sum of the byte at `i` and the same channel of its eight neighbours.
pub open spec fn box3x3_sum(b: Seq<u8>, stride: int, i: int) -> int {
    b[i - stride - 4] + b[i - stride] + b[i - stride + 4] + b[i - 4] + b[i] + b[i + 4] + b[i
        + stride - 4] + b[i + stride] + b[i + stride + 4]
}

/// The 3x3 box blur: every channel of every pixel off the border becomes
/// the truncated mean of its 3x3 neighbourhood; everything else stays.
pub open spec fn box_blur_spec(b: Seq<u8>, w: int, h: int) -> Seq<u8> {
    Seq::new(
        b.len(),
        |i: int|
            if interior_byte(i, w, h) {
                (box3x3_sum(b, 4 * w, i) / 9) as u8
            } else {
                b[i]
            },
    )
}

/// An interior byte has all eight neighbours inside the image.
proof fn lemma_interior_bounds(i: int, w: int, h: int)
    requires
        interior_byte(i, w, h),
    ensures
        i - 4 * w - 4 >= 0,
        i + 4 * w + 4 < h * (4 * w),
{
    let stride = 4 * w;
    vstd::arithmetic::div_mod::lemma_fundamental_div_mod(i, stride);
    vstd::arithmetic::div_mod::lemma_fundamental_div_mod(i % stride, 4);
    let y = i / stride;
    let off = i % stride;
    assert(i == stride * y + off);
    assert(stride * y >= stride) by (nonlinear_arith)
        requires
            y >= 1,
            stride > 0,
    ;
    assert(stride * y + stride <= stride * (h - 1)) by (nonlinear_arith)
        requires
            y < h - 1,
            stride > 0,
    ;
    assert(stride * (h - 1) + stride == h * stride) by (nonlinear_arith);
}

/// A 3x3 box blur of a packed RGBA image of `width` by `height` pixels.
pub fn apply_box_blur_3x3(buf: &mut Vec<u8>, width: u32, height: u32)
    requires
        height >= 1,
        height >= 3 ==> width >= 1,
        width <= 0x3FFF_FFFF,
        height >= 3 && width >= 3 ==> old(buf)@.len() >= height * (4 * width),
    ensures
        final(buf)@ == box_blur_spec(old(buf)@, width as int, height as int),
{
    let stride: usize = (width * 4) as usize;
    let len = buf.len();
    let ghost src_spec = buf@;
    let ghost target = box_blur_spec(src_spec, width as int, height as int);
    let mut out: Vec<u8> = Vec::new();
    let mut i: usize = 0;
    while i < len
        invariant
            len == buf@.len() == src_spec.len(),
            buf@ == src_spec,
            stride == 4 * width,
            width <= 0x3FFF_FFFF,
            height >= 1,
            height >= 3 && width >= 3 ==> len >= height * (4 * width),
            target == box_blur_spec(src_spec, width as int, height as int),
            i <= len,
            out@ == target.subrange(0, i as int),
        decreases len - i,
    {
        let mut v = buf[i];
        if stride > 0 {
            let y = i / stride;
            let px = (i % stride) / 4;
            if y >= 1 && y + 1 < height as usize && px >= 1 && px + 1 < width as usize {
                proof {
                    assert(interior_byte(i as int, width as int, height as int));
                    lemma_interior_bounds(i as int, width as int, height as int);
                }
                let sum: u32 = buf[i - stride - 4] as u32 + buf[i - stride] as u32 + buf[i - stride
                    + 4] as u32 + buf[i - 4] as u32 + buf[i] as u32 + buf[i + 4] as u32 + buf[i
                    + stride - 4] as u32 + buf[i + stride] as u32 + buf[i + stride + 4] as u32;
                v = (sum / 9) as u8;
            }
        }
        out.push(v);
        assert(out@ =~= target.subrange(0, i + 1));
        i = i + 1;
    }
    assert(out@ =~= target);
    *buf = out;
}

} // verus!
