//! Exact meaning of the fixed-point rounding idiom used by the colour types:
//! `((t >> k) + t) >> k` with `t = n + 2^(k-1)` divides by `2^k - 1` with
//! rounding to the nearest integer.
use crate::basics::div_round;
use vstd::arithmetic::div_mod::lemma_fundamental_div_mod_converse;
use vstd::prelude::*;

verus! {

/// Interpolation of `p` towards `q` by `a / m`, rounded symmetrically:
/// `p + round((q - p) * a / m)`.
pub open spec fn lerp_value(p: int, q: int, a: int, m: int) -> int {
    if p <= q {
        p + div_round((q - p) * a, m)
    } else {
        p - div_round((p - q) * a, m)
    }
}

/// With `m = b - 1`: `((n + b/2) / b + n + b/2) / b == round(n / m)` for
/// `0 <= n <= m*m`.
pub proof fn lemma_fixed_pos(n: int, b: int)
    requires
        b >= 4,
        b % 2 == 0,
        0 <= n <= (b - 1) * (b - 1),
    ensures
        ((n + b / 2) / b + n + b / 2) / b == div_round(n, b - 1),
{
    let m = b - 1;
    let x = n + (b - 2) / 2;
    let q = x / m;
    let r = x % m;
    assert(x == m * q + r && 0 <= r < m) by (nonlinear_arith)
        requires
            m > 0,
            q == x / m,
            r == x % m,
    ;
    assert(q <= m) by (nonlinear_arith)
        requires
            x == m * q + r,
            0 <= r,
            x <= m * m + (b - 2) / 2,
            m == b - 1,
            b >= 4,
            (b - 2) / 2 < m,
    ;
    let t = n + b / 2;
    assert(t == b * q + (r + 1 - q)) by (nonlinear_arith)
        requires
            t == n + b / 2,
            x == n + (b - 2) / 2,
            x == m * q + r,
            m == b - 1,
            b % 2 == 0,
    ;
    if r + 1 >= q {
        lemma_fundamental_div_mod_converse(t, b, q, r + 1 - q);
        lemma_fundamental_div_mod_converse(q + t, b, q, r + 1);
    } else {
        assert(t == b * (q - 1) + (b + r + 1 - q)) by (nonlinear_arith)
            requires
                t == b * q + (r + 1 - q),
        ;
        lemma_fundamental_div_mod_converse(t, b, q - 1, b + r + 1 - q);
        assert(q - 1 + t == b * q + r) by (nonlinear_arith)
            requires
                t == b * q + (r + 1 - q),
        ;
        lemma_fundamental_div_mod_converse(q - 1 + t, b, q, r);
    }
}

/// The negative side of the same idiom: with `t = b/2 - 1 - e`,
/// `(t / b + t) / b == -round(e / m)` for `0 <= e <= m*m`.
pub proof fn lemma_fixed_neg(e: int, b: int)
    requires
        b >= 4,
        b % 2 == 0,
        0 <= e <= (b - 1) * (b - 1),
    ensures
        ((b / 2 - 1 - e) / b + (b / 2 - 1 - e)) / b == -div_round(e, b - 1),
{
    let m = b - 1;
    let x = e + (b - 2) / 2;
    let q = x / m;
    let r = x % m;
    assert(x == m * q + r && 0 <= r < m) by (nonlinear_arith)
        requires
            m > 0,
            q == x / m,
            r == x % m,
    ;
    assert(q <= m) by (nonlinear_arith)
        requires
            x == m * q + r,
            0 <= r,
            x <= m * m + (b - 2) / 2,
            m == b - 1,
            b >= 4,
            (b - 2) / 2 < m,
    ;
    let t = b / 2 - 1 - e;
    assert(t == b * (-q) + (q - r + b - 2)) by (nonlinear_arith)
        requires
            t == b / 2 - 1 - e,
            x == e + (b - 2) / 2,
            x == m * q + r,
            m == b - 1,
            b % 2 == 0,
    ;
    if q - r + b - 2 < b {
        lemma_fundamental_div_mod_converse(t, b, -q, q - r + b - 2);
        assert(-q + t == b * (-q) + (b - 2 - r)) by (nonlinear_arith)
            requires
                t == b * (-q) + (q - r + b - 2),
        ;
        lemma_fundamental_div_mod_converse(-q + t, b, -q, b - 2 - r);
    } else {
        assert(t == b * (-q + 1) + (q - r - 2)) by (nonlinear_arith)
            requires
                t == b * (-q) + (q - r + b - 2),
        ;
        lemma_fundamental_div_mod_converse(t, b, -q + 1, q - r - 2);
        assert(-q + 1 + t == b * (-q) + (b - 1 - r)) by (nonlinear_arith)
            requires
                t == b * (-q) + (q - r + b - 2),
        ;
        lemma_fundamental_div_mod_converse(-q + 1 + t, b, -q, b - 1 - r);
    }
}

/// Arithmetic right shifts of an `i32` are floor divisions.
pub proof fn lemma_i32_shr(x: i32)
    by (bit_vector)
    ensures
        x >> 16u32 == x / 65536,
        x >> 8u32 == x / 256,
{
}

/// Shifts, masks and truncations of a `u32` as arithmetic.
pub proof fn lemma_u32_shr(x: u32)
    by (bit_vector)
    ensures
        x >> 16u32 == x / 65536,
        x >> 8u32 == x / 256,
        x >> 24u32 == x / 16777216,
        x >> 24u32 < 256,
        x >> 1u32 == x / 2,
        x as u8 == x % 256,
        x as u16 == x % 65536,
        x & 0xFF == x % 256,
        (x >> 8u32) & 0xFF == (x / 256) % 256,
        (x >> 16u32) & 0xFF == (x / 65536) % 256,
{
}

/// Shifts of a `u16` as arithmetic; repeating a byte is multiplying by 257.
pub proof fn lemma_u16_bits(w: u16)
    by (bit_vector)
    ensures
        w >> 8u16 == w / 256,
        w < 256 ==> (w << 8u16) | w == w * 257,
{
}

/// Reinterpreting an `i32` as `u32` adds `2^32` to negative values, and a
/// `u32` above `i32::MAX` reads as a negative `i32`.
pub proof fn lemma_sign_casts(v: i32, w: u32)
    by (bit_vector)
    ensures
        v >= 0 ==> v as u32 == v,
        v < 0 ==> v as u32 == v + 0x1_0000_0000,
        w <= 0x7fff_ffff ==> w as i32 == w,
        w > 0x7fff_ffff ==> (w as i32) < 0,
{
}

/// The rounded quotient `round(n / m)` stays within `0..=m` for `n <= m*m`.
pub proof fn lemma_div_round_bound(n: int, m: int)
    requires
        m >= 3,
        m % 2 == 1,
        0 <= n <= m * m,
    ensures
        0 <= div_round(n, m) <= m,
{
    assert((n + (m - 1) / 2) / m <= m) by (nonlinear_arith)
        requires
            m >= 3,
            0 <= n <= m * m,
            (m - 1) / 2 < m,
    ;
    assert((n + (m - 1) / 2) / m >= 0) by (nonlinear_arith)
        requires
            m >= 3,
            0 <= n,
    ;
}

/// `round(n * m / m)` of an exact multiple is the factor itself, and
/// rounding is monotone in the numerator.
pub proof fn lemma_div_round_facts(a: int, b: int, m: int)
    requires
        m >= 3,
        m % 2 == 1,
        0 <= a <= m,
        0 <= b <= m,
    ensures
        div_round(a * m, m) == a,
        div_round(a * 0, m) == 0,
        div_round(a * b, m) <= a,
        div_round(a * b, m) <= b,
        a * b == b * a,
{
    assert((a * m + (m - 1) / 2) / m == a) by (nonlinear_arith)
        requires
            m >= 3,
            0 <= a,
            0 <= (m - 1) / 2 < m,
    ;
    assert((a * b + (m - 1) / 2) / m <= a) by (nonlinear_arith)
        requires
            m >= 3,
            0 <= a <= m,
            0 <= b <= m,
            0 <= (m - 1) / 2 < m,
            (m - 1) / 2 * 2 == m - 1,
    ;
    assert((a * b + (m - 1) / 2) / m <= b) by (nonlinear_arith)
        requires
            m >= 3,
            0 <= a <= m,
            0 <= b <= m,
            0 <= (m - 1) / 2 < m,
            (m - 1) / 2 * 2 == m - 1,
    ;
    assert(a * b == b * a) by (nonlinear_arith);
    assert(a * 0 == 0);
    assert(((m - 1) / 2) / m == 0) by (nonlinear_arith)
        requires
            m >= 3,
    ;
}

/// Interpolation lands on its start at weight zero and on its end at full
/// weight.
pub proof fn lemma_lerp_endpoints(p: int, q: int, m: int)
    requires
        m >= 3,
        m % 2 == 1,
        0 <= p <= m,
        0 <= q <= m,
    ensures
        lerp_value(p, q, 0, m) == p,
        lerp_value(p, q, m, m) == q,
{
    if p <= q {
        lemma_div_round_facts(q - p, 0, m);
        assert((q - p) * 0 == 0);
    } else {
        lemma_div_round_facts(p - q, 0, m);
        assert((p - q) * 0 == 0);
    }
}

/// Widening a byte to 16 bits (times 257) and narrowing back (the high
/// byte) gives the byte back.
pub proof fn lemma_widen_narrow(v: u8)
    ensures
        (v * 257) / 256 == v,
{
    assert((v * 257) / 256 == v) by (nonlinear_arith)
        requires
            0 <= v <= 255,
    ;
}

} // verus!
