//! Integer colour types: `Rgba8`, `Rgba16`, `Gray8`, `Gray16`, with the
//! fixed-point arithmetic used for blending.
use crate::basics::{div_round, CoverType, COVER_MASK};
use crate::fixed_point::{
    lemma_div_round_bound, lemma_fixed_neg, lemma_fixed_pos, lemma_i32_shr, lemma_u16_bits,
    lemma_u32_shr, lerp_value,
};
use crate::gamma::GammaLut;
use vstd::prelude::*;

verus! {

// ---------------------------------------------------------------------------
// Component orders
// ---------------------------------------------------------------------------
/// RGB component order: R=0, G=1, B=2.
pub struct OrderRgb;

impl OrderRgb {
    pub const R: usize = 0;

    pub const G: usize = 1;

    pub const B: usize = 2;

    pub const N: usize = 3;
}

/// BGR component order: B=0, G=1, R=2.
pub struct OrderBgr;

impl OrderBgr {
    pub const B: usize = 0;

    pub const G: usize = 1;

    pub const R: usize = 2;

    pub const N: usize = 3;
}

/// RGBA component order: R=0, G=1, B=2, A=3.
pub struct OrderRgba;

impl OrderRgba {
    pub const R: usize = 0;

    pub const G: usize = 1;

    pub const B: usize = 2;

    pub const A: usize = 3;

    pub const N: usize = 4;
}

/// ARGB component order: A=0, R=1, G=2, B=3.
pub struct OrderArgb;

impl OrderArgb {
    pub const A: usize = 0;

    pub const R: usize = 1;

    pub const G: usize = 2;

    pub const B: usize = 3;

    pub const N: usize = 4;
}

/// ABGR component order: A=0, B=1, G=2, R=3.
pub struct OrderAbgr;

impl OrderAbgr {
    pub const A: usize = 0;

    pub const B: usize = 1;

    pub const G: usize = 2;

    pub const R: usize = 3;

    pub const N: usize = 4;
}

/// BGRA component order: B=0, G=1, R=2, A=3.
pub struct OrderBgra;

impl OrderBgra {
    pub const B: usize = 0;

    pub const G: usize = 1;

    pub const R: usize = 2;

    pub const A: usize = 3;

    pub const N: usize = 4;
}

// ---------------------------------------------------------------------------
// Shared fixed-point helpers
// ---------------------------------------------------------------------------
/// `round(a * b / 255)` computed as `((t >> 8) + t) >> 8` with `t = a*b + 128`.
fn multiply8(a: u8, b: u8) -> (r: u8)
    ensures
        r == div_round(a * b, 255),
{
    let aa = a as u32;
    let bb = b as u32;
    assert(aa * bb <= 255 * 255) by (nonlinear_arith)
        requires
            aa <= 255,
            bb <= 255,
    ;
    let t: u32 = aa * bb + 128;
    proof {
        lemma_u32_shr(t);
    }
    let u: u32 = (t >> 8u32) + t;
    proof {
        lemma_u32_shr(u);
        lemma_fixed_pos(aa * bb, 256);
        lemma_div_round_bound(aa * bb, 255);
    }
    (u >> 8u32) as u8
}

/// `round(a * b / 65535)` computed as `((t >> 16) + t) >> 16` with `t = a*b + 32768`.
fn multiply16(a: u16, b: u16) -> (r: u16)
    ensures
        r == div_round(a * b, 65535),
{
    let aa = a as u32;
    let bb = b as u32;
    assert(aa * bb <= 65535 * 65535) by (nonlinear_arith)
        requires
            aa <= 65535,
            bb <= 65535,
    ;
    let t: u32 = aa * bb + 32768;
    proof {
        lemma_u32_shr(t);
    }
    let u: u32 = (t >> 16u32) + t;
    proof {
        lemma_u32_shr(u);
        lemma_fixed_pos(aa * bb, 65536);
        lemma_div_round_bound(aa * bb, 65535);
    }
    (u >> 16u32) as u16
}

/// `p + round((q - p) * a / 255)`, rounded symmetrically.
fn lerp8(p: u8, q: u8, a: u8) -> (r: u8)
    ensures
        r == lerp_value(p as int, q as int, a as int, 255),
{
    let pi = p as i32;
    let qi = q as i32;
    let ai = a as i32;
    assert(-255 * 255 <= (qi - pi) * ai <= 255 * 255) by (nonlinear_arith)
        requires
            0 <= pi <= 255,
            0 <= qi <= 255,
            0 <= ai <= 255,
    ;
    let flag: i32 = if p > q {
        1
    } else {
        0
    };
    let t: i32 = (qi - pi) * ai + 128 - flag;
    proof {
        lemma_i32_shr(t);
    }
    let u: i32 = (t >> 8u32) + t;
    proof {
        lemma_i32_shr(u);
        if p <= q {
            assert((qi - pi) * ai >= 0) by (nonlinear_arith)
                requires
                    qi >= pi,
                    ai >= 0,
            ;
            lemma_fixed_pos((qi - pi) * ai, 256);
            lemma_div_round_bound((qi - pi) * ai, 255);
            assert((qi - pi) * ai <= (qi - pi) * 255) by (nonlinear_arith)
                requires
                    qi >= pi,
                    0 <= ai <= 255,
            ;
            assert(div_round((qi - pi) * ai, 255) <= qi - pi) by (nonlinear_arith)
                requires
                    (qi - pi) * ai <= (qi - pi) * 255,
                    qi >= pi,
            ;
        } else {
            assert((qi - pi) * ai == -((pi - qi) * ai)) by (nonlinear_arith);
            assert((pi - qi) * ai >= 0) by (nonlinear_arith)
                requires
                    pi > qi,
                    ai >= 0,
            ;
            lemma_fixed_neg((pi - qi) * ai, 256);
            assert((pi - qi) * ai <= (pi - qi) * 255) by (nonlinear_arith)
                requires
                    pi > qi,
                    0 <= ai <= 255,
            ;
            assert(div_round((pi - qi) * ai, 255) <= pi - qi) by (nonlinear_arith)
                requires
                    (pi - qi) * ai <= (pi - qi) * 255,
                    pi > qi,
            ;
            assert(div_round((pi - qi) * ai, 255) >= 0) by (nonlinear_arith)
                requires
                    (pi - qi) * ai >= 0,
            ;
        }
    }
    (pi + (u >> 8u32)) as u8
}

/// Whether the 16-bit interpolation of `p` towards `q` by `a` stays within
/// `i32` at each step (`t = (q-p)*a + 32768 - [p > q]`, then `(t >> 16) + t`).
pub open spec fn lerp16_fits(p: u16, q: u16, a: u16) -> bool {
    let d = (q - p) * a;
    let t = d + 32768 - (if p > q {
        1int
    } else {
        0int
    });
    &&& i32::MIN <= d <= i32::MAX
    &&& i32::MIN <= t <= i32::MAX
    &&& i32::MIN <= t / 65536 + t <= i32::MAX
}

/// `p + round((q - p) * a / 65535)`, rounded symmetrically.
fn lerp16(p: u16, q: u16, a: u16) -> (r: u16)
    requires
        lerp16_fits(p, q, a),
    ensures
        r == lerp_value(p as int, q as int, a as int, 65535),
{
    let pi = p as i32;
    let qi = q as i32;
    let ai = a as i32;
    let flag: i32 = if p > q {
        1
    } else {
        0
    };
    let t: i32 = (qi - pi) * ai + 32768 - flag;
    proof {
        lemma_i32_shr(t);
    }
    let u: i32 = (t >> 16u32) + t;
    proof {
        lemma_i32_shr(u);
        if p <= q {
            assert(0 <= (qi - pi) * ai <= (qi - pi) * 65535) by (nonlinear_arith)
                requires
                    qi >= pi,
                    0 <= ai <= 65535,
            ;
            assert((qi - pi) * 65535 <= 65535 * 65535) by (nonlinear_arith)
                requires
                    0 <= qi - pi <= 65535,
            ;
            lemma_fixed_pos((qi - pi) * ai, 65536);
            assert(div_round((qi - pi) * ai, 65535) <= qi - pi) by (nonlinear_arith)
                requires
                    (qi - pi) * ai <= (qi - pi) * 65535,
                    qi >= pi,
            ;
            assert(div_round((qi - pi) * ai, 65535) >= 0) by (nonlinear_arith)
                requires
                    (qi - pi) * ai >= 0,
            ;
        } else {
            assert((qi - pi) * ai == -((pi - qi) * ai)) by (nonlinear_arith);
            assert(0 <= (pi - qi) * ai <= (pi - qi) * 65535) by (nonlinear_arith)
                requires
                    pi > qi,
                    0 <= ai <= 65535,
            ;
            assert((pi - qi) * 65535 <= 65535 * 65535) by (nonlinear_arith)
                requires
                    0 <= pi - qi <= 65535,
            ;
            lemma_fixed_neg((pi - qi) * ai, 65536);
            assert(div_round((pi - qi) * ai, 65535) <= pi - qi) by (nonlinear_arith)
                requires
                    (pi - qi) * ai <= (pi - qi) * 65535,
                    pi > qi,
            ;
            assert(div_round((pi - qi) * ai, 65535) >= 0) by (nonlinear_arith)
                requires
                    (pi - qi) * ai >= 0,
            ;
        }
    }
    (pi + (u >> 16u32)) as u16
}

/// `min(v, 255)` as a byte.
fn clamp8(v: u32) -> (r: u8)
    ensures
        r == if v > 255 {
            255
        } else {
            v
        },
{
    if v > 255 {
        255
    } else {
        v as u8
    }
}

/// `min(v, 65535)` as a 16-bit value.
fn clamp16(v: u32) -> (r: u16)
    ensures
        r == if v > 65535 {
            65535
        } else {
            v
        },
{
    if v > 65535 {
        65535
    } else {
        v as u16
    }
}

/// `min(c * m / a, m)`: the demultiplied value of component `c` under alpha `a`.
pub open spec fn demul(c: int, a: int, m: int) -> int {
    if c * m / a > m {
        m
    } else {
        c * m / a
    }
}

// ---------------------------------------------------------------------------
// Rgba8
// ---------------------------------------------------------------------------
/// RGBA colour with 8-bit components.
#[derive(Debug, Clone, Copy, PartialEq, Eq, Structural)]
pub struct Rgba8 {
    pub r: u8,
    pub g: u8,
    pub b: u8,
    pub a: u8,
}

impl Rgba8 {
    pub const BASE_SHIFT: u32 = 8;

    pub const BASE_SCALE: u32 = 256;

    pub const BASE_MASK: u32 = 255;

    pub const BASE_MSB: u32 = 128;

    /// Builds a colour from the low 8 bits of each argument.
    pub fn new(r: u32, g: u32, b: u32, a: u32) -> (c: Self)
        ensures
            c.r == r as u8 && c.g == g as u8 && c.b == b as u8 && c.a == a as u8,
            c.r == r % 256 && c.g == g % 256 && c.b == b % 256 && c.a == a % 256,
    {
        proof {
            lemma_u32_shr(r);
            lemma_u32_shr(g);
            lemma_u32_shr(b);
            lemma_u32_shr(a);
        }
        Rgba8 { r: r as u8, g: g as u8, b: b as u8, a: a as u8 }
    }

    /// An opaque colour (alpha 255).
    pub fn new_opaque(r: u32, g: u32, b: u32) -> (c: Self)
        ensures
            c.r == r % 256 && c.g == g % 256 && c.b == b % 256 && c.a == 255,
    {
        Self::new(r, g, b, Self::BASE_MASK)
    }

    /// The colour `c` with its alpha replaced by the low 8 bits of `a`.
    pub fn with_opacity(c: &Rgba8, a: u32) -> (r: Self)
        ensures
            r.r == c.r && r.g == c.g && r.b == c.b && r.a == a % 256,
    {
        proof {
            lemma_u32_shr(a);
        }
        Rgba8 { r: c.r, g: c.g, b: c.b, a: a as u8 }
    }

    pub fn empty_value() -> (v: u8)
        ensures
            v == 0,
    {
        0
    }

    pub fn full_value() -> (v: u8)
        ensures
            v == 255,
    {
        255
    }

    pub fn is_transparent(&self) -> (b: bool)
        ensures
            b == (self.a == 0),
    {
        self.a == 0
    }

    pub fn is_opaque(&self) -> (b: bool)
        ensures
            b == (self.a == 255),
    {
        self.a == 255
    }

    /// `255 - x`.
    pub fn invert(x: u8) -> (r: u8)
        ensures
            r == 255 - x,
    {
        255 - x
    }

    /// Fixed-point multiply: `round(a * b / 255)`, exact over `u8`.
    pub fn multiply(a: u8, b: u8) -> (r: u8)
        ensures
            r == div_round(a * b, 255),
    {
        multiply8(a, b)
    }

    /// Fixed-point demultiply: 0 when either operand is 0, 255 when
    /// `a >= b`, otherwise `a*255 / b` rounded (`(a*255 + b/2) / b`).
    pub fn demultiply_value(a: u8, b: u8) -> (r: u8)
        ensures
            r == if a == 0 || b == 0 {
                0
            } else if a >= b {
                255
            } else {
                (a * 255 + b / 2) / (b as int)
            },
    {
        if a == 0 || b == 0 {
            0
        } else if a >= b {
            255
        } else {
            let aa = a as u32;
            let bb = b as u32;
            proof {
                lemma_u32_shr(bb);
            }
            let v: u32 = aa * 255 + (bb >> 1u32);
            let q: u32 = v / bb;
            assert(q < 256) by (nonlinear_arith)
                requires
                    q == v / bb,
                    v == aa * 255 + bb / 2,
                    0 < aa < bb <= 255,
            ;
            q as u8
        }
    }

    /// Multiplies a colour component by a coverage value.
    pub fn mult_cover(a: u8, b: CoverType) -> (r: u8)
        ensures
            r == div_round(a * b, 255),
    {
        multiply8(a, b)
    }

    /// Scales a coverage value by a colour component.
    pub fn scale_cover(a: CoverType, b: u8) -> (r: CoverType)
        ensures
            r == div_round(b * a, 255),
    {
        multiply8(b, a)
    }

    /// Interpolates `p` towards `q` by `a`, assuming `q` is premultiplied by
    /// `a`: `p + q - p*a`, modulo 256.
    pub fn prelerp(p: u8, q: u8, a: u8) -> (r: u8)
        ensures
            r == (p + q - div_round(p * a, 255)) % 256,
    {
        let m = multiply8(p, a);
        let s = p.wrapping_add(q);
        let r = s.wrapping_sub(m);
        r
    }

    /// Interpolates `p` towards `q` by `a / 255`, rounded symmetrically.
    pub fn lerp(p: u8, q: u8, a: u8) -> (r: u8)
        ensures
            r == lerp_value(p as int, q as int, a as int, 255),
    {
        lerp8(p, q, a)
    }

    /// Every component interpolated from `self` towards `c` by `ik / 255`:
    /// the integer part of a gradient step.
    pub fn gradient_weighted(&self, c: &Rgba8, ik: u8) -> (r: Rgba8)
        ensures
            r.r == lerp_value(self.r as int, c.r as int, ik as int, 255),
            r.g == lerp_value(self.g as int, c.g as int, ik as int, 255),
            r.b == lerp_value(self.b as int, c.b as int, ik as int, 255),
            r.a == lerp_value(self.a as int, c.a as int, ik as int, 255),
    {
        Rgba8 {
            r: lerp8(self.r, c.r, ik),
            g: lerp8(self.g, c.g, ik),
            b: lerp8(self.b, c.b, ik),
            a: lerp8(self.a, c.a, ik),
        }
    }

    /// Sets all components to zero.
    pub fn clear(&mut self) -> (ret: &mut Self)
        ensures
            *ret == Rgba8::zero(),
            *final(self) == *final(ret),
    {
        self.r = 0;
        self.g = 0;
        self.b = 0;
        self.a = 0;
        self
    }

    /// Sets alpha to zero.
    pub fn transparent(&mut self) -> (ret: &mut Self)
        ensures
            *ret == (Rgba8 { a: 0, ..*old(self) }),
            *final(self) == *final(ret),
    {
        self.a = 0;
        self
    }

    /// The all-zero colour.
    pub open spec fn zero() -> Rgba8 {
        Rgba8 { r: 0, g: 0, b: 0, a: 0 }
    }

    /// Multiplies the colour components by alpha (no change when opaque,
    /// all zero when fully transparent).
    pub fn premultiply(&mut self) -> (ret: &mut Self)
        ensures
            *final(self) == *final(ret),
            old(self).a == 255 ==> *ret == *old(self),
            old(self).a == 0 ==> *ret == (Rgba8 { r: 0, g: 0, b: 0, a: 0 }),
            0 < old(self).a < 255 ==> *ret == (Rgba8 {
                r: div_round(old(self).r * old(self).a, 255) as u8,
                g: div_round(old(self).g * old(self).a, 255) as u8,
                b: div_round(old(self).b * old(self).a, 255) as u8,
                a: old(self).a,
            }),
    {
        if self.a != 255 {
            if self.a == 0 {
                self.r = 0;
                self.g = 0;
                self.b = 0;
            } else {
                self.r = multiply8(self.r, self.a);
                self.g = multiply8(self.g, self.a);
                self.b = multiply8(self.b, self.a);
            }
        }
        self
    }

    /// Rescales a premultiplied colour to alpha `a_`: each colour component
    /// becomes `min(c * a_ / alpha, a_)` and alpha becomes `a_` (low 8 bits);
    /// all zero when either alpha is 0; unchanged when the colour is opaque
    /// and `a_ >= 255`.
    pub fn premultiply_with_alpha(&mut self, a_: u32) -> (ret: &mut Self)
        requires
            255 * a_ <= u32::MAX,
        ensures
            *final(self) == *final(ret),
            (old(self).a == 255 && a_ >= 255) ==> *ret == *old(self),
            !(old(self).a == 255 && a_ >= 255) && (old(self).a == 0 || a_ == 0) ==> *ret
                == Rgba8::zero(),
            !(old(self).a == 255 && a_ >= 255) && old(self).a != 0 && a_ != 0 ==> *ret == (Rgba8 {
                r: rescale(old(self).r, a_, old(self).a),
                g: rescale(old(self).g, a_, old(self).a),
                b: rescale(old(self).b, a_, old(self).a),
                a: (a_ % 256) as u8,
            }),
    {
        if self.a as u32 != 255 || a_ < 255 {
            if self.a == 0 || a_ == 0 {
                self.r = 0;
                self.g = 0;
                self.b = 0;
                self.a = 0;
            } else {
                let sa = self.a as u32;
                self.r = rescale_exec(self.r, a_, sa);
                self.g = rescale_exec(self.g, a_, sa);
                self.b = rescale_exec(self.b, a_, sa);
                proof {
                    lemma_u32_shr(a_);
                }
                self.a = a_ as u8;
            }
        }
        self
    }

    /// Divides the colour components by alpha, saturating at 255 (no change
    /// when opaque; colour zeroed when fully transparent).
    pub fn demultiply(&mut self) -> (ret: &mut Self)
        ensures
            *final(self) == *final(ret),
            old(self).a == 255 ==> *ret == *old(self),
            old(self).a == 0 ==> *ret == (Rgba8 { r: 0, g: 0, b: 0, a: 0 }),
            0 < old(self).a < 255 ==> *ret == (Rgba8 {
                r: demul(old(self).r as int, old(self).a as int, 255) as u8,
                g: demul(old(self).g as int, old(self).a as int, 255) as u8,
                b: demul(old(self).b as int, old(self).a as int, 255) as u8,
                a: old(self).a,
            }),
    {
        if (self.a as u32) < 255 {
            if self.a == 0 {
                self.r = 0;
                self.g = 0;
                self.b = 0;
            } else {
                let a = self.a as u32;
                self.r = clamp8((self.r as u32 * 255) / a);
                self.g = clamp8((self.g as u32 * 255) / a);
                self.b = clamp8((self.b as u32 * 255) / a);
            }
        }
        self
    }

    /// Adds colour `c` with coverage `cover`, saturating each component at
    /// 255; an opaque `c` at full coverage replaces the colour.
    pub fn add(&mut self, c: &Rgba8, cover: u32)
        ensures
            cover == COVER_MASK && c.a == 255 ==> *final(self) == *c,
            cover == COVER_MASK && c.a != 255 ==> *final(self) == (Rgba8 {
                r: sat8(old(self).r + c.r),
                g: sat8(old(self).g + c.g),
                b: sat8(old(self).b + c.b),
                a: sat8(old(self).a + c.a),
            }),
            cover != COVER_MASK ==> *final(self) == (Rgba8 {
                r: sat8(old(self).r + div_round(c.r * (cover % 256), 255)),
                g: sat8(old(self).g + div_round(c.g * (cover % 256), 255)),
                b: sat8(old(self).b + div_round(c.b * (cover % 256), 255)),
                a: sat8(old(self).a + div_round(c.a * (cover % 256), 255)),
            }),
    {
        let cr: u32;
        let cg: u32;
        let cb: u32;
        let ca: u32;
        if cover == COVER_MASK {
            if c.a as u32 == 255 {
                *self = *c;
                return ;
            } else {
                cr = self.r as u32 + c.r as u32;
                cg = self.g as u32 + c.g as u32;
                cb = self.b as u32 + c.b as u32;
                ca = self.a as u32 + c.a as u32;
            }
        } else {
            proof {
                lemma_u32_shr(cover);
            }
            let cv = cover as u8;
            cr = self.r as u32 + multiply8(c.r, cv) as u32;
            cg = self.g as u32 + multiply8(c.g, cv) as u32;
            cb = self.b as u32 + multiply8(c.b, cv) as u32;
            ca = self.a as u32 + multiply8(c.a, cv) as u32;
        }
        self.r = clamp8(cr);
        self.g = clamp8(cg);
        self.b = clamp8(cb);
        self.a = clamp8(ca);
    }

    /// Applies the forward gamma table to the colour components.
    pub fn apply_gamma_dir(&mut self, gamma: &GammaLut)
        requires
            gamma.wf(),
        ensures
            final(self).r == gamma.dir_table()[old(self).r as int],
            final(self).g == gamma.dir_table()[old(self).g as int],
            final(self).b == gamma.dir_table()[old(self).b as int],
            final(self).a == old(self).a,
    {
        self.r = gamma.dir(self.r);
        self.g = gamma.dir(self.g);
        self.b = gamma.dir(self.b);
    }

    /// Applies the inverse gamma table to the colour components.
    pub fn apply_gamma_inv(&mut self, gamma: &GammaLut)
        requires
            gamma.wf(),
        ensures
            final(self).r == gamma.inv_table()[old(self).r as int],
            final(self).g == gamma.inv_table()[old(self).g as int],
            final(self).b == gamma.inv_table()[old(self).b as int],
            final(self).a == old(self).a,
    {
        self.r = gamma.inv(self.r);
        self.g = gamma.inv(self.g);
        self.b = gamma.inv(self.b);
    }

    pub fn no_color() -> (c: Self)
        ensures
            c == Rgba8::zero(),
    {
        Rgba8 { r: 0, g: 0, b: 0, a: 0 }
    }
}

impl Default for Rgba8 {
    fn default() -> (c: Self)
        ensures
            c == Rgba8::zero(),
    {
        Self::no_color()
    }
}

/// `min(v, 255)` as a byte.
pub open spec fn sat8(v: int) -> u8 {
    if v > 255 {
        255
    } else {
        v as u8
    }
}

/// `min(c * a_ / alpha, a_)` truncated to a byte.
pub open spec fn rescale(c: u8, a_: u32, alpha: u8) -> u8 {
    if c * a_ / (alpha as int) > a_ {
        (a_ % 256) as u8
    } else {
        ((c * a_ / (alpha as int)) % 256) as u8
    }
}

fn rescale_exec(c: u8, a_: u32, alpha: u32) -> (r: u8)
    requires
        0 < alpha <= 255,
        255 * a_ <= u32::MAX,
    ensures
        r == rescale(c, a_, alpha as u8),
{
    assert(c * a_ <= 255 * a_) by (nonlinear_arith)
        requires
            c <= 255,
    ;
    let v = (c as u32 * a_) / alpha;
    proof {
        lemma_u32_shr(a_);
        lemma_u32_shr(v);
    }
    if v > a_ {
        a_ as u8
    } else {
        v as u8
    }
}

/// Packs `0xRRGGBB` into an opaque colour.
pub fn rgb8_packed(v: u32) -> (c: Rgba8)
    ensures
        c.r == (v / 65536) % 256 && c.g == (v / 256) % 256 && c.b == v % 256 && c.a == 255,
{
    proof {
        lemma_u32_shr(v);
    }
    Rgba8::new((v >> 16u32) & 0xFF, (v >> 8u32) & 0xFF, v & 0xFF, 255)
}

/// Packs `0xBBGGRR` into an opaque colour.
pub fn bgr8_packed(v: u32) -> (c: Rgba8)
    ensures
        c.r == v % 256 && c.g == (v / 256) % 256 && c.b == (v / 65536) % 256 && c.a == 255,
{
    proof {
        lemma_u32_shr(v);
    }
    Rgba8::new(v & 0xFF, (v >> 8u32) & 0xFF, (v >> 16u32) & 0xFF, 255)
}

/// Packs `0xAARRGGBB` into a colour.
pub fn argb8_packed(v: u32) -> (c: Rgba8)
    ensures
        c.r == (v / 65536) % 256 && c.g == (v / 256) % 256 && c.b == v % 256 && c.a == v
            / 16777216,
{
    proof {
        lemma_u32_shr(v);
    }
    Rgba8::new((v >> 16u32) & 0xFF, (v >> 8u32) & 0xFF, v & 0xFF, v >> 24u32)
}

// ---------------------------------------------------------------------------
// Rgba16
// ---------------------------------------------------------------------------
/// RGBA colour with 16-bit components.
#[derive(Debug, Clone, Copy, PartialEq, Eq, Structural)]
pub struct Rgba16 {
    pub r: u16,
    pub g: u16,
    pub b: u16,
    pub a: u16,
}

/// An 8-bit value widened to 16 bits by repeating its byte: `v * 257`.
pub open spec fn widen(v: u8) -> u16 {
    (v * 257) as u16
}

fn widen_exec(v: u8) -> (r: u16)
    ensures
        r == widen(v),
        r == v * 257,
{
    let w = v as u16;
    proof {
        lemma_u16_bits(w);
    }
    (w << 8u16) | w
}

impl Rgba16 {
    pub const BASE_SHIFT: u32 = 16;

    pub const BASE_SCALE: u32 = 65536;

    pub const BASE_MASK: u32 = 65535;

    pub const BASE_MSB: u32 = 32768;

    /// Builds a colour from the low 16 bits of each argument.
    pub fn new(r: u32, g: u32, b: u32, a: u32) -> (c: Self)
        ensures
            c.r == r % 65536 && c.g == g % 65536 && c.b == b % 65536 && c.a == a % 65536,
    {
        proof {
            lemma_u32_shr(r);
            lemma_u32_shr(g);
            lemma_u32_shr(b);
            lemma_u32_shr(a);
        }
        Rgba16 { r: r as u16, g: g as u16, b: b as u16, a: a as u16 }
    }

    /// An opaque colour (alpha 65535).
    pub fn new_opaque(r: u32, g: u32, b: u32) -> (c: Self)
        ensures
            c.r == r % 65536 && c.g == g % 65536 && c.b == b % 65536 && c.a == 65535,
    {
        Self::new(r, g, b, Self::BASE_MASK)
    }

    /// Widens each 8-bit component to 16 bits (`v * 257`).
    pub fn from_rgba8(c: &Rgba8) -> (r: Self)
        ensures
            r.r == c.r * 257 && r.g == c.g * 257 && r.b == c.b * 257 && r.a == c.a * 257,
    {
        Rgba16 { r: widen_exec(c.r), g: widen_exec(c.g), b: widen_exec(c.b), a: widen_exec(c.a) }
    }

    /// Narrows each component to its high byte.
    pub fn to_rgba8(&self) -> (r: Rgba8)
        ensures
            r.r == self.r / 256 && r.g == self.g / 256 && r.b == self.b / 256 && r.a == self.a
                / 256,
    {
        let r = self.r;
        let g = self.g;
        let b = self.b;
        let a = self.a;
        proof {
            lemma_u16_bits(r);
            lemma_u16_bits(g);
            lemma_u16_bits(b);
            lemma_u16_bits(a);
        }
        Rgba8::new((r >> 8u16) as u32, (g >> 8u16) as u32, (b >> 8u16) as u32, (a >> 8u16) as u32)
    }

    pub fn is_transparent(&self) -> (b: bool)
        ensures
            b == (self.a == 0),
    {
        self.a == 0
    }

    pub fn is_opaque(&self) -> (b: bool)
        ensures
            b == (self.a == 65535),
    {
        self.a == 65535
    }

    /// `65535 - x`.
    pub fn invert(x: u16) -> (r: u16)
        ensures
            r == 65535 - x,
    {
        65535 - x
    }

    /// Fixed-point multiply: `round(a * b / 65535)`, exact over `u16`.
    pub fn multiply(a: u16, b: u16) -> (r: u16)
        ensures
            r == div_round(a * b, 65535),
    {
        multiply16(a, b)
    }

    /// Interpolates `p` towards `q` by `a / 65535`, rounded symmetrically.
    pub fn lerp(p: u16, q: u16, a: u16) -> (r: u16)
        requires
            lerp16_fits(p, q, a),
        ensures
            r == lerp_value(p as int, q as int, a as int, 65535),
    {
        lerp16(p, q, a)
    }

    /// Every component interpolated from `self` towards `c` by `ik / 65535`:
    /// the integer part of a gradient step.
    pub fn gradient_weighted(&self, c: &Rgba16, ik: u16) -> (r: Rgba16)
        requires
            lerp16_fits(self.r, c.r, ik),
            lerp16_fits(self.g, c.g, ik),
            lerp16_fits(self.b, c.b, ik),
            lerp16_fits(self.a, c.a, ik),
        ensures
            r.r == lerp_value(self.r as int, c.r as int, ik as int, 65535),
            r.g == lerp_value(self.g as int, c.g as int, ik as int, 65535),
            r.b == lerp_value(self.b as int, c.b as int, ik as int, 65535),
            r.a == lerp_value(self.a as int, c.a as int, ik as int, 65535),
    {
        Rgba16 {
            r: lerp16(self.r, c.r, ik),
            g: lerp16(self.g, c.g, ik),
            b: lerp16(self.b, c.b, ik),
            a: lerp16(self.a, c.a, ik),
        }
    }

    /// Multiplies a component by an 8-bit coverage widened to 16 bits.
    pub fn mult_cover(a: u16, b: CoverType) -> (r: u16)
        ensures
            r == div_round(a * (b * 257), 65535),
    {
        multiply16(a, widen_exec(b))
    }

    /// Sets all components to zero.
    pub fn clear(&mut self) -> (ret: &mut Self)
        ensures
            *ret == (Rgba16 { r: 0, g: 0, b: 0, a: 0 }),
            *final(self) == *final(ret),
    {
        self.r = 0;
        self.g = 0;
        self.b = 0;
        self.a = 0;
        self
    }

    /// Multiplies the colour components by alpha.
    pub fn premultiply(&mut self) -> (ret: &mut Self)
        ensures
            *final(self) == *final(ret),
            old(self).a == 65535 ==> *ret == *old(self),
            old(self).a == 0 ==> *ret == (Rgba16 { r: 0, g: 0, b: 0, a: 0 }),
            0 < old(self).a < 65535 ==> *ret == (Rgba16 {
                r: div_round(old(self).r * old(self).a, 65535) as u16,
                g: div_round(old(self).g * old(self).a, 65535) as u16,
                b: div_round(old(self).b * old(self).a, 65535) as u16,
                a: old(self).a,
            }),
    {
        if self.a as u32 != 65535 {
            if self.a == 0 {
                self.r = 0;
                self.g = 0;
                self.b = 0;
            } else {
                self.r = multiply16(self.r, self.a);
                self.g = multiply16(self.g, self.a);
                self.b = multiply16(self.b, self.a);
            }
        }
        self
    }

    /// Divides the colour components by alpha, saturating at 65535.
    pub fn demultiply(&mut self) -> (ret: &mut Self)
        ensures
            *final(self) == *final(ret),
            old(self).a == 65535 ==> *ret == *old(self),
            old(self).a == 0 ==> *ret == (Rgba16 { r: 0, g: 0, b: 0, a: 0 }),
            0 < old(self).a < 65535 ==> *ret == (Rgba16 {
                r: demul(old(self).r as int, old(self).a as int, 65535) as u16,
                g: demul(old(self).g as int, old(self).a as int, 65535) as u16,
                b: demul(old(self).b as int, old(self).a as int, 65535) as u16,
                a: old(self).a,
            }),
    {
        if (self.a as u32) < 65535 {
            if self.a == 0 {
                self.r = 0;
                self.g = 0;
                self.b = 0;
            } else {
                let a = self.a as u32;
                assert(self.r * 65535 <= 65535 * 65535 && self.g * 65535 <= 65535 * 65535
                    && self.b * 65535 <= 65535 * 65535) by (nonlinear_arith)
                    requires
                        self.r <= 65535,
                        self.g <= 65535,
                        self.b <= 65535,
                ;
                self.r = clamp16((self.r as u32 * 65535) / a);
                self.g = clamp16((self.g as u32 * 65535) / a);
                self.b = clamp16((self.b as u32 * 65535) / a);
            }
        }
        self
    }

    pub fn no_color() -> (c: Self)
        ensures
            c == (Rgba16 { r: 0, g: 0, b: 0, a: 0 }),
    {
        Rgba16 { r: 0, g: 0, b: 0, a: 0 }
    }
}

impl Default for Rgba16 {
    fn default() -> (c: Self)
        ensures
            c == (Rgba16 { r: 0, g: 0, b: 0, a: 0 }),
    {
        Self::no_color()
    }
}

// ---------------------------------------------------------------------------
// Gray8
// ---------------------------------------------------------------------------
/// Grayscale colour with 8-bit value and alpha.
#[derive(Debug, Clone, Copy, PartialEq, Eq, Structural)]
pub struct Gray8 {
    pub v: u8,
    pub a: u8,
}

impl Gray8 {
    pub const BASE_SHIFT: u32 = 8;

    pub const BASE_SCALE: u32 = 256;

    pub const BASE_MASK: u32 = 255;

    pub const BASE_MSB: u32 = 128;

    pub fn new(v: u32, a: u32) -> (c: Self)
        ensures
            c.v == v % 256 && c.a == a % 256,
    {
        proof {
            lemma_u32_shr(v);
            lemma_u32_shr(a);
        }
        Gray8 { v: v as u8, a: a as u8 }
    }

    pub fn new_opaque(v: u32) -> (c: Self)
        ensures
            c.v == v % 256 && c.a == 255,
    {
        Self::new(v, Self::BASE_MASK)
    }

    /// Integer BT.709 luminance: `(55 r + 184 g + 18 b) / 256`.
    pub fn luminance_from_rgba8(c: &Rgba8) -> (l: u8)
        ensures
            l == (55 * c.r + 184 * c.g + 18 * c.b) / 256,
    {
        let s: u32 = 55u32 * c.r as u32 + 184u32 * c.g as u32 + 18u32 * c.b as u32;
        proof {
            lemma_u32_shr(s);
        }
        (s >> 8u32) as u8
    }

    pub fn from_rgba8(c: &Rgba8) -> (g: Self)
        ensures
            g.v == (55 * c.r + 184 * c.g + 18 * c.b) / 256 && g.a == c.a,
    {
        Gray8 { v: Self::luminance_from_rgba8(c), a: c.a }
    }

    pub fn is_transparent(&self) -> (b: bool)
        ensures
            b == (self.a == 0),
    {
        self.a == 0
    }

    pub fn is_opaque(&self) -> (b: bool)
        ensures
            b == (self.a == 255),
    {
        self.a == 255
    }

    /// Fixed-point multiply: `round(a * b / 255)`.
    pub fn multiply(a: u8, b: u8) -> (r: u8)
        ensures
            r == div_round(a * b, 255),
    {
        multiply8(a, b)
    }

    /// Interpolates `p` towards `q` by `a / 255`.
    pub fn lerp(p: u8, q: u8, a: u8) -> (r: u8)
        ensures
            r == lerp_value(p as int, q as int, a as int, 255),
    {
        lerp8(p, q, a)
    }

    /// Value and alpha interpolated from `self` towards `c` by `ik / 255`:
    /// the integer part of a gradient step.
    pub fn gradient_weighted(&self, c: &Gray8, ik: u8) -> (r: Gray8)
        ensures
            r.v == lerp_value(self.v as int, c.v as int, ik as int, 255),
            r.a == lerp_value(self.a as int, c.a as int, ik as int, 255),
    {
        Gray8 { v: lerp8(self.v, c.v, ik), a: lerp8(self.a, c.a, ik) }
    }

    pub fn mult_cover(a: u8, b: CoverType) -> (r: u8)
        ensures
            r == div_round(a * b, 255),
    {
        multiply8(a, b)
    }

    pub fn clear(&mut self) -> (ret: &mut Self)
        ensures
            *ret == (Gray8 { v: 0, a: 0 }),
            *final(self) == *final(ret),
    {
        self.v = 0;
        self.a = 0;
        self
    }

    /// Multiplies the value by alpha.
    pub fn premultiply(&mut self) -> (ret: &mut Self)
        ensures
            *final(self) == *final(ret),
            old(self).a == 255 ==> *ret == *old(self),
            old(self).a == 0 ==> *ret == (Gray8 { v: 0, a: 0 }),
            0 < old(self).a < 255 ==> *ret == (Gray8 {
                v: div_round(old(self).v * old(self).a, 255) as u8,
                a: old(self).a,
            }),
    {
        if (self.a as u32) < 255 {
            if self.a == 0 {
                self.v = 0;
            } else {
                self.v = multiply8(self.v, self.a);
            }
        }
        self
    }

    /// Divides the value by alpha, saturating at 255.
    pub fn demultiply(&mut self) -> (ret: &mut Self)
        ensures
            *final(self) == *final(ret),
            old(self).a == 255 ==> *ret == *old(self),
            old(self).a == 0 ==> *ret == (Gray8 { v: 0, a: 0 }),
            0 < old(self).a < 255 ==> *ret == (Gray8 {
                v: demul(old(self).v as int, old(self).a as int, 255) as u8,
                a: old(self).a,
            }),
    {
        if (self.a as u32) < 255 {
            if self.a == 0 {
                self.v = 0;
            } else {
                self.v = clamp8((self.v as u32 * 255) / self.a as u32);
            }
        }
        self
    }

    pub fn no_color() -> (c: Self)
        ensures
            c == (Gray8 { v: 0, a: 0 }),
    {
        Gray8 { v: 0, a: 0 }
    }
}

impl Default for Gray8 {
    fn default() -> (c: Self)
        ensures
            c == (Gray8 { v: 0, a: 0 }),
    {
        Self::no_color()
    }
}

// ---------------------------------------------------------------------------
// Gray16
// ---------------------------------------------------------------------------
/// Grayscale colour with 16-bit value and alpha.
#[derive(Debug, Clone, Copy, PartialEq, Eq, Structural)]
pub struct Gray16 {
    pub v: u16,
    pub a: u16,
}

impl Gray16 {
    pub const BASE_SHIFT: u32 = 16;

    pub const BASE_SCALE: u32 = 65536;

    pub const BASE_MASK: u32 = 65535;

    pub const BASE_MSB: u32 = 32768;

    pub fn new(v: u32, a: u32) -> (c: Self)
        ensures
            c.v == v % 65536 && c.a == a % 65536,
    {
        proof {
            lemma_u32_shr(v);
            lemma_u32_shr(a);
        }
        Gray16 { v: v as u16, a: a as u16 }
    }

    pub fn new_opaque(v: u32) -> (c: Self)
        ensures
            c.v == v % 65536 && c.a == 65535,
    {
        Self::new(v, Self::BASE_MASK)
    }

    /// Integer BT.709 luminance: `(13933 r + 46872 g + 4732 b) / 65536`.
    pub fn luminance_from_rgba16(c: &Rgba16) -> (l: u16)
        ensures
            l == (13933 * c.r + 46872 * c.g + 4732 * c.b) / 65536,
    {
        let s: u32 = 13933u32 * c.r as u32 + 46872u32 * c.g as u32 + 4732u32 * c.b as u32;
        proof {
            lemma_u32_shr(s);
        }
        (s >> 16u32) as u16
    }

    pub fn from_rgba8(c: &Rgba8) -> (g: Self)
        ensures
            g.v == (13933 * (c.r * 257) + 46872 * (c.g * 257) + 4732 * (c.b * 257)) / 65536,
            g.a == c.a * 257,
    {
        Self::from_rgba16(&Rgba16::from_rgba8(c))
    }

    pub fn from_rgba16(c: &Rgba16) -> (g: Self)
        ensures
            g.v == (13933 * c.r + 46872 * c.g + 4732 * c.b) / 65536 && g.a == c.a,
    {
        Gray16 { v: Self::luminance_from_rgba16(c), a: c.a }
    }

    /// Widens both channels to 16 bits (`v * 257`).
    pub fn from_gray8(c: &Gray8) -> (g: Self)
        ensures
            g.v == c.v * 257 && g.a == c.a * 257,
    {
        Gray16 { v: widen_exec(c.v), a: widen_exec(c.a) }
    }

    pub fn is_transparent(&self) -> (b: bool)
        ensures
            b == (self.a == 0),
    {
        self.a == 0
    }

    pub fn is_opaque(&self) -> (b: bool)
        ensures
            b == (self.a == 65535),
    {
        self.a == 65535
    }

    /// Fixed-point multiply: `round(a * b / 65535)`.
    pub fn multiply(a: u16, b: u16) -> (r: u16)
        ensures
            r == div_round(a * b, 65535),
    {
        multiply16(a, b)
    }

    /// Interpolates `p` towards `q` by `a / 65535`.
    pub fn lerp(p: u16, q: u16, a: u16) -> (r: u16)
        requires
            lerp16_fits(p, q, a),
        ensures
            r == lerp_value(p as int, q as int, a as int, 65535),
    {
        lerp16(p, q, a)
    }

    /// Value and alpha interpolated from `self` towards `c` by `ik / 65535`:
    /// the integer part of a gradient step.
    pub fn gradient_weighted(&self, c: &Gray16, ik: u16) -> (r: Gray16)
        requires
            lerp16_fits(self.v, c.v, ik),
            lerp16_fits(self.a, c.a, ik),
        ensures
            r.v == lerp_value(self.v as int, c.v as int, ik as int, 65535),
            r.a == lerp_value(self.a as int, c.a as int, ik as int, 65535),
    {
        Gray16 { v: lerp16(self.v, c.v, ik), a: lerp16(self.a, c.a, ik) }
    }

    pub fn clear(&mut self) -> (ret: &mut Self)
        ensures
            *ret == (Gray16 { v: 0, a: 0 }),
            *final(self) == *final(ret),
    {
        self.v = 0;
        self.a = 0;
        self
    }

    /// Multiplies the value by alpha.
    pub fn premultiply(&mut self) -> (ret: &mut Self)
        ensures
            *final(self) == *final(ret),
            old(self).a == 65535 ==> *ret == *old(self),
            old(self).a == 0 ==> *ret == (Gray16 { v: 0, a: 0 }),
            0 < old(self).a < 65535 ==> *ret == (Gray16 {
                v: div_round(old(self).v * old(self).a, 65535) as u16,
                a: old(self).a,
            }),
    {
        if (self.a as u32) < 65535 {
            if self.a == 0 {
                self.v = 0;
            } else {
                self.v = multiply16(self.v, self.a);
            }
        }
        self
    }

    /// Divides the value by alpha, saturating at 65535.
    pub fn demultiply(&mut self) -> (ret: &mut Self)
        ensures
            *final(self) == *final(ret),
            old(self).a == 65535 ==> *ret == *old(self),
            old(self).a == 0 ==> *ret == (Gray16 { v: 0, a: 0 }),
            0 < old(self).a < 65535 ==> *ret == (Gray16 {
                v: demul(old(self).v as int, old(self).a as int, 65535) as u16,
                a: old(self).a,
            }),
    {
        if (self.a as u32) < 65535 {
            if self.a == 0 {
                self.v = 0;
            } else {
                assert(self.v * 65535 <= 65535 * 65535) by (nonlinear_arith)
                    requires
                        self.v <= 65535,
                ;
                self.v = clamp16((self.v as u32 * 65535) / self.a as u32);
            }
        }
        self
    }

    pub fn no_color() -> (c: Self)
        ensures
            c == (Gray16 { v: 0, a: 0 }),
    {
        Gray16 { v: 0, a: 0 }
    }
}

impl Default for Gray16 {
    fn default() -> (c: Self)
        ensures
            c == (Gray16 { v: 0, a: 0 }),
    {
        Self::no_color()
    }
}

} // verus!
