//! DDA line interpolators: fixed-point stepping, Bresenham-style remainder
//! tracking, and the subpixel Bresenham line walker built on it.
use vstd::arithmetic::power2::pow2;
use vstd::prelude::*;

verus! {

/// Integer division rounding toward zero (the semantics of `/` on `i32`).
pub open spec fn trunc_div(a: int, b: int) -> int {
    if a >= 0 {
        a / b
    } else {
        -((-a) / b)
    }
}

/// The remainder of `trunc_div` (the semantics of `%` on `i32`).
pub open spec fn trunc_rem(a: int, b: int) -> int {
    if a >= 0 {
        a % b
    } else {
        -((-a) % b)
    }
}

/// `|trunc_div(a, b)| <= |a|`.
proof fn lemma_trunc_div_bound(a: int, b: int)
    requires
        b != 0,
    ensures
        -abs_int(a) <= trunc_div(a, b) <= abs_int(a),
        b == 1 ==> trunc_div(a, b) == a,
        b == -1 ==> trunc_div(a, b) == -a,
        abs_int(b) >= 2 ==> -abs_int(a) <= 2 * trunc_div(a, b) <= abs_int(a),
{
    let x = if a >= 0 {
        a
    } else {
        -a
    };
    let q = x / b;
    let r = x % b;
    vstd::arithmetic::div_mod::lemma_fundamental_div_mod(x, b);
    assert(0 <= r < abs_int(b));
    assert(-x <= q <= x) by (nonlinear_arith)
        requires
            x >= 0,
            b != 0,
            x == b * q + r,
            0 <= r,
            r < abs_int(b),
    ;
    assert(abs_int(b) >= 2 ==> -x <= 2 * q <= x) by (nonlinear_arith)
        requires
            x >= 0,
            b != 0,
            x == b * q + r,
            0 <= r,
            r < abs_int(b),
    ;
    if b == 1 {
        assert(x == q + r && r == 0);
    }
    if b == -1 {
        assert(abs_int(b) == 1);
        assert(r == 0);
        assert(x == b * q);
        assert(b * q == -q) by (nonlinear_arith)
            requires
                b == -1,
        ;
    }
    assert(0 <= r < abs_int(b));
}

pub open spec fn abs_int(a: int) -> int {
    if a < 0 {
        -a
    } else {
        a
    }
}

proof fn lemma_i32_shr_is_floor(x: i32, s: u32)
    requires
        s < 32,
    ensures
        (x >> s) as int == x as int / (pow2(s as nat) as int),
{
    vstd::arithmetic::power2::lemma_pow2_pos(s as nat);
    if x >= 0 {
        let ux = x as u32;
        assert(ux == x);
        assert((x >> s) as int == (ux >> s) as int) by (bit_vector)
            requires
                x >= 0,
                ux == x,
                s < 32,
        ;
        vstd::bits::lemma_u32_shr_is_div(ux, s);
    } else {
        // -x - 1 is non-negative, and x >> s == !((!x) >> s)
        let nx = (!x) as u32;
        assert(nx == -x - 1 && (x >> s) as int == -((nx >> s) as int) - 1) by (bit_vector)
            requires
                x < 0,
                nx == (!x) as u32,
                s < 32,
        ;
        vstd::bits::lemma_u32_shr_is_div(nx, s);
        let p = pow2(s as nat) as int;
        let q = (nx as int) / p;
        let r = (nx as int) % p;
        assert(nx as int == p * q + r && 0 <= r < p) by (nonlinear_arith)
            requires
                p > 0,
                q == (nx as int) / p,
                r == (nx as int) % p,
        ;
        assert(x as int == p * (-q - 1) + (p - 1 - r)) by (nonlinear_arith)
            requires
                nx as int == p * q + r,
                nx == -x - 1,
        ;
        assert(x as int == (-q - 1) * p + (p - 1 - r)) by (nonlinear_arith)
            requires
                x as int == p * (-q - 1) + (p - 1 - r),
        ;
        vstd::arithmetic::div_mod::lemma_fundamental_div_mod_converse(
            x as int,
            p,
            -q - 1,
            p - 1 - r,
        );
    }
}

// ---------------------------------------------------------------------------
// DdaLineInterpolator
// ---------------------------------------------------------------------------
/// Fixed-point DDA line interpolator: the position is `y + (dy >> (F - Y))`
/// where `dy` accumulates a per-step increment with `F` fractional bits.
pub struct DdaLineInterpolator<const FRACTION_SHIFT: u32, const Y_SHIFT: u32> {
    y: i32,
    inc: i32,
    dy: i32,
}

impl<const FRACTION_SHIFT: u32, const Y_SHIFT: u32> DdaLineInterpolator<FRACTION_SHIFT, Y_SHIFT> {
    /// The start value.
    pub closed spec fn start(&self) -> i32 {
        self.y
    }

    /// The per-step increment, with `FRACTION_SHIFT` fractional bits.
    pub closed spec fn step(&self) -> i32 {
        self.inc
    }

    /// The accumulated offset, with `FRACTION_SHIFT` fractional bits.
    pub closed spec fn acc(&self) -> i32 {
        self.dy
    }

    /// The interpolated value `start + (acc >> (FRACTION_SHIFT - Y_SHIFT))`.
    pub open spec fn value(&self) -> int {
        self.start() + self.acc() as int / pow2((FRACTION_SHIFT - Y_SHIFT) as nat) as int
    }

    /// Starts at `y1` with a step of `((y2 - y1) << FRACTION_SHIFT) / count`
    /// (shift wrapping in 32 bits, division rounding toward zero).
    pub fn new(y1: i32, y2: i32, count: u32) -> (r: Self)
        requires
            FRACTION_SHIFT < 32,
            i32::MIN <= y2 - y1 <= i32::MAX,
            count as i32 != 0,
            !((((y2 - y1) as i32) << FRACTION_SHIFT) == i32::MIN && count as i32 == -1),
        ensures
            r.start() == y1,
            r.acc() == 0,
            r.step() == trunc_div(
                (((y2 - y1) as i32) << FRACTION_SHIFT) as int,
                count as i32 as int,
            ),
            (y2 - y1) * pow2(FRACTION_SHIFT as nat) <= i32::MAX && (y2 - y1) * pow2(
                FRACTION_SHIFT as nat,
            ) >= i32::MIN && count <= i32::MAX ==> r.step() == trunc_div(
                (y2 - y1) * pow2(FRACTION_SHIFT as nat),
                count as int,
            ),
    {
        let d: i32 = y2 - y1;
        let sh: i32 = d << FRACTION_SHIFT;
        let c: i32 = count as i32;
        proof {
            if d * pow2(FRACTION_SHIFT as nat) <= i32::MAX && d * pow2(FRACTION_SHIFT as nat)
                >= i32::MIN {
                lemma_i32_shl_fits(d, FRACTION_SHIFT);
            }
        }
        proof {
            lemma_trunc_div_bound(sh as int, c as int);
        }
        let q = sh / c;
        DdaLineInterpolator { y: y1, inc: q, dy: 0 }
    }

    /// Steps forward once: `acc += step`.
    pub fn inc(&mut self)
        requires
            i32::MIN <= old(self).acc() + old(self).step() <= i32::MAX,
        ensures
            final(self).acc() == old(self).acc() + old(self).step(),
            final(self).step() == old(self).step(),
            final(self).start() == old(self).start(),
    {
        self.dy = self.dy + self.inc;
    }

    /// Steps backward once: `acc -= step`.
    pub fn dec(&mut self)
        requires
            i32::MIN <= old(self).acc() - old(self).step() <= i32::MAX,
        ensures
            final(self).acc() == old(self).acc() - old(self).step(),
            final(self).step() == old(self).step(),
            final(self).start() == old(self).start(),
    {
        self.dy = self.dy - self.inc;
    }

    /// Steps forward `n` times at once: `acc += step * n`.
    pub fn inc_by(&mut self, n: u32)
        requires
            n <= i32::MAX,
            i32::MIN <= old(self).step() * n <= i32::MAX,
            i32::MIN <= old(self).acc() + old(self).step() * n <= i32::MAX,
        ensures
            final(self).acc() == old(self).acc() + old(self).step() * n,
            final(self).step() == old(self).step(),
            final(self).start() == old(self).start(),
    {
        self.dy = self.dy + self.inc * (n as i32);
    }

    /// Steps backward `n` times at once: `acc -= step * n`.
    pub fn dec_by(&mut self, n: u32)
        requires
            n <= i32::MAX,
            i32::MIN <= old(self).step() * n <= i32::MAX,
            i32::MIN <= old(self).acc() - old(self).step() * n <= i32::MAX,
        ensures
            final(self).acc() == old(self).acc() - old(self).step() * n,
            final(self).step() == old(self).step(),
            final(self).start() == old(self).start(),
    {
        self.dy = self.dy - self.inc * (n as i32);
    }

    /// The current value: `start + (acc >> (FRACTION_SHIFT - Y_SHIFT))`.
    pub fn y(&self) -> (r: i32)
        requires
            Y_SHIFT <= FRACTION_SHIFT < 32,
            i32::MIN <= self.value() <= i32::MAX,
        ensures
            r == self.value(),
    {
        proof {
            lemma_i32_shr_is_floor(self.dy, (FRACTION_SHIFT - Y_SHIFT) as u32);
        }
        self.y + (self.dy >> (FRACTION_SHIFT - Y_SHIFT))
    }

    /// The accumulated offset.
    pub fn dy(&self) -> (r: i32)
        ensures
            r == self.acc(),
    {
        self.dy
    }
}

pub proof fn lemma_i32_shl_fits(d: i32, s: u32)
    requires
        s < 32,
        i32::MIN <= d * pow2(s as nat) <= i32::MAX,
    ensures
        (d << s) as int == d * pow2(s as nat),
    decreases s,
{
    vstd::arithmetic::power2::lemma_pow2_pos(s as nat);
    if s == 0 {
        assert(d << 0u32 == d) by (bit_vector);
        vstd::arithmetic::power2::lemma2_to64();
    } else {
        let t: u32 = (s - 1) as u32;
        vstd::arithmetic::power2::lemma_pow2_unfold(s as nat);
        assert(pow2(s as nat) == 2 * pow2(t as nat));
        let h = d * pow2(t as nat);
        assert(d * pow2(s as nat) == 2 * h) by (nonlinear_arith)
            requires
                pow2(s as nat) == 2 * pow2(t as nat),
                h == d * pow2(t as nat),
        ;
        lemma_i32_shl_fits(d, t);
        let dt = d << t;
        assert(d << s == dt << 1u32) by (bit_vector)
            requires
                s == t + 1,
                s < 32,
                dt == d << t,
        ;
        assert(i32::MIN <= 2 * dt <= i32::MAX);
        assert(dt << 1u32 == dt * 2) by (bit_vector)
            requires
                i32::MIN <= 2 * dt <= i32::MAX,
        ;
    }
}

// ---------------------------------------------------------------------------
// Dda2LineInterpolator
// ---------------------------------------------------------------------------
/// Integer line interpolator distributing the remainder of `(y2 - y1) / count`
/// evenly over the steps (Bresenham-style).
#[derive(Debug, Clone)]
pub struct Dda2LineInterpolator {
    cnt: i32,
    lft: i32,
    rem: i32,
    mod_val: i32,
    y: i32,
}

/// The step count actually divided by: `count`, or 1 when `count <= 0`.
pub open spec fn dda2_cnt(count: i32) -> int {
    if count <= 0 {
        1
    } else {
        count as int
    }
}

/// Whether constructing an interpolator over a delta `d` and `count` stays
/// within `i32`.
pub open spec fn dda2_new_ok(d: int, count: i32) -> bool {
    &&& i32::MIN <= d <= i32::MAX
    &&& (trunc_rem(d, dda2_cnt(count)) <= 0 ==> trunc_div(d, dda2_cnt(count)) - 1 >= i32::MIN)
}

/// The whole part of the per-step delta after making the remainder positive.
pub open spec fn dda2_lft(d: int, count: i32) -> int {
    if trunc_rem(d, dda2_cnt(count)) <= 0 {
        trunc_div(d, dda2_cnt(count)) - 1
    } else {
        trunc_div(d, dda2_cnt(count))
    }
}

/// The remainder of the per-step delta, made positive.
pub open spec fn dda2_rem(d: int, count: i32) -> int {
    if trunc_rem(d, dda2_cnt(count)) <= 0 {
        trunc_rem(d, dda2_cnt(count)) + count
    } else {
        trunc_rem(d, dda2_cnt(count))
    }
}

impl Dda2LineInterpolator {
    pub closed spec fn count_spec(&self) -> i32 {
        self.cnt
    }

    pub closed spec fn lft_spec(&self) -> i32 {
        self.lft
    }

    pub closed spec fn rem_spec(&self) -> i32 {
        self.rem
    }

    pub closed spec fn mod_spec(&self) -> i32 {
        self.mod_val
    }

    pub closed spec fn y_spec(&self) -> i32 {
        self.y
    }

    /// An interpolator with the given fields.
    pub closed spec fn with_fields(cnt: i32, lft: i32, rem: i32, md: i32, y: i32) -> Self {
        Dda2LineInterpolator { cnt, lft, rem, mod_val: md, y }
    }

    /// The fields of an interpolator built with `with_fields` are the given
    /// ones.
    pub broadcast proof fn lemma_with_fields(cnt: i32, lft: i32, rem: i32, md: i32, y: i32)
        ensures
            #[trigger] Self::with_fields(cnt, lft, rem, md, y).count_spec() == cnt,
            Self::with_fields(cnt, lft, rem, md, y).lft_spec() == lft,
            Self::with_fields(cnt, lft, rem, md, y).rem_spec() == rem,
            Self::with_fields(cnt, lft, rem, md, y).mod_spec() == md,
            Self::with_fields(cnt, lft, rem, md, y).y_spec() == y,
    {
    }

    /// Loading a saved phase restores the value and the remainder counter
    /// that were saved, whatever steps came between, and keeps the step
    /// sizes.
    pub proof fn lemma_load_restores_save(
        saved: Self,
        before_load: Self,
        after_load: Self,
        data: [i32; 2],
    )
        requires
            data@ == seq![saved.mod_spec(), saved.y_spec()],
            after_load == Self::with_fields(
                before_load.count_spec(),
                before_load.lft_spec(),
                before_load.rem_spec(),
                data@[0],
                data@[1],
            ),
        ensures
            after_load.y_spec() == saved.y_spec(),
            after_load.mod_spec() == saved.mod_spec(),
            after_load.count_spec() == before_load.count_spec(),
            after_load.lft_spec() == before_load.lft_spec(),
            after_load.rem_spec() == before_load.rem_spec(),
    {
        Self::lemma_with_fields(
            before_load.count_spec(),
            before_load.lft_spec(),
            before_load.rem_spec(),
            data@[0],
            data@[1],
        );
    }

    /// Whether one forward step stays within `i32`.
    pub open spec fn inc_ok(&self) -> bool {
        let m = self.mod_spec() + self.rem_spec();
        &&& i32::MIN <= m <= i32::MAX
        &&& i32::MIN <= self.y_spec() + self.lft_spec() <= i32::MAX
        &&& m > 0 ==> i32::MIN <= m - self.count_spec() <= i32::MAX && self.y_spec()
            + self.lft_spec() + 1 <= i32::MAX
    }

    /// The state after one forward step: `mod += rem; y += lft`, then a carry
    /// of one when `mod` becomes positive.
    pub open spec fn stepped(&self) -> Self {
        let m = self.mod_spec() + self.rem_spec();
        let y = self.y_spec() + self.lft_spec();
        if m > 0 {
            Self::with_fields(
                self.count_spec(),
                self.lft_spec(),
                self.rem_spec(),
                (m - self.count_spec()) as i32,
                (y + 1) as i32,
            )
        } else {
            Self::with_fields(
                self.count_spec(),
                self.lft_spec(),
                self.rem_spec(),
                m as i32,
                y as i32,
            )
        }
    }

    /// The state after `k` forward steps.
    pub open spec fn stepped_n(&self, k: nat) -> Self
        decreases k,
    {
        if k == 0 {
            *self
        } else {
            self.stepped_n((k - 1) as nat).stepped()
        }
    }

    /// The state that `new_forward(y1, y2, count)` builds.
    pub open spec fn forward_spec(y1: i32, y2: i32, count: i32) -> Self {
        let d = y2 - y1;
        Self::with_fields(
            dda2_cnt(count) as i32,
            dda2_lft(d, count) as i32,
            dda2_rem(d, count) as i32,
            (dda2_rem(d, count) - count) as i32,
            y1,
        )
    }

    /// A line from `y1` to `y2` over `count` steps, adjusted so that the
    /// value reaches `y2` exactly after `count` steps.
    pub fn new_forward(y1: i32, y2: i32, count: i32) -> (r: Self)
        requires
            dda2_new_ok(y2 - y1, count),
        ensures
            r == Self::forward_spec(y1, y2, count),
    {
        let (cnt, lft, rem, md) = Self::split(y2 - y1, count);
        Dda2LineInterpolator { cnt, lft, rem, mod_val: md - count, y: y1 }
    }

    /// A line from `y1` to `y2` over `count` steps, with the remainder
    /// counter starting one period later than `new_forward`.
    pub fn new_backward(y1: i32, y2: i32, count: i32) -> (r: Self)
        requires
            dda2_new_ok(y2 - y1, count),
        ensures
            r == Self::with_fields(
                dda2_cnt(count) as i32,
                dda2_lft(y2 - y1, count) as i32,
                dda2_rem(y2 - y1, count) as i32,
                dda2_rem(y2 - y1, count) as i32,
                y1,
            ),
    {
        let (cnt, lft, rem, md) = Self::split(y2 - y1, count);
        Dda2LineInterpolator { cnt, lft, rem, mod_val: md, y: y1 }
    }

    /// A relative delta `y` spread over `count` steps, starting from 0.
    pub fn new_relative(y: i32, count: i32) -> (r: Self)
        requires
            dda2_new_ok(y as int, count),
        ensures
            r == Self::with_fields(
                dda2_cnt(count) as i32,
                dda2_lft(y as int, count) as i32,
                dda2_rem(y as int, count) as i32,
                dda2_rem(y as int, count) as i32,
                0,
            ),
    {
        let (cnt, lft, rem, md) = Self::split(y, count);
        Dda2LineInterpolator { cnt, lft, rem, mod_val: md, y: 0 }
    }

    /// `(cnt, lft, rem, mod)` for a delta `d` over `count` steps, with the
    /// remainder made positive.
    fn split(d: i32, count: i32) -> (r: (i32, i32, i32, i32))
        requires
            dda2_new_ok(d as int, count),
        ensures
            r.0 == dda2_cnt(count),
            r.1 == dda2_lft(d as int, count),
            r.2 == dda2_rem(d as int, count),
            r.3 == dda2_rem(d as int, count),
            count > 0 ==> 0 < r.2 <= count,
            count <= 0 ==> r.2 == count && r.3 - count == 0,
    {
        let cnt: i32 = if count <= 0 {
            1
        } else {
            count
        };
        proof {
            lemma_trunc_div_bound(d as int, cnt as int);
            lemma_trunc_rem_bound(d as int, cnt as int);
        }
        let mut lft = d / cnt;
        let mut rem = d % cnt;
        let mut mod_val = rem;
        if mod_val <= 0 {
            mod_val = mod_val + count;
            rem = rem + count;
            lft = lft - 1;
        }
        (cnt, lft, rem, mod_val)
    }

    /// Saves the phase: `[mod, y]`.
    pub fn save(&self) -> (r: [i32; 2])
        ensures
            r@ == seq![self.mod_spec(), self.y_spec()],
    {
        [self.mod_val, self.y]
    }

    /// Restores a phase saved by `save`.
    pub fn load(&mut self, data: &[i32; 2])
        ensures
            *final(self) == Self::with_fields(
                old(self).count_spec(),
                old(self).lft_spec(),
                old(self).rem_spec(),
                data@[0],
                data@[1],
            ),
    {
        self.mod_val = data[0];
        self.y = data[1];
    }

    /// One forward step.
    pub fn inc(&mut self)
        requires
            old(self).inc_ok(),
        ensures
            *final(self) == old(self).stepped(),
    {
        self.mod_val = self.mod_val + self.rem;
        self.y = self.y + self.lft;
        if self.mod_val > 0 {
            self.mod_val = self.mod_val - self.cnt;
            self.y = self.y + 1;
        }
    }

    /// One backward step: a borrow of one when `mod <= rem`, then
    /// `mod -= rem; y -= lft`.
    pub fn dec(&mut self)
        requires
            old(self).mod_spec() <= old(self).rem_spec() ==> i32::MIN <= old(self).mod_spec()
                + old(self).count_spec() - old(self).rem_spec() <= i32::MAX && i32::MIN <= old(
            self).y_spec() - 1 - old(self).lft_spec() <= i32::MAX,
            old(self).mod_spec() > old(self).rem_spec() ==> i32::MIN <= old(self).mod_spec() - old(
            self).rem_spec() <= i32::MAX && i32::MIN <= old(self).y_spec() - old(self).lft_spec()
                <= i32::MAX,
            i32::MIN <= old(self).mod_spec() + old(self).count_spec() <= i32::MAX,
            i32::MIN <= old(self).y_spec() - 1,
        ensures
            old(self).mod_spec() <= old(self).rem_spec() ==> *final(self) == Self::with_fields(
                old(self).count_spec(),
                old(self).lft_spec(),
                old(self).rem_spec(),
                (old(self).mod_spec() + old(self).count_spec() - old(self).rem_spec()) as i32,
                (old(self).y_spec() - 1 - old(self).lft_spec()) as i32,
            ),
            old(self).mod_spec() > old(self).rem_spec() ==> *final(self) == Self::with_fields(
                old(self).count_spec(),
                old(self).lft_spec(),
                old(self).rem_spec(),
                (old(self).mod_spec() - old(self).rem_spec()) as i32,
                (old(self).y_spec() - old(self).lft_spec()) as i32,
            ),
    {
        if self.mod_val <= self.rem {
            self.mod_val = self.mod_val + self.cnt;
            self.y = self.y - 1;
        }
        self.mod_val = self.mod_val - self.rem;
        self.y = self.y - self.lft;
    }

    /// Shifts the phase one period back: `mod -= cnt`.
    pub fn adjust_forward(&mut self)
        requires
            i32::MIN <= old(self).mod_spec() - old(self).count_spec() <= i32::MAX,
        ensures
            *final(self) == Self::with_fields(
                old(self).count_spec(),
                old(self).lft_spec(),
                old(self).rem_spec(),
                (old(self).mod_spec() - old(self).count_spec()) as i32,
                old(self).y_spec(),
            ),
    {
        self.mod_val = self.mod_val - self.cnt;
    }

    /// Shifts the phase one period forward: `mod += cnt`.
    pub fn adjust_backward(&mut self)
        requires
            i32::MIN <= old(self).mod_spec() + old(self).count_spec() <= i32::MAX,
        ensures
            *final(self) == Self::with_fields(
                old(self).count_spec(),
                old(self).lft_spec(),
                old(self).rem_spec(),
                (old(self).mod_spec() + old(self).count_spec()) as i32,
                old(self).y_spec(),
            ),
    {
        self.mod_val = self.mod_val + self.cnt;
    }

    pub fn mod_val(&self) -> (r: i32)
        ensures
            r == self.mod_spec(),
    {
        self.mod_val
    }

    pub fn rem(&self) -> (r: i32)
        ensures
            r == self.rem_spec(),
    {
        self.rem
    }

    pub fn lft(&self) -> (r: i32)
        ensures
            r == self.lft_spec(),
    {
        self.lft
    }

    pub fn y(&self) -> (r: i32)
        ensures
            r == self.y_spec(),
    {
        self.y
    }
}

// ---------------------------------------------------------------------------
// LineBresenhamInterpolator
// ---------------------------------------------------------------------------
pub const SUBPIXEL_SHIFT: i32 = 8;

pub const SUBPIXEL_SCALE: i32 = 256;

pub const SUBPIXEL_MASK: i32 = 255;

/// Subpixel to pixel coordinate: `v >> 8`, i.e. `floor(v / 256)`.
pub fn line_lr(v: i32) -> (r: i32)
    ensures
        r == v as int / 256,
{
    assert(v >> 8u32 == v / 256) by (bit_vector);
    v >> 8u32
}

/// Bresenham line walker over subpixel endpoints (8 fractional bits): it
/// steps one pixel along the major axis and interpolates the minor axis.
pub struct LineBresenhamInterpolator {
    x1_lr: i32,
    y1_lr: i32,
    x2_lr: i32,
    y2_lr: i32,
    ver: bool,
    len: u32,
    inc: i32,
    interpolator: Dda2LineInterpolator,
}

pub open spec fn abs_i(a: int) -> int {
    if a < 0 {
        -a
    } else {
        a
    }
}

/// Whether the line's pixel extent in y exceeds that in x.
pub open spec fn line_ver(x1: i32, y1: i32, x2: i32, y2: i32) -> bool {
    abs_i(x2 / 256 - x1 / 256) < abs_i(y2 / 256 - y1 / 256)
}

/// The pixel extent along the major axis.
pub open spec fn line_len(x1: i32, y1: i32, x2: i32, y2: i32) -> int {
    if line_ver(x1, y1, x2, y2) {
        abs_i(y2 / 256 - y1 / 256)
    } else {
        abs_i(x2 / 256 - x1 / 256)
    }
}

/// The direction along the major axis.
pub open spec fn line_inc(x1: i32, y1: i32, x2: i32, y2: i32) -> int {
    if line_ver(x1, y1, x2, y2) {
        if y2 > y1 {
            1
        } else {
            -1
        }
    } else if x2 > x1 {
        1
    } else {
        -1
    }
}

/// Walking a line: `len` steps of `inc` along the major axis go from the
/// start pixel to the end pixel, and over those steps the minor-axis
/// interpolator goes from the start to exactly the end subpixel coordinate,
/// each step staying within `i32`.
pub proof fn lemma_line_walk_reaches_end(x1: i32, y1: i32, x2: i32, y2: i32)
    requires
        i32::MIN < x1 && i32::MIN < y1 && i32::MIN < x2 && i32::MIN < y2,
        i32::MIN < x2 - x1 <= i32::MAX,
        i32::MIN < y2 - y1 <= i32::MAX,
    ensures
        line_ver(x1, y1, x2, y2) ==> y1 / 256 + line_len(x1, y1, x2, y2) * line_inc(x1, y1, x2, y2)
            == y2 / 256,
        !line_ver(x1, y1, x2, y2) ==> x1 / 256 + line_len(x1, y1, x2, y2) * line_inc(
            x1,
            y1,
            x2,
            y2,
        ) == x2 / 256,
        line_len(x1, y1, x2, y2) > 0 && line_ver(x1, y1, x2, y2) ==> Dda2LineInterpolator::forward_spec(
            x1,
            x2,
            line_len(x1, y1, x2, y2) as i32,
        ).stepped_n(line_len(x1, y1, x2, y2) as nat).y_spec() == x2,
        line_len(x1, y1, x2, y2) > 0 && !line_ver(x1, y1, x2, y2) ==> Dda2LineInterpolator::forward_spec(
            y1,
            y2,
            line_len(x1, y1, x2, y2) as i32,
        ).stepped_n(line_len(x1, y1, x2, y2) as nat).y_spec() == y2,
{
    let len = line_len(x1, y1, x2, y2);
    assert(len <= 16777216);
    if y1 <= y2 {
        vstd::arithmetic::div_mod::lemma_div_is_ordered(y1 as int, y2 as int, 256);
    } else {
        vstd::arithmetic::div_mod::lemma_div_is_ordered(y2 as int, y1 as int, 256);
    }
    if x1 <= x2 {
        vstd::arithmetic::div_mod::lemma_div_is_ordered(x1 as int, x2 as int, 256);
    } else {
        vstd::arithmetic::div_mod::lemma_div_is_ordered(x2 as int, x1 as int, 256);
    }
    if len > 0 {
        lemma_trunc_div_bound(x2 - x1, len);
        lemma_trunc_div_bound(y2 - y1, len);
        if line_ver(x1, y1, x2, y2) {
            lemma_forward_reaches_end(x1, x2, len as i32);
        } else {
            lemma_forward_reaches_end(y1, y2, len as i32);
        }
    }
}

impl LineBresenhamInterpolator {
    pub closed spec fn x1_spec(&self) -> i32 {
        self.x1_lr
    }

    pub closed spec fn y1_spec(&self) -> i32 {
        self.y1_lr
    }

    pub closed spec fn x2_lr_spec(&self) -> i32 {
        self.x2_lr
    }

    pub closed spec fn y2_lr_spec(&self) -> i32 {
        self.y2_lr
    }

    pub closed spec fn ver_spec(&self) -> bool {
        self.ver
    }

    pub closed spec fn len_spec(&self) -> u32 {
        self.len
    }

    pub closed spec fn inc_spec(&self) -> i32 {
        self.inc
    }

    /// The interpolator of the minor axis (in subpixels).
    pub closed spec fn interp(&self) -> Dda2LineInterpolator {
        self.interpolator
    }

    /// A line from `(x1, y1)` to `(x2, y2)` in subpixel coordinates: the
    /// major axis is vertical when the pixel extent in y exceeds that in x;
    /// `len` is the pixel extent along it and `inc` its direction; the minor
    /// axis is interpolated forward in subpixels over `len` steps.
    pub fn new(x1: i32, y1: i32, x2: i32, y2: i32) -> (r: Self)
        requires
            i32::MIN < x2 - x1 <= i32::MAX,
            i32::MIN < y2 - y1 <= i32::MAX,
        ensures
            r.x1_spec() == x1 / 256 && r.y1_spec() == y1 / 256,
            r.x2_lr_spec() == x2 / 256 && r.y2_lr_spec() == y2 / 256,
            r.ver_spec() == line_ver(x1, y1, x2, y2),
            r.len_spec() == line_len(x1, y1, x2, y2),
            r.inc_spec() == line_inc(x1, y1, x2, y2),
            r.interp() == if r.ver_spec() {
                Dda2LineInterpolator::forward_spec(x1, x2, r.len_spec() as i32)
            } else {
                Dda2LineInterpolator::forward_spec(y1, y2, r.len_spec() as i32)
            },
    {
        let x1_lr = line_lr(x1);
        let y1_lr = line_lr(y1);
        let x2_lr = line_lr(x2);
        let y2_lr = line_lr(y2);
        let dx = x2_lr - x1_lr;
        let dy = y2_lr - y1_lr;
        let adx: u32 = if dx < 0 {
            (-dx) as u32
        } else {
            dx as u32
        };
        let ady: u32 = if dy < 0 {
            (-dy) as u32
        } else {
            dy as u32
        };
        let ver = adx < ady;
        let len = if ver {
            ady
        } else {
            adx
        };
        let inc: i32 = if ver {
            if y2 > y1 {
                1
            } else {
                -1
            }
        } else if x2 > x1 {
            1
        } else {
            -1
        };
        proof {
            lemma_trunc_div_bound(x2 - x1, dda2_cnt(len as i32));
            lemma_trunc_div_bound(y2 - y1, dda2_cnt(len as i32));
        }
        let interpolator = Dda2LineInterpolator::new_forward(
            if ver {
                x1
            } else {
                y1
            },
            if ver {
                x2
            } else {
                y2
            },
            len as i32,
        );
        LineBresenhamInterpolator { x1_lr, y1_lr, x2_lr, y2_lr, ver, len, inc, interpolator }
    }

    /// Whether the major axis is vertical.
    pub fn is_ver(&self) -> (b: bool)
        ensures
            b == self.ver_spec(),
    {
        self.ver
    }

    /// The number of pixel steps along the major axis.
    pub fn len(&self) -> (r: u32)
        ensures
            r == self.len_spec(),
    {
        self.len
    }

    /// The direction along the major axis (+1 or -1).
    pub fn inc(&self) -> (r: i32)
        ensures
            r == self.inc_spec(),
    {
        self.inc
    }

    /// One step along a horizontal major axis.
    pub fn hstep(&mut self)
        requires
            old(self).interp().inc_ok(),
            i32::MIN <= old(self).x1_spec() + old(self).inc_spec() <= i32::MAX,
        ensures
            final(self).interp() == old(self).interp().stepped(),
            final(self).x1_spec() == old(self).x1_spec() + old(self).inc_spec(),
            final(self).y1_spec() == old(self).y1_spec(),
            final(self).ver_spec() == old(self).ver_spec(),
            final(self).len_spec() == old(self).len_spec(),
            final(self).inc_spec() == old(self).inc_spec(),
    {
        self.interpolator.inc();
        self.x1_lr = self.x1_lr + self.inc;
    }

    /// One step along a vertical major axis.
    pub fn vstep(&mut self)
        requires
            old(self).interp().inc_ok(),
            i32::MIN <= old(self).y1_spec() + old(self).inc_spec() <= i32::MAX,
        ensures
            final(self).interp() == old(self).interp().stepped(),
            final(self).y1_spec() == old(self).y1_spec() + old(self).inc_spec(),
            final(self).x1_spec() == old(self).x1_spec(),
            final(self).ver_spec() == old(self).ver_spec(),
            final(self).len_spec() == old(self).len_spec(),
            final(self).inc_spec() == old(self).inc_spec(),
    {
        self.interpolator.inc();
        self.y1_lr = self.y1_lr + self.inc;
    }

    /// The current x in pixels.
    pub fn x1(&self) -> (r: i32)
        ensures
            r == self.x1_spec(),
    {
        self.x1_lr
    }

    /// The current y in pixels.
    pub fn y1(&self) -> (r: i32)
        ensures
            r == self.y1_spec(),
    {
        self.y1_lr
    }

    /// The current minor-axis value in pixels.
    pub fn x2(&self) -> (r: i32)
        ensures
            r == self.interp().y_spec() / 256,
    {
        line_lr(self.interpolator.y())
    }

    /// The current minor-axis value in pixels.
    pub fn y2(&self) -> (r: i32)
        ensures
            r == self.interp().y_spec() / 256,
    {
        line_lr(self.interpolator.y())
    }

    /// The current minor-axis value in subpixels.
    pub fn x2_hr(&self) -> (r: i32)
        ensures
            r == self.interp().y_spec(),
    {
        self.interpolator.y()
    }

    /// The current minor-axis value in subpixels.
    pub fn y2_hr(&self) -> (r: i32)
        ensures
            r == self.interp().y_spec(),
    {
        self.interpolator.y()
    }
}

pub open spec fn min_i(a: int, b: int) -> int {
    if a <= b {
        a
    } else {
        b
    }
}

pub open spec fn max_i(a: int, b: int) -> int {
    if a >= b {
        a
    } else {
        b
    }
}

/// The invariant of a forward interpolation after `k` of its `cnt` steps.
spec fn forward_inv(s: Dda2LineInterpolator, y1: int, y2: int, cnt: int, k: int) -> bool {
    let d = y2 - y1;
    let md0 = s.rem_spec() - cnt;
    &&& s.count_spec() == cnt
    &&& s.lft_spec() * cnt + s.rem_spec() == d
    &&& 0 < s.rem_spec() <= cnt
    &&& -cnt < s.mod_spec() <= 0
    &&& s.y_spec() * cnt + s.mod_spec() == y1 * cnt + md0 + k * d
    &&& min_i(y1, y2) <= s.y_spec() <= max_i(y1, y2)
}

proof fn lemma_forward_step(s: Dda2LineInterpolator, y1: int, y2: int, cnt: int, k: int)
    requires
        0 <= k < cnt,
        forward_inv(s, y1, y2, cnt, k),
        i32::MIN <= y1 <= i32::MAX,
        i32::MIN < y2 <= i32::MAX,
    ensures
        s.inc_ok(),
        forward_inv(s.stepped(), y1, y2, cnt, k + 1),
        s.stepped().lft_spec() == s.lft_spec(),
        s.stepped().rem_spec() == s.rem_spec(),
{
    let d = y2 - y1;
    let md0 = s.rem_spec() - cnt;
    let m = s.mod_spec() + s.rem_spec();
    let carry: int = if m > 0 {
        1
    } else {
        0
    };
    let md1 = m - carry * cnt;
    let y1v = s.y_spec() + s.lft_spec() + carry;
    if d > 0 {
        assert(s.lft_spec() >= 0) by (nonlinear_arith)
            requires
                s.lft_spec() * cnt + s.rem_spec() == d,
                0 < s.rem_spec() <= cnt,
                cnt > 0,
                d > 0,
        ;
    }
    assert(y1v * cnt + md1 == s.y_spec() * cnt + s.mod_spec() + d) by (nonlinear_arith)
        requires
            y1v == s.y_spec() + s.lft_spec() + carry,
            md1 == s.mod_spec() + s.rem_spec() - carry * cnt,
            s.lft_spec() * cnt + s.rem_spec() == d,
    ;
    assert(-cnt < md1 <= 0);
    let x = y1v - y1;
    assert(x * cnt == md0 - md1 + (k + 1) * d) by (nonlinear_arith)
        requires
            y1v * cnt + md1 == s.y_spec() * cnt + s.mod_spec() + d,
            s.y_spec() * cnt + s.mod_spec() == y1 * cnt + md0 + k * d,
            x == y1v - y1,
    ;
    if d >= 0 {
        assert(0 <= (k + 1) * d <= cnt * d) by (nonlinear_arith)
            requires
                0 <= k + 1 <= cnt,
                d >= 0,
        ;
        assert(0 <= x <= d) by (nonlinear_arith)
            requires
                x * cnt == md0 - md1 + (k + 1) * d,
                0 <= (k + 1) * d <= cnt * d,
                -cnt < md0 <= 0,
                -cnt < md1 <= 0,
                cnt > 0,
        ;
    } else {
        assert(cnt * d <= (k + 1) * d <= 0) by (nonlinear_arith)
            requires
                0 <= k + 1 <= cnt,
                d < 0,
        ;
        assert(d <= x <= 0) by (nonlinear_arith)
            requires
                x * cnt == md0 - md1 + (k + 1) * d,
                cnt * d <= (k + 1) * d <= 0,
                -cnt < md0 <= 0,
                -cnt < md1 <= 0,
                cnt > 0,
        ;
    }
    let t = s.stepped();
    assert(t.y_spec() == y1v);
    assert(t.mod_spec() == md1);
    assert(t.count_spec() == cnt);
    assert(t.lft_spec() * cnt + t.rem_spec() == d);
    assert(0 < t.rem_spec() <= cnt);
    assert(-cnt < t.mod_spec() <= 0);
    assert(t.y_spec() * cnt + t.mod_spec() == y1 * cnt + md0 + (k + 1) * d) by (nonlinear_arith)
        requires
            x * cnt == md0 - md1 + (k + 1) * d,
            x == y1v - y1,
            t.y_spec() == y1v,
            t.mod_spec() == md1,
    ;
    assert(min_i(y1, y2) <= t.y_spec() <= max_i(y1, y2));
}

proof fn lemma_forward_prefix(y1: i32, y2: i32, count: i32, k: nat)
    requires
        count > 0,
        k <= count,
        dda2_new_ok(y2 - y1, count),
        i32::MIN < y2,
    ensures
        forward_inv(
            Dda2LineInterpolator::forward_spec(y1, y2, count).stepped_n(k),
            y1 as int,
            y2 as int,
            count as int,
            k as int,
        ),
        k < count ==> Dda2LineInterpolator::forward_spec(y1, y2, count).stepped_n(k).inc_ok(),
    decreases k,
{
    let s0 = Dda2LineInterpolator::forward_spec(y1, y2, count);
    if k == 0 {
        let d = y2 - y1;
        lemma_trunc_rem_bound(d, count as int);
        let td = trunc_div(d, count as int);
        let tr = trunc_rem(d, count as int);
        assert(d == count * td + tr);
        if tr <= 0 {
            assert((td - 1) * count + (tr + count) == d) by (nonlinear_arith)
                requires
                    d == count * td + tr,
            ;
        } else {
            assert(td * count + tr == d) by (nonlinear_arith)
                requires
                    d == count * td + tr,
            ;
        }
        assert(s0.y_spec() * count + s0.mod_spec() == y1 * count + (s0.rem_spec() - count) + 0 * d)
            by (nonlinear_arith)
            requires
                s0.y_spec() == y1,
                s0.mod_spec() == s0.rem_spec() - count,
        ;
    } else {
        lemma_forward_prefix(y1, y2, count, (k - 1) as nat);
        lemma_forward_step(
            s0.stepped_n((k - 1) as nat),
            y1 as int,
            y2 as int,
            count as int,
            k - 1,
        );
    }
    if k < count {
        lemma_forward_step(s0.stepped_n(k), y1 as int, y2 as int, count as int, k as int);
    }
}

/// A forward interpolation from `y1` to `y2 > i32::MIN` over `count > 0`
/// steps never
/// leaves the range between `y1` and `y2`, keeps its remainder counter in
/// `-count < mod <= 0`, each of its first `count` steps stays within
/// `i32`, and after exactly `count` steps its value is `y2`.
pub proof fn lemma_forward_reaches_end(y1: i32, y2: i32, count: i32)
    requires
        count > 0,
        dda2_new_ok(y2 - y1, count),
        i32::MIN < y2,
    ensures
        forall|k: nat|
            k < count ==> (#[trigger] Dda2LineInterpolator::forward_spec(y1, y2, count).stepped_n(
                k,
            )).inc_ok(),
        forall|k: nat|
            k <= count ==> min_i(y1 as int, y2 as int) <= (
            #[trigger] Dda2LineInterpolator::forward_spec(y1, y2, count).stepped_n(k)).y_spec()
                <= max_i(y1 as int, y2 as int),
        forall|k: nat|
            k <= count ==> -count < (#[trigger] Dda2LineInterpolator::forward_spec(
                y1,
                y2,
                count,
            ).stepped_n(k)).mod_spec() <= 0,
        Dda2LineInterpolator::forward_spec(y1, y2, count).stepped_n(count as nat).y_spec() == y2,
{
    assert forall|k: nat| k <= count implies -count < (#[trigger] Dda2LineInterpolator::forward_spec(
        y1,
        y2,
        count,
    ).stepped_n(k)).mod_spec() <= 0 by {
        lemma_forward_prefix(y1, y2, count, k);
    }
    assert forall|k: nat| k < count implies (#[trigger] Dda2LineInterpolator::forward_spec(
        y1,
        y2,
        count,
    ).stepped_n(k)).inc_ok() by {
        lemma_forward_prefix(y1, y2, count, k);
    }
    assert forall|k: nat| k <= count implies min_i(y1 as int, y2 as int) <= (
    #[trigger] Dda2LineInterpolator::forward_spec(y1, y2, count).stepped_n(k)).y_spec() <= max_i(
        y1 as int,
        y2 as int,
    ) by {
        lemma_forward_prefix(y1, y2, count, k);
    }
    lemma_forward_prefix(y1, y2, count, count as nat);
    let s = Dda2LineInterpolator::forward_spec(y1, y2, count).stepped_n(count as nat);
    let d = y2 - y1;
    let md0 = s.rem_spec() - count;
    let x = s.y_spec() - y1 - d;
    assert(x * count == md0 - s.mod_spec()) by (nonlinear_arith)
        requires
            s.y_spec() * count + s.mod_spec() == y1 * count + md0 + count * d,
            x == s.y_spec() - y1 - d,
    ;
    assert(x == 0) by (nonlinear_arith)
        requires
            x * count == md0 - s.mod_spec(),
            -count < md0 <= 0,
            -count < s.mod_spec() <= 0,
            count > 0,
    ;
}

/// The remainder of `trunc_div` is smaller in magnitude than the divisor and
/// has the sign of the dividend.
proof fn lemma_trunc_rem_bound(a: int, b: int)
    requires
        b > 0,
    ensures
        a >= 0 ==> 0 <= trunc_rem(a, b) < b,
        a < 0 ==> -b < trunc_rem(a, b) <= 0,
        a == b * trunc_div(a, b) + trunc_rem(a, b),
{
    if a >= 0 {
        vstd::arithmetic::div_mod::lemma_fundamental_div_mod(a, b);
    } else {
        vstd::arithmetic::div_mod::lemma_fundamental_div_mod(-a, b);
        assert(a == b * (-((-a) / b)) + (-((-a) % b))) by (nonlinear_arith)
            requires
                -a == b * ((-a) / b) + (-a) % b,
        ;
    }
}

} // verus!
