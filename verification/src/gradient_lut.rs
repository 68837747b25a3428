//! Colour functions for gradients: a two-colour linear ramp and the
//! fixed-point colour interpolator that gradient tables are built with.
use crate::color::Rgba8;
use crate::dda_line::DdaLineInterpolator;
use crate::fixed_point::{lemma_sign_casts, lerp_value};
use vstd::prelude::*;

verus! {

/// A palette of known size, indexed by position.
pub trait ColorFunction {
    type Color;

    /// The number of colours that verified code may read; a palette that
    /// does not state it offers none.
    open spec fn count(&self) -> nat {
        0
    }

    fn size(&self) -> usize;

    fn get(&self, index: usize) -> Self::Color
        requires
            index < self.count(),
    ;
}

/// A channel value reduced to a byte the way the interpolator does:
/// its low eight bits.
pub open spec fn low_byte(v: int) -> u8 {
    (v % 256) as u8
}

/// Interpolates an RGBA colour with one 14-bit fixed-point DDA per channel.
pub struct ColorInterpolatorRgba8 {
    r: DdaLineInterpolator<14, 0>,
    g: DdaLineInterpolator<14, 0>,
    b: DdaLineInterpolator<14, 0>,
    a: DdaLineInterpolator<14, 0>,
}

/// One channel's interpolator can step once more.
pub open spec fn channel_can_step(d: DdaLineInterpolator<14, 0>) -> bool {
    i32::MIN <= d.acc() + d.step() <= i32::MAX
}

/// One channel's interpolator started at `y1` aiming at `y2` over `len` steps.
pub open spec fn channel_start(d: DdaLineInterpolator<14, 0>, y1: u8, y2: u8, len: u32) -> bool {
    &&& d.start() == y1
    &&& d.acc() == 0
    &&& d.step() == crate::dda_line::trunc_div((y2 - y1) * 16384, (len as i32) as int)
}

/// One channel's value as a byte: the low byte of `start + floor(acc / 2^14)`.
pub open spec fn channel_byte(d: DdaLineInterpolator<14, 0>) -> u8 {
    low_byte(d.start() + d.acc() as int / 16384)
}

/// One interpolator step on a channel.
pub open spec fn channel_stepped(
    d0: DdaLineInterpolator<14, 0>,
    d1: DdaLineInterpolator<14, 0>,
) -> bool {
    d1.start() == d0.start() && d1.step() == d0.step() && d1.acc() == d0.acc() + d0.step()
}

impl ColorInterpolatorRgba8 {
    pub closed spec fn red(&self) -> DdaLineInterpolator<14, 0> {
        self.r
    }

    pub closed spec fn green(&self) -> DdaLineInterpolator<14, 0> {
        self.g
    }

    pub closed spec fn blue(&self) -> DdaLineInterpolator<14, 0> {
        self.b
    }

    pub closed spec fn alpha(&self) -> DdaLineInterpolator<14, 0> {
        self.a
    }

    /// Every channel can step once more.
    pub open spec fn can_step(&self) -> bool {
        &&& channel_can_step(self.red())
        &&& channel_can_step(self.green())
        &&& channel_can_step(self.blue())
        &&& channel_can_step(self.alpha())
    }

    /// Interpolates from `c1` towards `c2` in `len` steps.
    pub fn new(c1: &Rgba8, c2: &Rgba8, len: u32) -> (ci: Self)
        requires
            len > 0,
        ensures
            channel_start(ci.red(), c1.r, c2.r, len),
            channel_start(ci.green(), c1.g, c2.g, len),
            channel_start(ci.blue(), c1.b, c2.b, len),
            channel_start(ci.alpha(), c1.a, c2.a, len),
    {
        proof {
            lemma_sign_casts(0, len);
            vstd::arithmetic::power2::lemma2_to64();
            lemma_channel_shift(c1.r, c2.r);
            lemma_channel_shift(c1.g, c2.g);
            lemma_channel_shift(c1.b, c2.b);
            lemma_channel_shift(c1.a, c2.a);
        }
        ColorInterpolatorRgba8 {
            r: DdaLineInterpolator::new(c1.r as i32, c2.r as i32, len),
            g: DdaLineInterpolator::new(c1.g as i32, c2.g as i32, len),
            b: DdaLineInterpolator::new(c1.b as i32, c2.b as i32, len),
            a: DdaLineInterpolator::new(c1.a as i32, c2.a as i32, len),
        }
    }

    /// One step towards the end colour.
    pub fn inc(&mut self)
        requires
            old(self).can_step(),
        ensures
            channel_stepped(old(self).red(), final(self).red()),
            channel_stepped(old(self).green(), final(self).green()),
            channel_stepped(old(self).blue(), final(self).blue()),
            channel_stepped(old(self).alpha(), final(self).alpha()),
    {
        self.r.inc();
        self.g.inc();
        self.b.inc();
        self.a.inc();
    }

    /// The current colour.
    pub fn color(&self) -> (c: Rgba8)
        requires
            i32::MIN <= self.red().value() <= i32::MAX,
            i32::MIN <= self.green().value() <= i32::MAX,
            i32::MIN <= self.blue().value() <= i32::MAX,
            i32::MIN <= self.alpha().value() <= i32::MAX,
        ensures
            c.r == channel_byte(self.red()),
            c.g == channel_byte(self.green()),
            c.b == channel_byte(self.blue()),
            c.a == channel_byte(self.alpha()),
    {
        let r = self.r.y();
        let g = self.g.y();
        let b = self.b.y();
        let a = self.a.y();
        proof {
            lemma_low_byte_of_u32(r);
            lemma_low_byte_of_u32(g);
            lemma_low_byte_of_u32(b);
            lemma_low_byte_of_u32(a);
            vstd::arithmetic::power2::lemma2_to64();
        }
        Rgba8::new(r as u32, g as u32, b as u32, a as u32)
    }
}

/// A channel difference shifted to 14 fractional bits is exact.
proof fn lemma_channel_shift(c1: u8, c2: u8)
    ensures
        (((c2 - c1) as i32) << 14u32) as int == (c2 - c1) * 16384,
{
    vstd::arithmetic::power2::lemma2_to64();
    crate::dda_line::lemma_i32_shl_fits((c2 - c1) as i32, 14);
}

/// Reinterpreting an `i32` as `u32` keeps its value modulo 256.
proof fn lemma_low_byte_of_u32(v: i32)
    ensures
        (v as u32) as int % 256 == (v as int) % 256,
{
    lemma_sign_casts(v, 0);
    if v < 0 {
        vstd::arithmetic::div_mod::lemma_mod_multiples_vanish(16777216, v as int, 256);
    }
}

/// A linear ramp between two colours over `size` entries.
pub struct GradientLinearColor {
    c1: Rgba8,
    c2: Rgba8,
    size: usize,
}

impl GradientLinearColor {
    pub closed spec fn c1_spec(&self) -> Rgba8 {
        self.c1
    }

    pub closed spec fn c2_spec(&self) -> Rgba8 {
        self.c2
    }

    pub closed spec fn size_spec(&self) -> usize {
        self.size
    }

    pub fn new(c1: Rgba8, c2: Rgba8, size: usize) -> (g: Self)
        ensures
            g.c1_spec() == c1,
            g.c2_spec() == c2,
            g.size_spec() == size,
    {
        GradientLinearColor { c1, c2, size }
    }

    /// Replaces both end colours.
    pub fn colors(&mut self, c1: Rgba8, c2: Rgba8)
        ensures
            final(self).c1_spec() == c1,
            final(self).c2_spec() == c2,
            final(self).size_spec() == old(self).size_spec(),
    {
        self.c1 = c1;
        self.c2 = c2;
    }

    pub fn size(&self) -> (s: usize)
        ensures
            s == self.size_spec(),
    {
        self.size
    }

    /// The ramp's colour at weight `ik / 255` from the first colour.
    pub fn gradient_color(&self, ik: u8) -> (c: Rgba8)
        ensures
            c.r == lerp_value(self.c1_spec().r as int, self.c2_spec().r as int, ik as int, 255),
            c.g == lerp_value(self.c1_spec().g as int, self.c2_spec().g as int, ik as int, 255),
            c.b == lerp_value(self.c1_spec().b as int, self.c2_spec().b as int, ik as int, 255),
            c.a == lerp_value(self.c1_spec().a as int, self.c2_spec().a as int, ik as int, 255),
    {
        self.c1.gradient_weighted(&self.c2, ik)
    }
}


/// The per-step increment of a channel ramp from `y1` to `y2` sized `len`,
/// with 14 fractional bits: `(y2 - y1) * 2^14 / len` rounded toward zero.
pub open spec fn ramp_step(y1: u8, y2: u8, len: nat) -> int {
    crate::dda_line::trunc_div((y2 - y1) * 16384, len as int)
}

/// Entry `k` of a channel ramp: `y1 + floor(k * step / 2^14)`.
pub open spec fn ramp_channel(y1: u8, y2: u8, len: nat, k: int) -> int {
    y1 + (k * ramp_step(y1, y2, len)) / 16384
}

/// Entry `k` of the colour ramp from `c1` towards `c2` sized `len`.
pub open spec fn ramp_color(c1: Rgba8, c2: Rgba8, len: nat, k: int) -> Rgba8 {
    Rgba8 {
        r: ramp_channel(c1.r, c2.r, len, k) as u8,
        g: ramp_channel(c1.g, c2.g, len, k) as u8,
        b: ramp_channel(c1.b, c2.b, len, k) as u8,
        a: ramp_channel(c1.a, c2.a, len, k) as u8,
    }
}

/// The size of the ramp between stops at `start` and `end`: one less than
/// the number of entries, and at least 1, so that the last entry reaches
/// the end colour when the size divides the colour differences.
pub open spec fn segment_len(start: int, end: int) -> nat {
    if end - start >= 2 {
        (end - start - 1) as nat
    } else {
        1
    }
}

/// `lut` is the table of the stops `stops` (positions ascending): the first
/// colour before the first stop, the ramp of each pair of neighbouring
/// stops between them, the last colour from the last stop on.
pub open spec fn built_from(lut: Seq<Rgba8>, stops: Seq<(usize, Rgba8)>) -> bool {
    let n = stops.len() as int;
    &&& forall|j: int| 0 <= j < stops[0].0 && j < lut.len() ==> lut[j] == stops[0].1
    &&& forall|i: int, j: int|
        #![trigger stops[i], lut[j]]
        1 <= i < n && stops[i - 1].0 <= j < stops[i].0 && j < lut.len() ==> lut[j] == ramp_color(
            stops[i - 1].1,
            stops[i].1,
            segment_len(stops[i - 1].0 as int, stops[i].0 as int),
            j - stops[i - 1].0,
        )
    &&& forall|j: int| stops[n - 1].0 <= j < lut.len() ==> lut[j] == stops[n - 1].1
}

/// Stop positions ascend and fit the interpolator's step count (`i32`).
/// A position may lie past the table's end: the table then holds only the
/// part of the ramps that falls inside it.
pub open spec fn stops_valid(stops: Seq<(usize, Rgba8)>) -> bool {
    &&& forall|i: int, j: int| 0 <= i <= j < stops.len() ==> stops[i].0 <= stops[j].0
    &&& forall|i: int| 0 <= i < stops.len() ==> stops[i].0 <= i32::MAX
}

/// `|trunc(a / b)| * b <= |a|` for `b > 0`, with the sign of `a`.
proof fn lemma_trunc_div_scaled(a: int, b: int)
    requires
        b > 0,
    ensures
        a >= 0 ==> 0 <= crate::dda_line::trunc_div(a, b) * b <= a,
        a < 0 ==> a <= crate::dda_line::trunc_div(a, b) * b <= 0,
{
    let x: int = if a >= 0 {
        a
    } else {
        -a
    };
    let q = x / b;
    vstd::arithmetic::div_mod::lemma_fundamental_div_mod(x, b);
    assert(0 <= q * b <= x) by (nonlinear_arith)
        requires
            x >= 0,
            b > 0,
            x == b * q + x % b,
            0 <= x % b < b,
    ;
    if a < 0 {
        assert(crate::dda_line::trunc_div(a, b) == -q);
        assert((-q) * b == -(q * b)) by (nonlinear_arith);
    }
}

/// A channel ramp stays within its two end values up to step `len`, and its
/// accumulated offset stays small up to step `len + 1`.
proof fn lemma_ramp_bounds(y1: u8, y2: u8, len: nat, k: int)
    requires
        len >= 1,
        0 <= k <= len + 1,
    ensures
        -2 * 255 * 16384 <= k * ramp_step(y1, y2, len) <= 2 * 255 * 16384,
        k <= len ==> 0 <= ramp_channel(y1, y2, len, k) <= 255,
{
    let d: int = y2 - y1;
    let st = ramp_step(y1, y2, len);
    lemma_trunc_div_scaled(d * 16384, len as int);
    if d >= 0 {
        assert(0 <= st) by (nonlinear_arith)
            requires
                0 <= st * len,
                len >= 1,
        ;
        assert(0 <= k * st <= st * len + st) by (nonlinear_arith)
            requires
                0 <= k <= len + 1,
                st >= 0,
        ;
        assert(st <= d * 16384) by (nonlinear_arith)
            requires
                st * len <= d * 16384,
                len >= 1,
                st >= 0,
        ;
        if k <= len {
            assert(k * st <= st * len) by (nonlinear_arith)
                requires
                    0 <= k <= len,
                    st >= 0,
            ;
            vstd::arithmetic::div_mod::lemma_div_is_ordered(k * st, d * 16384, 16384);
            vstd::arithmetic::div_mod::lemma_div_is_ordered(0, k * st, 16384);
            assert((d * 16384) / 16384 == d);
        }
    } else {
        assert(st <= 0) by (nonlinear_arith)
            requires
                st * len <= 0,
                len >= 1,
        ;
        assert(st * len + st <= k * st <= 0) by (nonlinear_arith)
            requires
                0 <= k <= len + 1,
                st <= 0,
        ;
        assert(d * 16384 <= st) by (nonlinear_arith)
            requires
                d * 16384 <= st * len,
                len >= 1,
                st <= 0,
        ;
        if k <= len {
            assert(st * len <= k * st) by (nonlinear_arith)
                requires
                    0 <= k <= len,
                    st <= 0,
            ;
            vstd::arithmetic::div_mod::lemma_div_is_ordered(d * 16384, k * st, 16384);
            vstd::arithmetic::div_mod::lemma_div_is_ordered(k * st, 0, 16384);
            assert((d * 16384) / 16384 == d);
        }
    }
}

/// A ramp starts at its start colour.
pub proof fn lemma_ramp_starts_at_start_color(c1: Rgba8, c2: Rgba8, len: nat)
    ensures
        ramp_color(c1, c2, len, 0) == c1,
{
}

/// A ramp ends exactly at its end colour when its size divides every
/// channel difference.
pub proof fn lemma_ramp_reaches_end_color(c1: Rgba8, c2: Rgba8, len: nat)
    requires
        len >= 1,
        (c2.r - c1.r) % (len as int) == 0,
        (c2.g - c1.g) % (len as int) == 0,
        (c2.b - c1.b) % (len as int) == 0,
        (c2.a - c1.a) % (len as int) == 0,
    ensures
        ramp_color(c1, c2, len, len as int) == c2,
{
    lemma_ramp_channel_end(c1.r, c2.r, len);
    lemma_ramp_channel_end(c1.g, c2.g, len);
    lemma_ramp_channel_end(c1.b, c2.b, len);
    lemma_ramp_channel_end(c1.a, c2.a, len);
}

proof fn lemma_ramp_channel_end(y1: u8, y2: u8, len: nat)
    requires
        len >= 1,
        (y2 - y1) % (len as int) == 0,
    ensures
        ramp_channel(y1, y2, len, len as int) == y2,
{
    let d: int = y2 - y1;
    let q = d / (len as int);
    let m = q * 16384;
    vstd::arithmetic::div_mod::lemma_fundamental_div_mod(d, len as int);
    assert(d * 16384 == len * m) by (nonlinear_arith)
        requires
            d == len * q,
            m == q * 16384,
    ;
    if d >= 0 {
        vstd::arithmetic::div_mod::lemma_div_multiples_vanish(m, len as int);
        assert(ramp_step(y1, y2, len) == m);
    } else {
        assert(-(d * 16384) == len * (-m)) by (nonlinear_arith)
            requires
                d * 16384 == len * m,
        ;
        vstd::arithmetic::div_mod::lemma_div_multiples_vanish(-m, len as int);
        assert(ramp_step(y1, y2, len) == m);
    }
    assert((d * 16384) / 16384 == d);
}

/// One channel's interpolator at entry `k` of its ramp.
pub open spec fn channel_at(d: DdaLineInterpolator<14, 0>, y1: u8, y2: u8, len: nat, k: int) -> bool {
    &&& d.start() == y1
    &&& d.step() == ramp_step(y1, y2, len)
    &&& d.acc() == k * ramp_step(y1, y2, len)
}

/// At entry `k <= len` a channel reads the ramp's value and can step on.
proof fn lemma_channel_entry(d: DdaLineInterpolator<14, 0>, y1: u8, y2: u8, len: nat, k: int)
    requires
        len >= 1,
        0 <= k <= len,
        channel_at(d, y1, y2, len, k),
    ensures
        0 <= d.value() <= 255,
        channel_byte(d) == ramp_channel(y1, y2, len, k) as u8,
        channel_can_step(d),
        d.acc() + d.step() == (k + 1) * ramp_step(y1, y2, len),
{
    lemma_ramp_bounds(y1, y2, len, k);
    lemma_ramp_bounds(y1, y2, len, k + 1);
    vstd::arithmetic::power2::lemma2_to64();
    let st = ramp_step(y1, y2, len);
    assert((k + 1) * st == k * st + st) by (nonlinear_arith);
}

/// In a table built from stops, a stop followed by a later one holds its
/// own colour at its position.
pub proof fn lemma_stop_holds_its_color(lut: Seq<Rgba8>, stops: Seq<(usize, Rgba8)>, i: int)
    requires
        stops.len() >= 2,
        built_from(lut, stops),
        1 <= i < stops.len(),
        stops[i - 1].0 < stops[i].0,
        (stops[i - 1].0 as int) < lut.len(),
    ensures
        lut[stops[i - 1].0 as int] == stops[i - 1].1,
{
    let j = stops[i - 1].0 as int;
    assert(lut[j] == ramp_color(
        stops[i - 1].1,
        stops[i].1,
        segment_len(stops[i - 1].0 as int, stops[i].0 as int),
        j - stops[i - 1].0,
    ));
    lemma_ramp_starts_at_start_color(
        stops[i - 1].1,
        stops[i].1,
        segment_len(stops[i - 1].0 as int, stops[i].0 as int),
    );
}

/// In a table built from stops, the entry just before a stop holds that
/// stop's colour exactly when the segment is at least two entries long and
/// its size (entries minus one) divides every channel difference.
pub proof fn lemma_segment_reaches_stop_color(
    lut: Seq<Rgba8>,
    stops: Seq<(usize, Rgba8)>,
    i: int,
)
    requires
        stops.len() >= 2,
        built_from(lut, stops),
        1 <= i < stops.len(),
        stops[i].0 - stops[i - 1].0 >= 2,
        (stops[i].0 as int) <= lut.len(),
        ({
            let len = stops[i].0 - stops[i - 1].0 - 1;
            let (c1, c2) = (stops[i - 1].1, stops[i].1);
            &&& (c2.r - c1.r) % len == 0
            &&& (c2.g - c1.g) % len == 0
            &&& (c2.b - c1.b) % len == 0
            &&& (c2.a - c1.a) % len == 0
        }),
    ensures
        lut[stops[i].0 - 1] == stops[i].1,
{
    let j = stops[i].0 - 1;
    let len = segment_len(stops[i - 1].0 as int, stops[i].0 as int);
    assert(len == stops[i].0 - stops[i - 1].0 - 1);
    assert(lut[j] == ramp_color(stops[i - 1].1, stops[i].1, len, j - stops[i - 1].0));
    lemma_ramp_reaches_end_color(stops[i - 1].1, stops[i].1, len);
}

/// A colour lookup table filled from colour stops.
pub struct GradientLut {
    color_lut: Vec<Rgba8>,
    use_fast_interpolator: bool,
}

impl GradientLut {
    /// The table's colours.
    pub closed spec fn lut(&self) -> Seq<Rgba8> {
        self.color_lut@
    }

    /// Whether the fixed-point interpolator is used.
    pub closed spec fn fast(&self) -> bool {
        self.use_fast_interpolator
    }

    /// A table of `lut_size` transparent black entries, with the fixed-point
    /// interpolator.
    pub fn new(lut_size: usize) -> (g: Self)
        ensures
            g.lut().len() == lut_size,
            forall|i: int| 0 <= i < lut_size ==> g.lut()[i] == Rgba8::zero(),
            g.fast(),
    {
        let mut color_lut: Vec<Rgba8> = Vec::new();
        let mut i: usize = 0;
        while i < lut_size
            invariant
                i <= lut_size,
                color_lut@.len() == i,
                forall|j: int| 0 <= j < i ==> color_lut@[j] == Rgba8::zero(),
            decreases lut_size - i,
        {
            color_lut.push(Rgba8::default());
            i = i + 1;
        }
        GradientLut { color_lut, use_fast_interpolator: true }
    }

    /// A table of 256 entries.
    pub fn new_default() -> (g: Self)
        ensures
            g.lut().len() == 256,
            forall|i: int| 0 <= i < 256 ==> g.lut()[i] == Rgba8::zero(),
            g.fast(),
    {
        Self::new(256)
    }

    pub fn set_use_fast_interpolator(&mut self, fast: bool)
        ensures
            final(self).fast() == fast,
            final(self).lut() == old(self).lut(),
    {
        self.use_fast_interpolator = fast;
    }

    pub fn use_fast_interpolator(&self) -> (b: bool)
        ensures
            b == self.fast(),
    {
        self.use_fast_interpolator
    }

    /// Replaces every entry (colours computed by the caller).
    pub fn set_colors(&mut self, colors: Vec<Rgba8>)
        requires
            colors@.len() == old(self).lut().len(),
        ensures
            final(self).lut() == colors@,
            final(self).fast() == old(self).fast(),
    {
        self.color_lut = colors;
    }

    /// Fills the table from stops at entry positions `stops[i].0` with
    /// colours `stops[i].1`, stepping each ramp with the fixed-point
    /// interpolator. Entries past the table's end are not written: a stop
    /// beyond it cuts its ramp short. With fewer than two stops the table is
    /// left as it is.
    pub fn build_from_stops(&mut self, stops: &[(usize, Rgba8)])
        requires
            stops_valid(stops@),
        ensures
            final(self).lut().len() == old(self).lut().len(),
            final(self).fast() == old(self).fast(),
            stops@.len() < 2 ==> final(self).lut() == old(self).lut(),
            stops@.len() >= 2 ==> built_from(final(self).lut(), stops@),
    {
        let n = stops.len();
        if n < 2 {
            return;
        }
        let size = self.color_lut.len();
        let ghost fast = self.use_fast_interpolator;
        let mut start: usize = stops[0].0;
        let c0 = stops[0].1;
        let head: usize = if start < size {
            start
        } else {
            size
        };
        let mut i: usize = 0;
        while i < head
            invariant
                head <= size,
                head <= stops@[0].0,
                head == size || head == stops@[0].0,
                self.use_fast_interpolator == fast,
                i <= head,
                self.color_lut@.len() == size,
                c0 == stops@[0].1,
                forall|j: int| 0 <= j < i ==> self.color_lut@[j] == c0,
            decreases head - i,
        {
            self.color_lut.set(i, c0);
            i = i + 1;
        }
        let mut s: usize = 1;
        while s < n
            invariant
                n == stops@.len(),
                n >= 2,
                1 <= s <= n,
                stops_valid(stops@),
                self.color_lut@.len() == size,
                self.use_fast_interpolator == fast,
                start <= stops@[s - 1].0,
                stops@[s - 1].0 <= size ==> start == stops@[s - 1].0,
                stops@[s - 1].0 > size ==> start >= size,
                forall|j: int|
                    0 <= j < stops@[0].0 && j < size ==> self.color_lut@[j] == stops@[0].1,
                forall|t: int, j: int|
                    #![trigger stops@[t], self.color_lut@[j]]
                    1 <= t < s && stops@[t - 1].0 <= j < stops@[t].0 && j < size
                        ==> self.color_lut@[j] == ramp_color(
                        stops@[t - 1].1,
                        stops@[t].1,
                        segment_len(stops@[t - 1].0 as int, stops@[t].0 as int),
                        j - stops@[t - 1].0,
                    ),
            decreases n - s,
        {
            let end = stops[s].0;
            let seg_start = start;
            let seg_len: usize = if end > start {
                if end - start - 1 > 1 {
                    end - start - 1
                } else {
                    1
                }
            } else {
                1
            };
            let c1 = stops[s - 1].1;
            let c2 = stops[s].1;
            let ghost len = seg_len as nat;
            assert(len == segment_len(seg_start as int, end as int));
            let mut ci = ColorInterpolatorRgba8::new(&c1, &c2, seg_len as u32);
            proof {
                assert((seg_len as u32) as i32 as int == seg_len as int);
                assert(0 * ramp_step(c1.r, c2.r, len) == 0);
                assert(0 * ramp_step(c1.g, c2.g, len) == 0);
                assert(0 * ramp_step(c1.b, c2.b, len) == 0);
                assert(0 * ramp_step(c1.a, c2.a, len) == 0);
            }
            while start < end && start < size
                invariant
                    seg_start <= start <= end,
                    start == seg_start || start <= size,
                    seg_start < size ==> seg_start == stops@[s - 1].0,
                    seg_start <= stops@[s - 1].0,
                    end == stops@[s as int].0,
                    c1 == stops@[s - 1].1,
                    c2 == stops@[s as int].1,
                    1 <= s < n,
                    n == stops@.len(),
                    len == seg_len,
                    len == segment_len(seg_start as int, end as int),
                    len >= 1,
                    self.color_lut@.len() == size,
                    self.use_fast_interpolator == fast,
                    stops_valid(stops@),
                    channel_at(ci.red(), c1.r, c2.r, len, start - seg_start),
                    channel_at(ci.green(), c1.g, c2.g, len, start - seg_start),
                    channel_at(ci.blue(), c1.b, c2.b, len, start - seg_start),
                    channel_at(ci.alpha(), c1.a, c2.a, len, start - seg_start),
                    forall|j: int|
                        0 <= j < stops@[0].0 && j < size ==> self.color_lut@[j] == stops@[0].1,
                    forall|t: int, j: int|
                        #![trigger stops@[t], self.color_lut@[j]]
                        1 <= t < s && stops@[t - 1].0 <= j < stops@[t].0 && j < size
                            ==> self.color_lut@[j] == ramp_color(
                            stops@[t - 1].1,
                            stops@[t].1,
                            segment_len(stops@[t - 1].0 as int, stops@[t].0 as int),
                            j - stops@[t - 1].0,
                        ),
                    forall|j: int|
                        seg_start <= j < start ==> self.color_lut@[j] == ramp_color(
                            c1,
                            c2,
                            len,
                            j - seg_start,
                        ),
                decreases end - start,
            {
                let ghost k: int = start - seg_start;
                proof {
                    lemma_channel_entry(ci.red(), c1.r, c2.r, len, k);
                    lemma_channel_entry(ci.green(), c1.g, c2.g, len, k);
                    lemma_channel_entry(ci.blue(), c1.b, c2.b, len, k);
                    lemma_channel_entry(ci.alpha(), c1.a, c2.a, len, k);
                }
                let c = ci.color();
                proof {
                    assert(c == ramp_color(c1, c2, len, k));
                }
                self.color_lut.set(start, c);
                ci.inc();
                start = start + 1;
            }
            proof {
                assert forall|t: int, j: int|
                    #![trigger stops@[t], self.color_lut@[j]]
                    1 <= t < s + 1 && stops@[t - 1].0 <= j < stops@[t].0 && j < size
                        implies self.color_lut@[j] == ramp_color(
                        stops@[t - 1].1,
                        stops@[t].1,
                        segment_len(stops@[t - 1].0 as int, stops@[t].0 as int),
                        j - stops@[t - 1].0,
                    ) by {
                    if t == s {
                        assert(seg_start == stops@[s - 1].0);
                        assert(j < start);
                    }
                }
            }
            s = s + 1;
        }
        let last = stops[n - 1].1;
        let mut e: usize = start;
        while e < size
            invariant
                stops@[n - 1].0 <= size ==> start == stops@[n - 1].0,
                stops@[n - 1].0 > size ==> start >= size,
                start <= e,
                e <= size || e == start,
                n == stops@.len(),
                n >= 2,
                last == stops@[n - 1].1,
                self.color_lut@.len() == size,
                self.use_fast_interpolator == fast,
                stops_valid(stops@),
                forall|j: int|
                    0 <= j < stops@[0].0 && j < size ==> self.color_lut@[j] == stops@[0].1,
                forall|t: int, j: int|
                    #![trigger stops@[t], self.color_lut@[j]]
                    1 <= t < n && stops@[t - 1].0 <= j < stops@[t].0 && j < size
                        ==> self.color_lut@[j] == ramp_color(
                        stops@[t - 1].1,
                        stops@[t].1,
                        segment_len(stops@[t - 1].0 as int, stops@[t].0 as int),
                        j - stops@[t - 1].0,
                    ),
                forall|j: int| start <= j < e ==> self.color_lut@[j] == last,
            decreases size - e,
        {
            self.color_lut.set(e, last);
            e = e + 1;
        }
    }
}

impl ColorFunction for GradientLut {
    type Color = Rgba8;

    open spec fn count(&self) -> nat {
        self.lut().len()
    }

    fn size(&self) -> (n: usize)
        ensures
            n == self.count(),
    {
        self.color_lut.len()
    }

    fn get(&self, index: usize) -> (c: Rgba8)
        ensures
            c == self.lut()[index as int],
    {
        self.color_lut[index]
    }
}

} // verus!
