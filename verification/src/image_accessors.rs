//! Pixel access into a rendering buffer with boundary handling: a background
//! colour outside the image (clip), no handling at all (no-clip), clamping
//! to the edge (clone) and tiling through coordinate wrap modes (wrap).
use crate::fixed_point::lemma_sign_casts;
use crate::rendering_buffer::RowAccessor;
use vstd::arithmetic::div_mod::{lemma_fundamental_div_mod, lemma_mod_multiples_vanish};
use vstd::prelude::*;
use vstd::wrapping::u32_specs::wrapping_add;

verus! {

/// A coordinate wrapping policy for tiled image access: a small state machine
/// whose state is its view. `func` maps an arbitrary coordinate into the tile
/// and `inc` steps to the following coordinate.
pub trait WrapMode: Sized + View {
    /// The image dimensions a mode can be built for.
    spec fn accepts(size: u32) -> bool;

    /// The state a new mode for `size` starts in.
    spec fn initial(size: u32) -> Self::V;

    /// Consistency of a state.
    spec fn inv(m: Self::V) -> bool;

    /// Every coordinate handed out is below this bound.
    spec fn limit(m: Self::V) -> nat;

    /// The state after mapping coordinate `v`.
    spec fn after_func(m: Self::V, v: i32) -> Self::V;

    /// The state after stepping to the next coordinate.
    spec fn after_inc(m: Self::V) -> Self::V;

    /// The coordinate a state hands out.
    spec fn output(m: Self::V) -> u32;

    /// States from which `inc` can step without overflow.
    spec fn can_inc(m: Self::V) -> bool;

    /// The coordinates `v` for which stepping after mapping `v` is the same
    /// as mapping `v + 1`.
    spec fn continues_at(m: Self::V, v: i32) -> bool;

    /// Stepping after `func(v)` lands where `func(v + 1)` lands.
    proof fn lemma_inc_continues_func(m: Self::V, v: i32)
        requires
            Self::inv(m),
            Self::continues_at(m, v),
        ensures
            v < i32::MAX,
            Self::after_inc(Self::after_func(m, v)) == Self::after_func(m, (v + 1) as i32),
    ;

    /// A wrap mode for an image dimension of `size` pixels.
    fn new(size: u32) -> (r: Self)
        requires
            Self::accepts(size),
        ensures
            r@ == Self::initial(size),
            Self::inv(r@),
            0 < Self::limit(r@),
            size > 0 ==> Self::limit(r@) <= size,
    ;

    /// Maps `v` into the tile and remembers it.
    fn func(&mut self, v: i32) -> (r: u32)
        requires
            Self::inv(old(self)@),
        ensures
            final(self)@ == Self::after_func(old(self)@, v),
            r == Self::output(final(self)@),
            Self::inv(final(self)@),
            Self::limit(final(self)@) == Self::limit(old(self)@),
            r < Self::limit(old(self)@),
    ;

    /// Steps to the coordinate after the remembered one.
    fn inc(&mut self) -> (r: u32)
        requires
            Self::inv(old(self)@),
            Self::can_inc(old(self)@),
        ensures
            final(self)@ == Self::after_inc(old(self)@),
            r == Self::output(final(self)@),
            Self::inv(final(self)@),
            Self::limit(final(self)@) == Self::limit(old(self)@),
            r < Self::limit(old(self)@),
    ;
}

/// The largest multiple of `size` not above `0x3FFF_FFFF`: added to a
/// coordinate so that negative coordinates wrap like positive ones.
pub open spec fn tile_offset(size: u32) -> u32 {
    (size * (0x3FFF_FFFFu32 / size)) as u32
}

/// `tile_offset(size)` is a multiple of `size` that fits in 30 bits.
pub proof fn lemma_tile_offset(size: u32)
    requires
        size > 0,
    ensures
        tile_offset(size) as int == size * (0x3FFF_FFFFu32 / size) as int,
        tile_offset(size) <= 0x3FFF_FFFF,
{
    lemma_fundamental_div_mod(0x3FFF_FFFF, size as int);
}

/// Computes `tile_offset(size)` the way the modes do, with a wrapping product.
fn compute_tile_offset(size: u32) -> (r: u32)
    requires
        size > 0,
    ensures
        r == tile_offset(size),
{
    proof {
        lemma_tile_offset(size);
        vstd::arithmetic::div_mod::lemma_small_mod(
            (size * (0x3FFF_FFFFu32 / size)) as nat,
            0x1_0000_0000nat,
        );
    }
    size.wrapping_mul(0x3FFF_FFFF / size)
}

/// The coordinate that modulo wrapping gives for `v`: `v` reinterpreted as
/// `u32`, shifted by `add` with wrap-around, reduced modulo `size`.
pub open spec fn modulo_wrap(v: i32, add: u32, size: u32) -> u32 {
    (wrapping_add(v as u32, add) % size) as u32
}

/// For coordinates at or above `-tile_offset(size)`, modulo wrapping is the
/// Euclidean remainder of `v` by `size`.
pub proof fn lemma_modulo_wrap_is_remainder(v: i32, size: u32)
    requires
        size > 0,
        v >= -(tile_offset(size) as int),
    ensures
        modulo_wrap(v, tile_offset(size), size) as int == (v as int) % (size as int),
{
    lemma_tile_offset(size);
    lemma_sign_casts(v, 0);
    let k = (0x3FFF_FFFFu32 / size) as int;
    lemma_mod_multiples_vanish(k, v as int, size as int);
}

/// `m` is a run of low one bits, `2^k - 1` for some `k` in `0..=32`.
pub open spec fn low_ones(m: u32) -> bool {
    m & ((m + 1) as u32) == 0
}

/// The step of a masked counter: one up, back to zero past the mask.
pub open spec fn masked_step(value: u32, m: u32) -> u32 {
    if value + 1 > m {
        0
    } else {
        (value + 1) as u32
    }
}

/// Mirror of a position in a doubled tile `0..size2` onto `0..size`.
pub open spec fn mirror(value: u32, size: u32, size2: u32) -> u32 {
    if value >= size {
        (size2 - value - 1) as u32
    } else {
        value
    }
}

/// Bit facts about masks of low one bits.
pub proof fn lemma_mask_bits(x: u32, m: u32)
    by (bit_vector)
    ensures
        low_ones(1u32),
        x & m <= m,
        low_ones(m) ==> masked_step(x & m, m) == ((x + 1) as u32) & m,
        m > 0 ==> (m & ((m - 1) as u32) == 0) == low_ones((m - 1) as u32),
        low_ones(m) && m < 0xFFFF_FFFF ==> low_ones((m << 1) | 1) && ((m << 1) | 1) >> 1 == m
            && m <= 0x7FFF_FFFF && ((m << 1) | 1) > m,
        low_ones(m) && m >= 1 ==> m == (2 * (m >> 1) + 1) as u32,
        low_ones(x) && low_ones(m) && x < m ==> x <= m >> 1,
        low_ones(m) ==> (((x & m) + 1) as u32) & m == ((x + 1) as u32) & m,
        ((x + 1) as u32) == if x == 0xFFFF_FFFF {
            0
        } else {
            x + 1
        },
        0xFFFF_FFFFu32 & m == m,
{
}

/// One bit of a masked value: the low bit and the rest shifted down.
proof fn lemma_mask_split(x: u32, m: u32)
    by (bit_vector)
    ensures
        m == 0 ==> x & m == 0,
        m != 0 && low_ones(m) ==> low_ones(m >> 1) && x & m == (2 * ((x >> 1) & (m >> 1)) + (x
            & 1)) as u32,
        (x >> 1) & (m >> 1) <= 0x7FFF_FFFF,
        m >> 1 <= 0x7FFF_FFFF,
        m != 0 ==> m >> 1 < m,
        x & 1 == x % 2,
        x >> 1 == x / 2,
{
}

/// Masking with low one bits is the remainder by the next power of two.
pub proof fn lemma_mask_is_mod(x: u32, m: u32)
    requires
        low_ones(m),
    ensures
        (x & m) as int == x as int % (m as int + 1),
    decreases m,
{
    lemma_mask_split(x, m);
    if m != 0 {
        lemma_mask_bits(x, m);
        lemma_mask_is_mod(x >> 1, m >> 1);
        let h = (m >> 1) as int + 1;
        vstd::arithmetic::div_mod::lemma_mod_breakdown(x as int, 2, h);
        assert(m as int + 1 == 2 * h);
    }
}

/// `r` is the smallest run of low one bits, at least one bit long, that is
/// not below `size`.
pub open spec fn is_fill_mask(r: u32, size: u32) -> bool {
    low_ones(r) && r >= 1 && r >= size && (r == 1 || r >> 1 < size)
}

/// The smallest run of low one bits, at least one bit long, not below `size`.
pub open spec fn fill_mask_of(size: u32) -> u32 {
    choose|r: u32| is_fill_mask(r, size)
}

/// At most one mask fits `is_fill_mask`.
proof fn lemma_fill_mask_unique(r: u32, size: u32)
    requires
        is_fill_mask(r, size),
    ensures
        fill_mask_of(size) == r,
{
    let c = fill_mask_of(size);
    assert(is_fill_mask(c, size));
    lemma_mask_bits(r, c);
    lemma_mask_bits(c, r);
}

/// The smallest run of low one bits (at least one bit) that covers `size`.
fn fill_mask(size: u32) -> (r: u32)
    ensures
        is_fill_mask(r, size),
        r == fill_mask_of(size),
{
    let mut mask: u32 = 1;
    proof {
        lemma_mask_bits(0, 0);
    }
    while mask < size
        invariant
            low_ones(mask),
            mask >= 1,
            mask == 1 || mask >> 1 < size,
        decreases 0x1_0000_0000 - mask,
    {
        proof {
            lemma_mask_bits(0, mask);
        }
        mask = (mask << 1) | 1;
    }
    proof {
        lemma_fill_mask_unique(mask, size);
    }
    mask
}

/// `size - 1` when `size` is a power of two, else zero.
pub open spec fn pow2_mask(size: u32) -> u32 {
    if size & ((size - 1) as u32) == 0 {
        (size - 1) as u32
    } else {
        0
    }
}

/// Computes `pow2_mask(size)`.
fn compute_pow2_mask(size: u32) -> (r: u32)
    requires
        size > 0,
    ensures
        r == pow2_mask(size),
        r != 0 ==> low_ones(r) && r as int == size - 1,
{
    proof {
        lemma_mask_bits(0, size);
    }
    if size & (size - 1) == 0 {
        size - 1
    } else {
        0
    }
}

/// The coordinate a low-ones mask gives for `v`.
pub open spec fn mask_wrap(v: i32, m: u32) -> u32 {
    (v as u32) & m
}

/// Masking a coordinate with `2^k - 1` (`k < 32`) is its Euclidean remainder
/// by `2^k`, negative coordinates included.
pub proof fn lemma_mask_wrap_is_remainder(v: i32, m: u32)
    requires
        low_ones(m),
        m < 0xFFFF_FFFF,
    ensures
        mask_wrap(v, m) as int == (v as int) % (m as int + 1),
{
    lemma_sign_casts(v, 0);
    lemma_mask_bits(0, m);
    lemma_mask_is_mod(v as u32, m);
    lemma_mask_is_mod(0xFFFF_FFFF, m);
    let d = m as int + 1;
    let q = 0xFFFF_FFFFint / d;
    lemma_fundamental_div_mod(0xFFFF_FFFF, d);
    assert(0x1_0000_0000 == d * (q + 1)) by (nonlinear_arith)
        requires
            0xFFFF_FFFF == d * q + m,
            d == m + 1,
    ;
    lemma_mod_multiples_vanish(q + 1, v as int, d);
}

/// Stepping a mask-wrapped coordinate is wrapping the next coordinate.
proof fn lemma_mask_wrap_step(v: i32, m: u32)
    requires
        low_ones(m),
        v < i32::MAX,
    ensures
        masked_step(mask_wrap(v, m), m) == mask_wrap((v + 1) as i32, m),
        (((mask_wrap(v, m) + 1) as u32) & m) == mask_wrap((v + 1) as i32, m),
{
    lemma_sign_casts(v, 0);
    lemma_sign_casts((v + 1) as i32, 0);
    lemma_mask_bits(v as u32, m);
    assert(((v + 1) as i32) as u32 == ((v as u32 + 1) as u32));
}

/// Stepping a modulo-wrapped coordinate is wrapping the next coordinate.
proof fn lemma_modulo_wrap_step(v: i32, add: u32, size: u32)
    requires
        size > 0,
        add as int % size as int == 0,
        add <= 0x3FFF_FFFF,
        v >= -(add as int),
        v < i32::MAX,
    ensures
        (if modulo_wrap(v, add, size) + 1 >= size {
            0
        } else {
            modulo_wrap(v, add, size) + 1
        }) == modulo_wrap((v + 1) as i32, add, size),
{
    lemma_sign_casts(v, 0);
    lemma_sign_casts((v + 1) as i32, 0);
    let a = v + add;
    assert(wrapping_add(v as u32, add) == a);
    assert(wrapping_add(((v + 1) as i32) as u32, add) == a + 1);
    let q = a / (size as int);
    let r = a % (size as int);
    lemma_fundamental_div_mod(a, size as int);
    if r + 1 < size {
        vstd::arithmetic::div_mod::lemma_fundamental_div_mod_converse(a + 1, size as int, q, r + 1);
    } else {
        assert((q + 1) * size == q * size + size) by (nonlinear_arith);
        vstd::arithmetic::div_mod::lemma_fundamental_div_mod_converse(a + 1, size as int, q + 1, 0);
    }
}

// ---------------------------------------------------------------------------

/// Repeat (modulo) tiling.
pub struct WrapModeRepeat {
    size: u32,
    add: u32,
    value: u32,
}

impl View for WrapModeRepeat {
    /// `(size, add, value)`.
    type V = (u32, u32, u32);

    closed spec fn view(&self) -> (u32, u32, u32) {
        (self.size, self.add, self.value)
    }
}

impl WrapMode for WrapModeRepeat {
    open spec fn accepts(size: u32) -> bool {
        size > 0
    }

    open spec fn initial(size: u32) -> (u32, u32, u32) {
        (size, tile_offset(size), 0)
    }

    open spec fn inv(m: (u32, u32, u32)) -> bool {
        m.0 > 0 && m.1 == tile_offset(m.0) && m.2 < m.0
    }

    open spec fn limit(m: (u32, u32, u32)) -> nat {
        m.0 as nat
    }

    open spec fn after_func(m: (u32, u32, u32), v: i32) -> (u32, u32, u32) {
        (m.0, m.1, modulo_wrap(v, m.1, m.0))
    }

    open spec fn after_inc(m: (u32, u32, u32)) -> (u32, u32, u32) {
        (m.0, m.1, if m.2 + 1 >= m.0 { 0 } else { (m.2 + 1) as u32 })
    }

    open spec fn output(m: (u32, u32, u32)) -> u32 {
        m.2
    }

    open spec fn can_inc(m: (u32, u32, u32)) -> bool {
        true
    }

    open spec fn continues_at(m: (u32, u32, u32), v: i32) -> bool {
        v >= -(m.1 as int) && v < i32::MAX
    }

    proof fn lemma_inc_continues_func(m: (u32, u32, u32), v: i32) {
        lemma_tile_offset(m.0);
        vstd::arithmetic::div_mod::lemma_mod_multiples_basic(
            (0x3FFF_FFFFu32 / m.0) as int,
            m.0 as int,
        );
        lemma_modulo_wrap_step(v, m.1, m.0);
    }

    fn new(size: u32) -> (r: Self) {
        WrapModeRepeat { size, add: compute_tile_offset(size), value: 0 }
    }

    fn func(&mut self, v: i32) -> (r: u32) {
        self.value = (v as u32).wrapping_add(self.add) % self.size;
        self.value
    }

    fn inc(&mut self) -> (r: u32) {
        self.value = self.value + 1;
        if self.value >= self.size {
            self.value = 0;
        }
        self.value
    }
}

// ---------------------------------------------------------------------------

/// Repeat tiling with a bit mask; exact when the size is a power of two,
/// otherwise the tile is the largest power of two not above the size.
pub struct WrapModeRepeatPow2 {
    mask: u32,
    value: u32,
}

impl View for WrapModeRepeatPow2 {
    /// `(mask, value)`.
    type V = (u32, u32);

    closed spec fn view(&self) -> (u32, u32) {
        (self.mask, self.value)
    }
}

impl WrapMode for WrapModeRepeatPow2 {
    open spec fn accepts(size: u32) -> bool {
        true
    }

    open spec fn initial(size: u32) -> (u32, u32) {
        (fill_mask_of(size) >> 1, 0)
    }

    open spec fn inv(m: (u32, u32)) -> bool {
        low_ones(m.0) && m.0 <= 0x7FFF_FFFF && m.1 <= m.0
    }

    open spec fn limit(m: (u32, u32)) -> nat {
        m.0 as nat + 1
    }

    open spec fn after_func(m: (u32, u32), v: i32) -> (u32, u32) {
        (m.0, mask_wrap(v, m.0))
    }

    open spec fn after_inc(m: (u32, u32)) -> (u32, u32) {
        (m.0, masked_step(m.1, m.0))
    }

    open spec fn output(m: (u32, u32)) -> u32 {
        m.1
    }

    open spec fn can_inc(m: (u32, u32)) -> bool {
        true
    }

    open spec fn continues_at(m: (u32, u32), v: i32) -> bool {
        v < i32::MAX
    }

    proof fn lemma_inc_continues_func(m: (u32, u32), v: i32) {
        lemma_mask_wrap_step(v, m.0);
    }

    fn new(size: u32) -> (r: Self) {
        let fill = fill_mask(size);
        proof {
            lemma_mask_split(0, fill);
        }
        WrapModeRepeatPow2 { mask: fill >> 1, value: 0 }
    }

    fn func(&mut self, v: i32) -> (r: u32) {
        proof {
            lemma_mask_bits(v as u32, self.mask);
        }
        self.value = v as u32 & self.mask;
        self.value
    }

    fn inc(&mut self) -> (r: u32) {
        self.value = self.value + 1;
        if self.value > self.mask {
            self.value = 0;
        }
        self.value
    }
}

// ---------------------------------------------------------------------------

/// Repeat tiling that masks for power-of-two sizes and takes the remainder
/// otherwise.
pub struct WrapModeRepeatAutoPow2 {
    size: u32,
    add: u32,
    mask: u32,
    value: u32,
}

impl View for WrapModeRepeatAutoPow2 {
    /// `(size, add, mask, value)`.
    type V = (u32, u32, u32, u32);

    closed spec fn view(&self) -> (u32, u32, u32, u32) {
        (self.size, self.add, self.mask, self.value)
    }
}

impl WrapMode for WrapModeRepeatAutoPow2 {
    open spec fn accepts(size: u32) -> bool {
        size > 0
    }

    open spec fn initial(size: u32) -> (u32, u32, u32, u32) {
        (size, tile_offset(size), pow2_mask(size), 0)
    }

    open spec fn inv(m: (u32, u32, u32, u32)) -> bool {
        m.0 > 0 && m.1 == tile_offset(m.0) && m.2 == pow2_mask(m.0) && m.3 < m.0
    }

    open spec fn limit(m: (u32, u32, u32, u32)) -> nat {
        m.0 as nat
    }

    open spec fn after_func(m: (u32, u32, u32, u32), v: i32) -> (u32, u32, u32, u32) {
        (
            m.0,
            m.1,
            m.2,
            if m.2 != 0 {
                mask_wrap(v, m.2)
            } else {
                modulo_wrap(v, m.1, m.0)
            },
        )
    }

    open spec fn after_inc(m: (u32, u32, u32, u32)) -> (u32, u32, u32, u32) {
        (m.0, m.1, m.2, if m.3 + 1 >= m.0 { 0 } else { (m.3 + 1) as u32 })
    }

    open spec fn output(m: (u32, u32, u32, u32)) -> u32 {
        m.3
    }

    open spec fn can_inc(m: (u32, u32, u32, u32)) -> bool {
        true
    }

    open spec fn continues_at(m: (u32, u32, u32, u32), v: i32) -> bool {
        v < i32::MAX && (m.2 != 0 || v >= -(m.1 as int))
    }

    proof fn lemma_inc_continues_func(m: (u32, u32, u32, u32), v: i32) {
        lemma_mask_bits(0, m.0);
        if m.2 != 0 {
            lemma_mask_wrap_step(v, m.2);
        } else {
            lemma_tile_offset(m.0);
            vstd::arithmetic::div_mod::lemma_mod_multiples_basic(
                (0x3FFF_FFFFu32 / m.0) as int,
                m.0 as int,
            );
            lemma_modulo_wrap_step(v, m.1, m.0);
        }
    }

    fn new(size: u32) -> (r: Self) {
        let mask = compute_pow2_mask(size);
        WrapModeRepeatAutoPow2 { size, add: compute_tile_offset(size), mask, value: 0 }
    }

    fn func(&mut self, v: i32) -> (r: u32) {
        proof {
            lemma_mask_bits(v as u32, self.mask);
            lemma_mask_bits(0, self.size);
        }
        if self.mask != 0 {
            self.value = v as u32 & self.mask;
        } else {
            self.value = (v as u32).wrapping_add(self.add) % self.size;
        }
        self.value
    }

    fn inc(&mut self) -> (r: u32) {
        self.value = self.value + 1;
        if self.value >= self.size {
            self.value = 0;
        }
        self.value
    }
}

// ---------------------------------------------------------------------------

/// Reflect (mirror) tiling: the image, then its mirror image, repeated.
pub struct WrapModeReflect {
    size: u32,
    size2: u32,
    add: u32,
    value: u32,
}

impl View for WrapModeReflect {
    /// `(size, size2, add, value)`.
    type V = (u32, u32, u32, u32);

    closed spec fn view(&self) -> (u32, u32, u32, u32) {
        (self.size, self.size2, self.add, self.value)
    }
}

impl WrapMode for WrapModeReflect {
    open spec fn accepts(size: u32) -> bool {
        0 < size <= 0x7FFF_FFFF
    }

    open spec fn initial(size: u32) -> (u32, u32, u32, u32) {
        (size, (2 * size) as u32, tile_offset((2 * size) as u32), 0)
    }

    open spec fn inv(m: (u32, u32, u32, u32)) -> bool {
        0 < m.0 <= 0x7FFF_FFFF && m.1 == 2 * m.0 && m.2 == tile_offset(m.1) && m.3 < m.1
    }

    open spec fn limit(m: (u32, u32, u32, u32)) -> nat {
        m.0 as nat
    }

    open spec fn after_func(m: (u32, u32, u32, u32), v: i32) -> (u32, u32, u32, u32) {
        (m.0, m.1, m.2, modulo_wrap(v, m.2, m.1))
    }

    open spec fn after_inc(m: (u32, u32, u32, u32)) -> (u32, u32, u32, u32) {
        (m.0, m.1, m.2, if m.3 + 1 >= m.1 { 0 } else { (m.3 + 1) as u32 })
    }

    open spec fn output(m: (u32, u32, u32, u32)) -> u32 {
        mirror(m.3, m.0, m.1)
    }

    open spec fn can_inc(m: (u32, u32, u32, u32)) -> bool {
        true
    }

    open spec fn continues_at(m: (u32, u32, u32, u32), v: i32) -> bool {
        v >= -(m.2 as int) && v < i32::MAX
    }

    proof fn lemma_inc_continues_func(m: (u32, u32, u32, u32), v: i32) {
        lemma_tile_offset(m.1);
        vstd::arithmetic::div_mod::lemma_mod_multiples_basic(
            (0x3FFF_FFFFu32 / m.1) as int,
            m.1 as int,
        );
        lemma_modulo_wrap_step(v, m.2, m.1);
    }

    fn new(size: u32) -> (r: Self) {
        let size2 = size * 2;
        WrapModeReflect { size, size2, add: compute_tile_offset(size2), value: 0 }
    }

    fn func(&mut self, v: i32) -> (r: u32) {
        self.value = (v as u32).wrapping_add(self.add) % self.size2;
        if self.value >= self.size {
            self.size2 - self.value - 1
        } else {
            self.value
        }
    }

    fn inc(&mut self) -> (r: u32) {
        self.value = self.value + 1;
        if self.value >= self.size2 {
            self.value = 0;
        }
        if self.value >= self.size {
            self.size2 - self.value - 1
        } else {
            self.value
        }
    }
}

// ---------------------------------------------------------------------------

/// Reflect tiling with a bit mask over a doubled power-of-two tile.
pub struct WrapModeReflectPow2 {
    size: u32,
    mask: u32,
    value: u32,
}

impl View for WrapModeReflectPow2 {
    /// `(size, mask, value)`.
    type V = (u32, u32, u32);

    closed spec fn view(&self) -> (u32, u32, u32) {
        (self.size, self.mask, self.value)
    }
}

/// The mirrored output of a masked reflect state.
pub open spec fn mask_mirror(value: u32, size: u32, mask: u32) -> u32 {
    if value >= size {
        (mask - value) as u32
    } else {
        value
    }
}

impl WrapMode for WrapModeReflectPow2 {
    open spec fn accepts(size: u32) -> bool {
        true
    }

    open spec fn initial(size: u32) -> (u32, u32, u32) {
        (((fill_mask_of(size) >> 1) + 1) as u32, fill_mask_of(size), 0)
    }

    open spec fn inv(m: (u32, u32, u32)) -> bool {
        low_ones(m.1) && m.1 >= 1 && m.0 == (m.1 >> 1) + 1 && m.2 <= m.1
    }

    open spec fn limit(m: (u32, u32, u32)) -> nat {
        m.0 as nat
    }

    open spec fn after_func(m: (u32, u32, u32), v: i32) -> (u32, u32, u32) {
        (m.0, m.1, mask_wrap(v, m.1))
    }

    open spec fn after_inc(m: (u32, u32, u32)) -> (u32, u32, u32) {
        (m.0, m.1, ((m.2 + 1) as u32) & m.1)
    }

    open spec fn output(m: (u32, u32, u32)) -> u32 {
        mask_mirror(m.2, m.0, m.1)
    }

    /// The state's counter steps without overflowing.
    open spec fn can_inc(m: (u32, u32, u32)) -> bool {
        m.2 < u32::MAX
    }

    open spec fn continues_at(m: (u32, u32, u32), v: i32) -> bool {
        v < i32::MAX
    }

    proof fn lemma_inc_continues_func(m: (u32, u32, u32), v: i32) {
        lemma_mask_wrap_step(v, m.1);
    }

    fn new(size: u32) -> (r: Self) {
        let mask = fill_mask(size);
        proof {
            lemma_mask_split(0, mask);
        }
        WrapModeReflectPow2 { size: (mask >> 1) + 1, mask, value: 0 }
    }

    fn func(&mut self, v: i32) -> (r: u32) {
        proof {
            lemma_mask_bits(v as u32, self.mask);
        }
        self.value = v as u32 & self.mask;
        if self.value >= self.size {
            self.mask - self.value
        } else {
            self.value
        }
    }

    fn inc(&mut self) -> (r: u32) {
        self.value = self.value + 1;
        proof {
            lemma_mask_bits(self.value, self.mask);
        }
        self.value = self.value & self.mask;
        if self.value >= self.size {
            self.mask - self.value
        } else {
            self.value
        }
    }
}

// ---------------------------------------------------------------------------

/// Reflect tiling that masks when twice the size is a power of two and takes
/// the remainder otherwise.
pub struct WrapModeReflectAutoPow2 {
    size: u32,
    size2: u32,
    add: u32,
    mask: u32,
    value: u32,
}

impl View for WrapModeReflectAutoPow2 {
    /// `(size, size2, add, mask, value)`.
    type V = (u32, u32, u32, u32, u32);

    closed spec fn view(&self) -> (u32, u32, u32, u32, u32) {
        (self.size, self.size2, self.add, self.mask, self.value)
    }
}

impl WrapMode for WrapModeReflectAutoPow2 {
    open spec fn accepts(size: u32) -> bool {
        0 < size <= 0x7FFF_FFFF
    }

    open spec fn initial(size: u32) -> (u32, u32, u32, u32, u32) {
        (
            size,
            (2 * size) as u32,
            tile_offset((2 * size) as u32),
            pow2_mask((2 * size) as u32),
            0,
        )
    }

    open spec fn inv(m: (u32, u32, u32, u32, u32)) -> bool {
        &&& 0 < m.0 <= 0x7FFF_FFFF
        &&& m.1 == 2 * m.0
        &&& m.2 == tile_offset(m.1)
        &&& m.3 == pow2_mask(m.1)
        &&& m.4 < m.1
    }

    open spec fn limit(m: (u32, u32, u32, u32, u32)) -> nat {
        m.0 as nat
    }

    open spec fn after_func(m: (u32, u32, u32, u32, u32), v: i32) -> (u32, u32, u32, u32, u32) {
        (
            m.0,
            m.1,
            m.2,
            m.3,
            if m.3 != 0 {
                mask_wrap(v, m.3)
            } else {
                modulo_wrap(v, m.2, m.1)
            },
        )
    }

    open spec fn after_inc(m: (u32, u32, u32, u32, u32)) -> (u32, u32, u32, u32, u32) {
        (m.0, m.1, m.2, m.3, if m.4 + 1 >= m.1 { 0 } else { (m.4 + 1) as u32 })
    }

    open spec fn output(m: (u32, u32, u32, u32, u32)) -> u32 {
        mirror(m.4, m.0, m.1)
    }

    open spec fn can_inc(m: (u32, u32, u32, u32, u32)) -> bool {
        true
    }

    open spec fn continues_at(m: (u32, u32, u32, u32, u32), v: i32) -> bool {
        v < i32::MAX && (m.3 != 0 || v >= -(m.2 as int))
    }

    proof fn lemma_inc_continues_func(m: (u32, u32, u32, u32, u32), v: i32) {
        lemma_mask_bits(0, m.1);
        if m.3 != 0 {
            lemma_mask_wrap_step(v, m.3);
        } else {
            lemma_tile_offset(m.1);
            vstd::arithmetic::div_mod::lemma_mod_multiples_basic(
                (0x3FFF_FFFFu32 / m.1) as int,
                m.1 as int,
            );
            lemma_modulo_wrap_step(v, m.2, m.1);
        }
    }

    fn new(size: u32) -> (r: Self) {
        let size2 = size * 2;
        let mask = compute_pow2_mask(size2);
        WrapModeReflectAutoPow2 { size, size2, add: compute_tile_offset(size2), mask, value: 0 }
    }

    fn func(&mut self, v: i32) -> (r: u32) {
        proof {
            lemma_mask_bits(v as u32, self.mask);
            lemma_mask_bits(0, self.size2);
        }
        self.value = if self.mask != 0 {
            v as u32 & self.mask
        } else {
            (v as u32).wrapping_add(self.add) % self.size2
        };
        if self.value >= self.size {
            self.size2 - self.value - 1
        } else {
            self.value
        }
    }

    fn inc(&mut self) -> (r: u32) {
        self.value = self.value + 1;
        if self.value >= self.size2 {
            self.value = 0;
        }
        if self.value >= self.size {
            self.size2 - self.value - 1
        } else {
            self.value
        }
    }
}

// ---------------------------------------------------------------------------

// Laws of the wrap modes: the coordinate each mode hands out for `v`, and
// for the step after it, in terms of remainders.

/// Repeat tiling hands out the remainder of `v` by the image size; stepping
/// after mapping `v` hands out the remainder of `v + 1`.
pub proof fn lemma_repeat_coordinates(m: (u32, u32, u32), v: i32)
    requires
        WrapModeRepeat::inv(m),
        v >= -(tile_offset(m.0) as int),
    ensures
        WrapModeRepeat::output(WrapModeRepeat::after_func(m, v)) as int == (v as int) % (m.0 as int),
        v < i32::MAX ==> WrapModeRepeat::output(
            WrapModeRepeat::after_inc(WrapModeRepeat::after_func(m, v)),
        ) as int == (v as int + 1) % (m.0 as int),
{
    lemma_modulo_wrap_is_remainder(v, m.0);
    if v < i32::MAX {
        WrapModeRepeat::lemma_inc_continues_func(m, v);
        lemma_modulo_wrap_is_remainder((v + 1) as i32, m.0);
    }
}

/// Masked repeat tiling hands out the remainder of `v` (negative ones too)
/// by its tile `mask + 1`, a power of two; stepping after mapping `v` hands
/// out the remainder of `v + 1`.
pub proof fn lemma_repeat_pow2_coordinates(m: (u32, u32), v: i32)
    requires
        WrapModeRepeatPow2::inv(m),
    ensures
        WrapModeRepeatPow2::output(WrapModeRepeatPow2::after_func(m, v)) as int == (v as int) % (
        m.0 as int + 1),
        v < i32::MAX ==> WrapModeRepeatPow2::output(
            WrapModeRepeatPow2::after_inc(WrapModeRepeatPow2::after_func(m, v)),
        ) as int == (v as int + 1) % (m.0 as int + 1),
{
    lemma_mask_wrap_is_remainder(v, m.0);
    if v < i32::MAX {
        WrapModeRepeatPow2::lemma_inc_continues_func(m, v);
        lemma_mask_wrap_is_remainder((v + 1) as i32, m.0);
    }
}

/// Repeat tiling with automatic masking hands out the remainder of `v` by
/// the image size: for every `v` when the size is a power of two, else for
/// `v` down to minus the tile offset; stepping after mapping `v` hands out
/// the remainder of `v + 1`.
pub proof fn lemma_repeat_auto_pow2_coordinates(m: (u32, u32, u32, u32), v: i32)
    requires
        WrapModeRepeatAutoPow2::inv(m),
        pow2_mask(m.0) != 0 || v >= -(tile_offset(m.0) as int),
    ensures
        WrapModeRepeatAutoPow2::output(WrapModeRepeatAutoPow2::after_func(m, v)) as int == (
        v as int) % (m.0 as int),
        v < i32::MAX ==> WrapModeRepeatAutoPow2::output(
            WrapModeRepeatAutoPow2::after_inc(WrapModeRepeatAutoPow2::after_func(m, v)),
        ) as int == (v as int + 1) % (m.0 as int),
{
    lemma_mask_bits(0, m.0);
    if m.2 != 0 {
        lemma_mask_wrap_is_remainder(v, m.2);
    } else {
        lemma_modulo_wrap_is_remainder(v, m.0);
    }
    if v < i32::MAX {
        WrapModeRepeatAutoPow2::lemma_inc_continues_func(m, v);
        if m.2 != 0 {
            lemma_mask_wrap_is_remainder((v + 1) as i32, m.2);
        } else {
            lemma_modulo_wrap_is_remainder((v + 1) as i32, m.0);
        }
    }
}

/// The coordinate that reflect tiling of an image `n` pixels wide gives
/// position `w` of the doubled tile `0..2n`: `w` on the image, `2n - 1 - w`
/// on its mirror image.
pub open spec fn reflected(w: int, n: int) -> int {
    if w >= n {
        2 * n - 1 - w
    } else {
        w
    }
}

/// Reflect tiling of an image `n` pixels wide hands out, for `v` down to
/// minus the tile offset, the remainder `w` of `v` by `2n` when `w < n` and
/// its mirror `2n - 1 - w` otherwise; stepping after mapping `v` does the
/// same for `v + 1`.
pub proof fn lemma_reflect_coordinates(m: (u32, u32, u32, u32), v: i32)
    requires
        WrapModeReflect::inv(m),
        v >= -(tile_offset(m.1) as int),
    ensures
        WrapModeReflect::output(WrapModeReflect::after_func(m, v)) as int == reflected(
            (v as int) % (2 * m.0),
            m.0 as int,
        ),
        v < i32::MAX ==> WrapModeReflect::output(
            WrapModeReflect::after_inc(WrapModeReflect::after_func(m, v)),
        ) as int == reflected((v as int + 1) % (2 * m.0), m.0 as int),
{
    lemma_modulo_wrap_is_remainder(v, m.1);
    if v < i32::MAX {
        WrapModeReflect::lemma_inc_continues_func(m, v);
        lemma_modulo_wrap_is_remainder((v + 1) as i32, m.1);
    }
}

/// Masked reflect tiling with an image of `n = mask / 2 + 1` pixels hands
/// out, for every `v`, the remainder `w` of `v` by `2n` when `w < n` and
/// its mirror `2n - 1 - w` otherwise; stepping after mapping `v` does the
/// same for `v + 1`.
pub proof fn lemma_reflect_pow2_coordinates(m: (u32, u32, u32), v: i32)
    requires
        WrapModeReflectPow2::inv(m),
    ensures
        m.1 + 1 == 2 * m.0,
        WrapModeReflectPow2::output(WrapModeReflectPow2::after_func(m, v)) as int == reflected(
            (v as int) % (2 * m.0),
            m.0 as int,
        ),
        v < i32::MAX ==> WrapModeReflectPow2::output(
            WrapModeReflectPow2::after_inc(WrapModeReflectPow2::after_func(m, v)),
        ) as int == reflected((v as int + 1) % (2 * m.0), m.0 as int),
{
    lemma_mask_bits(0, m.1);
    lemma_mask_split(0, m.1);
    lemma_mask_wrap_remainder_any(v, m.1);
    if v < i32::MAX {
        WrapModeReflectPow2::lemma_inc_continues_func(m, v);
        lemma_mask_wrap_remainder_any((v + 1) as i32, m.1);
    }
}

/// Reflect tiling with automatic masking hands out, for every `v` when
/// twice the image size is a power of two and else for `v` down to minus
/// the tile offset, the remainder `w` of `v` by `2n` when `w < n` and its
/// mirror `2n - 1 - w` otherwise; stepping after mapping `v` does the same
/// for `v + 1`.
pub proof fn lemma_reflect_auto_pow2_coordinates(m: (u32, u32, u32, u32, u32), v: i32)
    requires
        WrapModeReflectAutoPow2::inv(m),
        pow2_mask(m.1) != 0 || v >= -(tile_offset(m.1) as int),
    ensures
        WrapModeReflectAutoPow2::output(WrapModeReflectAutoPow2::after_func(m, v)) as int
            == reflected((v as int) % (2 * m.0), m.0 as int),
        v < i32::MAX ==> WrapModeReflectAutoPow2::output(
            WrapModeReflectAutoPow2::after_inc(WrapModeReflectAutoPow2::after_func(m, v)),
        ) as int == reflected((v as int + 1) % (2 * m.0), m.0 as int),
{
    lemma_mask_bits(0, m.1);
    if m.3 != 0 {
        lemma_mask_wrap_is_remainder(v, m.3);
    } else {
        lemma_modulo_wrap_is_remainder(v, m.1);
    }
    if v < i32::MAX {
        WrapModeReflectAutoPow2::lemma_inc_continues_func(m, v);
        if m.3 != 0 {
            lemma_mask_wrap_is_remainder((v + 1) as i32, m.3);
        } else {
            lemma_modulo_wrap_is_remainder((v + 1) as i32, m.1);
        }
    }
}

/// Masking a coordinate with `2^k - 1` (`k <= 32`) is its Euclidean
/// remainder by `2^k`.
proof fn lemma_mask_wrap_remainder_any(v: i32, m: u32)
    requires
        low_ones(m),
    ensures
        mask_wrap(v, m) as int == (v as int) % (m as int + 1),
{
    if m < 0xFFFF_FFFF {
        lemma_mask_wrap_is_remainder(v, m);
    } else {
        let x = v as u32;
        assert(x & 0xFFFF_FFFFu32 == x) by (bit_vector);
        assert(mask_wrap(v, m) == v as u32);
        lemma_sign_casts(v, 0);
        if v < 0 {
            vstd::arithmetic::div_mod::lemma_fundamental_div_mod_converse(
                v as int,
                0x1_0000_0000,
                -1,
                v as int + 0x1_0000_0000,
            );
        } else {
            vstd::arithmetic::div_mod::lemma_small_mod(v as nat, 0x1_0000_0000);
        }
    }
}

/// The buffer holds `pix`-byte pixels: a row has room for `width` of them.
pub open spec fn holds_pixels(rbuf: RowAccessor, pix: int) -> bool {
    rbuf.wf() && rbuf.width_spec() * pix <= rbuf.stride_spec()
}

/// The `pix` bytes at byte offset `off` of row `y`.
pub open spec fn bytes_at(rbuf: RowAccessor, y: int, off: int, pix: int) -> Seq<u8> {
    rbuf.row(y).subrange(off, off + pix)
}

/// `(x, y)` lies inside the image (dimensions read as `i32`).
pub open spec fn inside(rbuf: RowAccessor, x: i32, y: i32) -> bool {
    0 <= y < (rbuf.height_spec() as i32) && 0 <= x < (rbuf.width_spec() as i32)
}

/// A whole span of `len` pixels from `(x, y)` lies inside the image.
pub open spec fn span_inside(rbuf: RowAccessor, x: i32, y: i32, len: u32) -> bool {
    0 <= y < (rbuf.height_spec() as i32) && 0 <= x && x + (len as i32) <= (rbuf.width_spec() as i32)
}

/// A coordinate inside the image (read as `i32`) is inside it as `u32`.
proof fn lemma_inside(rbuf: RowAccessor, x: i32, y: i32, pix: int)
    requires
        holds_pixels(rbuf, pix),
        pix >= 0,
        0 <= y < (rbuf.height_spec() as i32),
        0 <= x < (rbuf.width_spec() as i32),
    ensures
        y < rbuf.height_spec(),
        x < rbuf.width_spec(),
        (x + 1) * pix <= rbuf.stride_spec() <= usize::MAX,
        (x + 1) * pix == x * pix + pix,
{
    lemma_sign_casts(0, rbuf.height_spec());
    lemma_sign_casts(0, rbuf.width_spec());
    vstd::arithmetic::mul::lemma_mul_inequality(x + 1, rbuf.width_spec() as int, pix);
    vstd::arithmetic::mul::lemma_mul_inequality(1, rbuf.height_spec() as int, rbuf.stride_spec() as int);
    vstd::arithmetic::mul::lemma_mul_is_distributive_add_other_way(pix, x as int, 1);
}

/// The bytes of row `y` from `off` to `off + pix`.
fn row_bytes<'a>(rbuf: &'a RowAccessor, y: u32, off: usize, pix: usize) -> (r: &'a [u8])
    requires
        rbuf.wf(),
        y < rbuf.height_spec(),
        off + pix <= rbuf.stride_spec(),
    ensures
        r@ == bytes_at(*rbuf, y as int, off as int, pix as int),
{
    let row = rbuf.row_slice(y);
    vstd::slice::slice_subrange(row, off, off + pix)
}

/// Image access that answers a background colour outside the image.
pub struct ImageAccessorClip<'a, const PIX_WIDTH: usize> {
    rbuf: &'a RowAccessor,
    bk_buf: Vec<u8>,
    x: i32,
    x0: i32,
    y: i32,
    fast_path: bool,
    pix_off: usize,
}

/// `bk` with its first bytes replaced by those of `c` (at most eight).
pub open spec fn overlay(bk: Seq<u8>, c: Seq<u8>) -> Seq<u8> {
    Seq::new(8, |i: int| if i < c.len() { c[i] } else { bk[i] })
}

impl<'a, const PIX_WIDTH: usize> ImageAccessorClip<'a, PIX_WIDTH> {
    pub closed spec fn rbuf_spec(&self) -> RowAccessor {
        *self.rbuf
    }

    /// The eight background bytes; the first `PIX_WIDTH` are the colour.
    pub closed spec fn background(&self) -> Seq<u8> {
        self.bk_buf@
    }

    pub closed spec fn x_spec(&self) -> i32 {
        self.x
    }

    pub closed spec fn x0_spec(&self) -> i32 {
        self.x0
    }

    pub closed spec fn y_spec(&self) -> i32 {
        self.y
    }

    /// Walking a span known to lie inside the image.
    pub closed spec fn fast_spec(&self) -> bool {
        self.fast_path
    }

    /// Byte offset in the row on the fast path.
    pub closed spec fn off_spec(&self) -> usize {
        self.pix_off
    }

    pub open spec fn wf(&self) -> bool {
        &&& holds_pixels(self.rbuf_spec(), PIX_WIDTH as int)
        &&& PIX_WIDTH <= 8
        &&& self.background().len() == 8
        &&& self.fast_spec() ==> {
            &&& 0 <= self.y_spec() < (self.rbuf_spec().height_spec() as i32)
            &&& self.x_spec() == self.x0_spec()
            &&& self.off_spec() + PIX_WIDTH <= self.rbuf_spec().stride_spec()
            &&& 0 <= self.x0_spec()
            &&& (self.x0_spec() + 1) * PIX_WIDTH <= self.rbuf_spec().stride_spec()
        }
    }

    /// The pixel at `(x, y)`, or the background colour outside the image.
    pub open spec fn pixel_at(&self, x: i32, y: i32) -> Seq<u8> {
        if inside(self.rbuf_spec(), x, y) {
            bytes_at(self.rbuf_spec(), y as int, x * PIX_WIDTH, PIX_WIDTH as int)
        } else {
            self.background().subrange(0, PIX_WIDTH as int)
        }
    }

    /// The pixel the accessor stands on.
    pub open spec fn current(&self) -> Seq<u8> {
        if self.fast_spec() {
            bytes_at(self.rbuf_spec(), self.y_spec() as int, self.off_spec() as int, PIX_WIDTH as int)
        } else {
            self.pixel_at(self.x_spec(), self.y_spec())
        }
    }

    /// An accessor over `rbuf` with background colour `bk_color` (its first
    /// eight bytes; the rest of the eight are zero).
    pub fn new(rbuf: &'a RowAccessor, bk_color: &[u8]) -> (r: Self)
        requires
            holds_pixels(*rbuf, PIX_WIDTH as int),
            PIX_WIDTH <= 8,
        ensures
            r.wf(),
            r.rbuf_spec() == *rbuf,
            r.background() == overlay(Seq::new(8, |i: int| 0u8), bk_color@),
            r.x_spec() == 0 && r.x0_spec() == 0 && r.y_spec() == 0,
            !r.fast_spec(),
            r.off_spec() == 0,
    {
        let mut acc = ImageAccessorClip {
            rbuf,
            bk_buf: vec![0u8, 0, 0, 0, 0, 0, 0, 0],
            x: 0,
            x0: 0,
            y: 0,
            fast_path: false,
            pix_off: 0,
        };
        acc.set_background(bk_color);
        acc
    }

    /// Replaces the first bytes of the background (at most eight) with
    /// those of `bk_color`.
    pub fn set_background(&mut self, bk_color: &[u8])
        requires
            old(self).background().len() == 8,
        ensures
            final(self).background() == overlay(old(self).background(), bk_color@),
            final(self).rbuf_spec() == old(self).rbuf_spec(),
            final(self).x_spec() == old(self).x_spec(),
            final(self).x0_spec() == old(self).x0_spec(),
            final(self).y_spec() == old(self).y_spec(),
            final(self).fast_spec() == old(self).fast_spec(),
            final(self).off_spec() == old(self).off_spec(),
    {
        let len = if bk_color.len() < 8 {
            bk_color.len()
        } else {
            8
        };
        let mut i: usize = 0;
        while i < len
            invariant
                len <= 8,
                len <= bk_color@.len(),
                len == 8 || len == bk_color@.len(),
                i <= len,
                self.bk_buf@.len() == 8,
                forall|j: int|
                    0 <= j < 8 ==> self.bk_buf@[j] == (if j < i {
                        bk_color@[j]
                    } else {
                        old(self).bk_buf@[j]
                    }),
                self.rbuf == old(self).rbuf,
                self.x == old(self).x,
                self.x0 == old(self).x0,
                self.y == old(self).y,
                self.fast_path == old(self).fast_path,
                self.pix_off == old(self).pix_off,
            decreases len - i,
        {
            self.bk_buf.set(i, bk_color[i]);
            i = i + 1;
        }
        assert(self.bk_buf@ =~= overlay(old(self).background(), bk_color@));
    }

    fn pixel(&self) -> (r: &[u8])
        requires
            self.wf(),
        ensures
            r@ == self.pixel_at(self.x, self.y),
    {
        if self.y >= 0 && self.y < self.rbuf.height() as i32 && self.x >= 0 && self.x
            < self.rbuf.width() as i32 {
            proof {
                lemma_inside(*self.rbuf, self.x, self.y, PIX_WIDTH as int);
            }
            row_bytes(self.rbuf, self.y as u32, self.x as usize * PIX_WIDTH, PIX_WIDTH)
        } else {
            vstd::slice::slice_subrange(self.bk_buf.as_slice(), 0, PIX_WIDTH)
        }
    }

    /// Starts a span of `len` pixels at `(x, y)` and answers its first pixel.
    /// When the whole span lies inside the image the accessor walks the row
    /// directly; otherwise it checks every pixel.
    pub fn span(&mut self, x: i32, y: i32, len: u32) -> (r: &[u8])
        requires
            old(self).wf(),
            0 <= y < (old(self).rbuf_spec().height_spec() as i32) && 0 <= x ==> x + (len as i32)
                <= i32::MAX,
            span_inside(old(self).rbuf_spec(), x, y, len) ==> (x + 1) * PIX_WIDTH
                <= old(self).rbuf_spec().stride_spec(),
        ensures
            final(self).wf(),
            final(self).rbuf_spec() == old(self).rbuf_spec(),
            final(self).background() == old(self).background(),
            final(self).x_spec() == x && final(self).x0_spec() == x && final(self).y_spec() == y,
            final(self).fast_spec() == span_inside(old(self).rbuf_spec(), x, y, len),
            final(self).fast_spec() ==> final(self).off_spec() == x * PIX_WIDTH,
            !final(self).fast_spec() ==> final(self).off_spec() == old(self).off_spec(),
            r@ == final(self).current(),
    {
        self.x = x;
        self.x0 = x;
        self.y = y;
        if y >= 0 && y < self.rbuf.height() as i32 && x >= 0 && (x + len as i32)
            <= self.rbuf.width() as i32 {
            proof {
                lemma_sign_casts(0, self.rbuf.height_spec());
                vstd::arithmetic::mul::lemma_mul_inequality(
                    1,
                    self.rbuf.height_spec() as int,
                    self.rbuf.stride_spec() as int,
                );
                vstd::arithmetic::mul::lemma_mul_is_distributive_add_other_way(
                    PIX_WIDTH as int,
                    x as int,
                    1,
                );
            }
            self.fast_path = true;
            self.pix_off = x as usize * PIX_WIDTH;
            row_bytes(self.rbuf, y as u32, self.pix_off, PIX_WIDTH)
        } else {
            self.fast_path = false;
            self.pixel()
        }
    }

    /// Steps one pixel to the right.
    pub fn next_x(&mut self) -> (r: &[u8])
        requires
            old(self).wf(),
            old(self).fast_spec() ==> old(self).off_spec() + 2 * PIX_WIDTH
                <= old(self).rbuf_spec().stride_spec(),
            !old(self).fast_spec() ==> old(self).x_spec() < i32::MAX,
        ensures
            final(self).wf(),
            final(self).rbuf_spec() == old(self).rbuf_spec(),
            final(self).background() == old(self).background(),
            final(self).x0_spec() == old(self).x0_spec(),
            final(self).y_spec() == old(self).y_spec(),
            final(self).fast_spec() == old(self).fast_spec(),
            old(self).fast_spec() ==> final(self).off_spec() == old(self).off_spec() + PIX_WIDTH
                && final(self).x_spec() == old(self).x_spec(),
            !old(self).fast_spec() ==> final(self).off_spec() == old(self).off_spec()
                && final(self).x_spec() == old(self).x_spec() + 1,
            r@ == final(self).current(),
    {
        if self.fast_path {
            self.pix_off = self.pix_off + PIX_WIDTH;
            row_bytes(self.rbuf, self.y as u32, self.pix_off, PIX_WIDTH)
        } else {
            self.x = self.x + 1;
            self.pixel()
        }
    }

    /// Steps to the start of the span on the next row.
    pub fn next_y(&mut self) -> (r: &[u8])
        requires
            old(self).wf(),
            old(self).y_spec() < i32::MAX,
        ensures
            final(self).wf(),
            final(self).rbuf_spec() == old(self).rbuf_spec(),
            final(self).background() == old(self).background(),
            final(self).x0_spec() == old(self).x0_spec(),
            final(self).x_spec() == old(self).x0_spec(),
            final(self).y_spec() == old(self).y_spec() + 1,
            final(self).fast_spec() == (old(self).fast_spec() && 0 <= final(self).y_spec() < (
            old(self).rbuf_spec().height_spec() as i32)),
            final(self).fast_spec() ==> final(self).off_spec() == old(self).x0_spec()
                * PIX_WIDTH,
            !final(self).fast_spec() ==> final(self).off_spec() == old(self).off_spec(),
            r@ == final(self).current(),
    {
        self.y = self.y + 1;
        self.x = self.x0;
        if self.fast_path && self.y >= 0 && self.y < self.rbuf.height() as i32 {
            proof {
                lemma_sign_casts(0, self.rbuf.height_spec());
                vstd::arithmetic::mul::lemma_mul_inequality(
                    1,
                    self.rbuf.height_spec() as int,
                    self.rbuf.stride_spec() as int,
                );
                vstd::arithmetic::mul::lemma_mul_is_distributive_add_other_way(
                    PIX_WIDTH as int,
                    self.x as int,
                    1,
                );
            }
            self.pix_off = self.x as usize * PIX_WIDTH;
            row_bytes(self.rbuf, self.y as u32, self.pix_off, PIX_WIDTH)
        } else {
            self.fast_path = false;
            self.pixel()
        }
    }
}
// ---------------------------------------------------------------------------

/// Image access without any boundary handling: the caller keeps every
/// coordinate inside the buffer.
pub struct ImageAccessorNoClip<'a, const PIX_WIDTH: usize> {
    rbuf: &'a RowAccessor,
    x: i32,
    y: i32,
    pix_off: usize,
}

impl<'a, const PIX_WIDTH: usize> ImageAccessorNoClip<'a, PIX_WIDTH> {
    pub closed spec fn rbuf_spec(&self) -> RowAccessor {
        *self.rbuf
    }

    pub closed spec fn x_spec(&self) -> i32 {
        self.x
    }

    pub closed spec fn y_spec(&self) -> i32 {
        self.y
    }

    /// Byte offset of the current pixel in its row.
    pub closed spec fn off_spec(&self) -> usize {
        self.pix_off
    }

    /// An accessor over `rbuf`, at `(0, 0)`.
    pub fn new(rbuf: &'a RowAccessor) -> (r: Self)
        ensures
            r.rbuf_spec() == *rbuf,
            r.x_spec() == 0 && r.y_spec() == 0 && r.off_spec() == 0,
    {
        ImageAccessorNoClip { rbuf, x: 0, y: 0, pix_off: 0 }
    }

    /// Answers the pixel at `(x, y)`; the span length is not used.
    pub fn span(&mut self, x: i32, y: i32, len: u32) -> (r: &[u8])
        requires
            old(self).rbuf_spec().wf(),
            0 <= y < old(self).rbuf_spec().height_spec(),
            0 <= x,
            x * PIX_WIDTH + PIX_WIDTH <= old(self).rbuf_spec().stride_spec(),
        ensures
            final(self).rbuf_spec() == old(self).rbuf_spec(),
            final(self).x_spec() == x && final(self).y_spec() == y,
            final(self).off_spec() == x * PIX_WIDTH,
            r@ == bytes_at(final(self).rbuf_spec(), y as int, x * PIX_WIDTH, PIX_WIDTH as int),
    {
        proof {
            vstd::arithmetic::mul::lemma_mul_inequality(
                1,
                self.rbuf.height_spec() as int,
                self.rbuf.stride_spec() as int,
            );
        }
        self.x = x;
        self.y = y;
        self.pix_off = x as usize * PIX_WIDTH;
        row_bytes(self.rbuf, y as u32, self.pix_off, PIX_WIDTH)
    }

    /// Steps one pixel to the right.
    pub fn next_x(&mut self) -> (r: &[u8])
        requires
            old(self).rbuf_spec().wf(),
            0 <= old(self).y_spec() < old(self).rbuf_spec().height_spec(),
            old(self).off_spec() + 2 * PIX_WIDTH <= old(self).rbuf_spec().stride_spec(),
        ensures
            final(self).rbuf_spec() == old(self).rbuf_spec(),
            final(self).x_spec() == old(self).x_spec(),
            final(self).y_spec() == old(self).y_spec(),
            final(self).off_spec() == old(self).off_spec() + PIX_WIDTH,
            r@ == bytes_at(
                final(self).rbuf_spec(),
                final(self).y_spec() as int,
                final(self).off_spec() as int,
                PIX_WIDTH as int,
            ),
    {
        self.pix_off = self.pix_off + PIX_WIDTH;
        row_bytes(self.rbuf, self.y as u32, self.pix_off, PIX_WIDTH)
    }

    /// Steps to the span's first pixel on the next row.
    pub fn next_y(&mut self) -> (r: &[u8])
        requires
            old(self).rbuf_spec().wf(),
            0 <= old(self).y_spec() + 1 < old(self).rbuf_spec().height_spec(),
            old(self).y_spec() < i32::MAX,
            0 <= old(self).x_spec(),
            old(self).x_spec() * PIX_WIDTH + PIX_WIDTH <= old(self).rbuf_spec().stride_spec(),
        ensures
            final(self).rbuf_spec() == old(self).rbuf_spec(),
            final(self).x_spec() == old(self).x_spec(),
            final(self).y_spec() == old(self).y_spec() + 1,
            final(self).off_spec() == old(self).x_spec() * PIX_WIDTH,
            r@ == bytes_at(
                final(self).rbuf_spec(),
                final(self).y_spec() as int,
                final(self).off_spec() as int,
                PIX_WIDTH as int,
            ),
    {
        proof {
            vstd::arithmetic::mul::lemma_mul_inequality(
                1,
                self.rbuf.height_spec() as int,
                self.rbuf.stride_spec() as int,
            );
        }
        self.y = self.y + 1;
        self.pix_off = self.x as usize * PIX_WIDTH;
        row_bytes(self.rbuf, self.y as u32, self.pix_off, PIX_WIDTH)
    }
}

// ---------------------------------------------------------------------------

/// `v` clamped into `0..=hi`.
pub open spec fn clamp(v: i32, hi: int) -> int {
    if v < 0 {
        0
    } else if v > hi {
        hi
    } else {
        v as int
    }
}

/// The image is non-empty and its dimensions fit in `i32`, so that edge
/// clamping is defined.
pub open spec fn clampable(rbuf: RowAccessor) -> bool {
    0 < rbuf.width_spec() <= i32::MAX && 0 < rbuf.height_spec() <= i32::MAX
}

/// Image access that clamps coordinates to the nearest edge pixel.
pub struct ImageAccessorClone<'a, const PIX_WIDTH: usize> {
    rbuf: &'a RowAccessor,
    x: i32,
    x0: i32,
    y: i32,
    fast_path: bool,
    pix_off: usize,
}

impl<'a, const PIX_WIDTH: usize> ImageAccessorClone<'a, PIX_WIDTH> {
    pub closed spec fn rbuf_spec(&self) -> RowAccessor {
        *self.rbuf
    }

    pub closed spec fn x_spec(&self) -> i32 {
        self.x
    }

    pub closed spec fn x0_spec(&self) -> i32 {
        self.x0
    }

    pub closed spec fn y_spec(&self) -> i32 {
        self.y
    }

    /// Walking a span known to lie inside the image.
    pub closed spec fn fast_spec(&self) -> bool {
        self.fast_path
    }

    /// Byte offset in the row on the fast path.
    pub closed spec fn off_spec(&self) -> usize {
        self.pix_off
    }

    pub open spec fn wf(&self) -> bool {
        &&& holds_pixels(self.rbuf_spec(), PIX_WIDTH as int)
        &&& self.fast_spec() ==> {
            &&& 0 <= self.y_spec() < (self.rbuf_spec().height_spec() as i32)
            &&& self.x_spec() == self.x0_spec()
            &&& self.off_spec() + PIX_WIDTH <= self.rbuf_spec().stride_spec()
            &&& 0 <= self.x0_spec()
            &&& (self.x0_spec() + 1) * PIX_WIDTH <= self.rbuf_spec().stride_spec()
        }
    }

    /// The pixel nearest to `(x, y)` inside the image.
    pub open spec fn pixel_at(&self, x: i32, y: i32) -> Seq<u8> {
        bytes_at(
            self.rbuf_spec(),
            clamp(y, self.rbuf_spec().height_spec() - 1),
            clamp(x, self.rbuf_spec().width_spec() - 1) * PIX_WIDTH,
            PIX_WIDTH as int,
        )
    }

    /// The pixel the accessor stands on.
    pub open spec fn current(&self) -> Seq<u8> {
        if self.fast_spec() {
            bytes_at(self.rbuf_spec(), self.y_spec() as int, self.off_spec() as int, PIX_WIDTH as int)
        } else {
            self.pixel_at(self.x_spec(), self.y_spec())
        }
    }

    /// An accessor over `rbuf`, at `(0, 0)`.
    pub fn new(rbuf: &'a RowAccessor) -> (r: Self)
        requires
            holds_pixels(*rbuf, PIX_WIDTH as int),
        ensures
            r.wf(),
            r.rbuf_spec() == *rbuf,
            r.x_spec() == 0 && r.x0_spec() == 0 && r.y_spec() == 0,
            !r.fast_spec(),
            r.off_spec() == 0,
    {
        ImageAccessorClone { rbuf, x: 0, x0: 0, y: 0, fast_path: false, pix_off: 0 }
    }

    fn pixel(&self) -> (r: &[u8])
        requires
            self.wf(),
            clampable(self.rbuf_spec()),
        ensures
            r@ == self.pixel_at(self.x, self.y),
    {
        proof {
            lemma_sign_casts(0, self.rbuf.width_spec());
            lemma_sign_casts(0, self.rbuf.height_spec());
        }
        let w1 = self.rbuf.width() as i32 - 1;
        let h1 = self.rbuf.height() as i32 - 1;
        let cx = if self.x < 0 {
            0
        } else if self.x > w1 {
            w1
        } else {
            self.x
        };
        let cy = if self.y < 0 {
            0
        } else if self.y > h1 {
            h1
        } else {
            self.y
        };
        proof {
            lemma_inside(*self.rbuf, cx, cy, PIX_WIDTH as int);
        }
        row_bytes(self.rbuf, cy as u32, cx as usize * PIX_WIDTH, PIX_WIDTH)
    }

    /// Starts a span of `len` pixels at `(x, y)` and answers its first pixel
    /// (the nearest edge pixel outside the image).
    pub fn span(&mut self, x: i32, y: i32, len: u32) -> (r: &[u8])
        requires
            old(self).wf(),
            0 <= y < (old(self).rbuf_spec().height_spec() as i32) && 0 <= x ==> x + (len as i32)
                <= i32::MAX,
            span_inside(old(self).rbuf_spec(), x, y, len) ==> (x + 1) * PIX_WIDTH
                <= old(self).rbuf_spec().stride_spec(),
            !span_inside(old(self).rbuf_spec(), x, y, len) ==> clampable(old(self).rbuf_spec()),
        ensures
            final(self).wf(),
            final(self).rbuf_spec() == old(self).rbuf_spec(),
            final(self).x_spec() == x && final(self).x0_spec() == x && final(self).y_spec() == y,
            final(self).fast_spec() == span_inside(old(self).rbuf_spec(), x, y, len),
            final(self).fast_spec() ==> final(self).off_spec() == x * PIX_WIDTH,
            !final(self).fast_spec() ==> final(self).off_spec() == old(self).off_spec(),
            r@ == final(self).current(),
    {
        self.x = x;
        self.x0 = x;
        self.y = y;
        if y >= 0 && y < self.rbuf.height() as i32 && x >= 0 && (x + len as i32)
            <= self.rbuf.width() as i32 {
            proof {
                lemma_sign_casts(0, self.rbuf.height_spec());
                vstd::arithmetic::mul::lemma_mul_inequality(
                    1,
                    self.rbuf.height_spec() as int,
                    self.rbuf.stride_spec() as int,
                );
                vstd::arithmetic::mul::lemma_mul_is_distributive_add_other_way(
                    PIX_WIDTH as int,
                    x as int,
                    1,
                );
            }
            self.fast_path = true;
            self.pix_off = x as usize * PIX_WIDTH;
            row_bytes(self.rbuf, y as u32, self.pix_off, PIX_WIDTH)
        } else {
            self.fast_path = false;
            self.pixel()
        }
    }

    /// Steps one pixel to the right.
    pub fn next_x(&mut self) -> (r: &[u8])
        requires
            old(self).wf(),
            old(self).fast_spec() ==> old(self).off_spec() + 2 * PIX_WIDTH
                <= old(self).rbuf_spec().stride_spec(),
            !old(self).fast_spec() ==> old(self).x_spec() < i32::MAX && clampable(
                old(self).rbuf_spec(),
            ),
        ensures
            final(self).wf(),
            final(self).rbuf_spec() == old(self).rbuf_spec(),
            final(self).x0_spec() == old(self).x0_spec(),
            final(self).y_spec() == old(self).y_spec(),
            final(self).fast_spec() == old(self).fast_spec(),
            old(self).fast_spec() ==> final(self).off_spec() == old(self).off_spec() + PIX_WIDTH
                && final(self).x_spec() == old(self).x_spec(),
            !old(self).fast_spec() ==> final(self).off_spec() == old(self).off_spec()
                && final(self).x_spec() == old(self).x_spec() + 1,
            r@ == final(self).current(),
    {
        if self.fast_path {
            self.pix_off = self.pix_off + PIX_WIDTH;
            row_bytes(self.rbuf, self.y as u32, self.pix_off, PIX_WIDTH)
        } else {
            self.x = self.x + 1;
            self.pixel()
        }
    }

    /// Steps to the start of the span on the next row.
    pub fn next_y(&mut self) -> (r: &[u8])
        requires
            old(self).wf(),
            old(self).y_spec() < i32::MAX,
            !(old(self).fast_spec() && 0 <= old(self).y_spec() + 1 < (
            old(self).rbuf_spec().height_spec() as i32)) ==> clampable(old(self).rbuf_spec()),
        ensures
            final(self).wf(),
            final(self).rbuf_spec() == old(self).rbuf_spec(),
            final(self).x0_spec() == old(self).x0_spec(),
            final(self).x_spec() == old(self).x0_spec(),
            final(self).y_spec() == old(self).y_spec() + 1,
            final(self).fast_spec() == (old(self).fast_spec() && 0 <= final(self).y_spec() < (
            old(self).rbuf_spec().height_spec() as i32)),
            final(self).fast_spec() ==> final(self).off_spec() == old(self).x0_spec()
                * PIX_WIDTH,
            !final(self).fast_spec() ==> final(self).off_spec() == old(self).off_spec(),
            r@ == final(self).current(),
    {
        self.y = self.y + 1;
        self.x = self.x0;
        if self.fast_path && self.y >= 0 && self.y < self.rbuf.height() as i32 {
            proof {
                lemma_sign_casts(0, self.rbuf.height_spec());
                vstd::arithmetic::mul::lemma_mul_inequality(
                    1,
                    self.rbuf.height_spec() as int,
                    self.rbuf.stride_spec() as int,
                );
                vstd::arithmetic::mul::lemma_mul_is_distributive_add_other_way(
                    PIX_WIDTH as int,
                    self.x as int,
                    1,
                );
            }
            self.pix_off = self.x as usize * PIX_WIDTH;
            row_bytes(self.rbuf, self.y as u32, self.pix_off, PIX_WIDTH)
        } else {
            self.fast_path = false;
            self.pixel()
        }
    }
}

// ---------------------------------------------------------------------------

/// Image access that tiles the plane with the image through wrap modes.
pub struct ImageAccessorWrap<'a, const PIX_WIDTH: usize, WX: WrapMode, WY: WrapMode> {
    rbuf: &'a RowAccessor,
    x: i32,
    wrap_x: WX,
    wrap_y: WY,
    row_y: u32,
}

impl<'a, const PIX_WIDTH: usize, WX: WrapMode, WY: WrapMode> ImageAccessorWrap<
    'a,
    PIX_WIDTH,
    WX,
    WY,
> {
    pub closed spec fn rbuf_spec(&self) -> RowAccessor {
        *self.rbuf
    }

    pub closed spec fn x_spec(&self) -> i32 {
        self.x
    }

    /// State of the horizontal wrap mode.
    pub closed spec fn wrap_x_view(&self) -> WX::V {
        self.wrap_x@
    }

    /// State of the vertical wrap mode.
    pub closed spec fn wrap_y_view(&self) -> WY::V {
        self.wrap_y@
    }

    /// The row the accessor reads from.
    pub closed spec fn row_y_spec(&self) -> u32 {
        self.row_y
    }

    pub open spec fn wf(&self) -> bool {
        &&& holds_pixels(self.rbuf_spec(), PIX_WIDTH as int)
        &&& WX::inv(self.wrap_x_view())
        &&& WY::inv(self.wrap_y_view())
        &&& self.rbuf_spec().width_spec() > 0 ==> WX::limit(self.wrap_x_view())
            <= self.rbuf_spec().width_spec()
        &&& self.rbuf_spec().height_spec() > 0 ==> WY::limit(self.wrap_y_view())
            <= self.rbuf_spec().height_spec() && self.row_y_spec()
            < self.rbuf_spec().height_spec()
    }

    /// The image is non-empty, so every wrapped coordinate has a pixel.
    pub open spec fn nonempty(&self) -> bool {
        self.rbuf_spec().width_spec() > 0 && self.rbuf_spec().height_spec() > 0
    }

    /// The pixel at wrapped column `wx` of the current row.
    pub open spec fn pixel_at(&self, wx: u32) -> Seq<u8> {
        bytes_at(self.rbuf_spec(), self.row_y_spec() as int, wx * PIX_WIDTH, PIX_WIDTH as int)
    }

    /// An accessor over `rbuf` with wrap modes built for its width and height.
    pub fn new(rbuf: &'a RowAccessor) -> (r: Self)
        requires
            holds_pixels(*rbuf, PIX_WIDTH as int),
            WX::accepts(rbuf.width_spec()),
            WY::accepts(rbuf.height_spec()),
        ensures
            r.wf(),
            r.rbuf_spec() == *rbuf,
            r.x_spec() == 0,
            r.wrap_x_view() == WX::initial(rbuf.width_spec()),
            r.wrap_y_view() == WY::initial(rbuf.height_spec()),
            r.row_y_spec() == 0,
    {
        ImageAccessorWrap {
            rbuf,
            x: 0,
            wrap_x: WX::new(rbuf.width()),
            wrap_y: WY::new(rbuf.height()),
            row_y: 0,
        }
    }

    /// The bytes of the pixel at wrapped column `wx` of row `row_y`.
    fn wrapped_pixel(&self, wx: u32) -> (r: &[u8])
        requires
            self.wf(),
            self.nonempty(),
            wx < self.rbuf_spec().width_spec(),
        ensures
            r@ == self.pixel_at(wx),
    {
        proof {
            lemma_sign_casts(0, self.rbuf.width_spec());
            vstd::arithmetic::mul::lemma_mul_inequality(
                wx as int + 1,
                self.rbuf.width_spec() as int,
                PIX_WIDTH as int,
            );
            vstd::arithmetic::mul::lemma_mul_inequality(
                1,
                self.rbuf.height_spec() as int,
                self.rbuf.stride_spec() as int,
            );
            vstd::arithmetic::mul::lemma_mul_is_distributive_add_other_way(
                PIX_WIDTH as int,
                wx as int,
                1,
            );
        }
        row_bytes(self.rbuf, self.row_y, wx as usize * PIX_WIDTH, PIX_WIDTH)
    }

    /// Answers the pixel of the tiled plane at `(x, y)`; the span length is
    /// not used.
    pub fn span(&mut self, x: i32, y: i32, len: u32) -> (r: &[u8])
        requires
            old(self).wf(),
            old(self).nonempty(),
        ensures
            final(self).wf(),
            final(self).rbuf_spec() == old(self).rbuf_spec(),
            final(self).x_spec() == x,
            final(self).wrap_y_view() == WY::after_func(old(self).wrap_y_view(), y),
            final(self).row_y_spec() == WY::output(final(self).wrap_y_view()),
            final(self).wrap_x_view() == WX::after_func(old(self).wrap_x_view(), x),
            r@ == final(self).pixel_at(WX::output(final(self).wrap_x_view())),
    {
        self.x = x;
        self.row_y = self.wrap_y.func(y);
        let wx = self.wrap_x.func(x);
        self.wrapped_pixel(wx)
    }

    /// Steps one pixel to the right in the tiled plane.
    pub fn next_x(&mut self) -> (r: &[u8])
        requires
            old(self).wf(),
            old(self).nonempty(),
            WX::can_inc(old(self).wrap_x_view()),
        ensures
            final(self).wf(),
            final(self).rbuf_spec() == old(self).rbuf_spec(),
            final(self).x_spec() == old(self).x_spec(),
            final(self).wrap_y_view() == old(self).wrap_y_view(),
            final(self).row_y_spec() == old(self).row_y_spec(),
            final(self).wrap_x_view() == WX::after_inc(old(self).wrap_x_view()),
            r@ == final(self).pixel_at(WX::output(final(self).wrap_x_view())),
    {
        let wx = self.wrap_x.inc();
        self.wrapped_pixel(wx)
    }

    /// Steps to the next row of the tiled plane, back at the span's start.
    pub fn next_y(&mut self) -> (r: &[u8])
        requires
            old(self).wf(),
            old(self).nonempty(),
            WY::can_inc(old(self).wrap_y_view()),
        ensures
            final(self).wf(),
            final(self).rbuf_spec() == old(self).rbuf_spec(),
            final(self).x_spec() == old(self).x_spec(),
            final(self).wrap_y_view() == WY::after_inc(old(self).wrap_y_view()),
            final(self).row_y_spec() == WY::output(final(self).wrap_y_view()),
            final(self).wrap_x_view() == WX::after_func(old(self).wrap_x_view(), old(self).x_spec()),
            r@ == final(self).pixel_at(WX::output(final(self).wrap_x_view())),
    {
        self.row_y = self.wrap_y.inc();
        let wx = self.wrap_x.func(self.x);
        self.wrapped_pixel(wx)
    }
}

} // verus!
