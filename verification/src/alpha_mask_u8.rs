//! Alpha masks: coverage values modulated by an 8-bit mask read from a
//! rendering buffer, with clipping (`AlphaMaskU8`) or without
//! (`AmaskNoClipU8`).
use crate::fixed_point::lemma_u32_shr;
use crate::rendering_buffer::RowAccessor;
use vstd::prelude::*;

verus! {

/// Computes a mask value from the bytes of a pixel.
pub trait MaskFunction {
    /// How many leading bytes of a pixel the function reads.
    spec fn reads(&self) -> nat;

    /// The mask value of the pixel whose bytes start `p`.
    spec fn value(&self, p: Seq<u8>) -> u8;

    fn calculate(&self, p: &[u8]) -> (r: u8)
        requires
            p@.len() >= self.reads(),
        ensures
            r == self.value(p@),
    ;
}

/// The mask is the first byte of the pixel.
#[derive(Clone, Copy, Default)]
pub struct OneComponentMask;

impl MaskFunction for OneComponentMask {
    open spec fn reads(&self) -> nat {
        1
    }

    open spec fn value(&self, p: Seq<u8>) -> u8 {
        p[0]
    }

    fn calculate(&self, p: &[u8]) -> (r: u8) {
        p[0]
    }
}

/// The mask is the luminance of three channels at the given byte offsets:
/// `(77 r + 150 g + 29 b) >> 8`.
#[derive(Clone, Copy)]
pub struct RgbToGrayMask {
    pub r_offset: usize,
    pub g_offset: usize,
    pub b_offset: usize,
}

/// Integer luminance with weights summing to 256.
pub open spec fn gray_of(r: u8, g: u8, b: u8) -> u8 {
    ((r * 77 + g * 150 + b * 29) / 256) as u8
}

impl RgbToGrayMask {
    pub fn new(r: usize, g: usize, b: usize) -> (m: Self)
        ensures
            m.r_offset == r && m.g_offset == g && m.b_offset == b,
    {
        RgbToGrayMask { r_offset: r, g_offset: g, b_offset: b }
    }
}

impl MaskFunction for RgbToGrayMask {
    open spec fn reads(&self) -> nat {
        if self.r_offset >= self.g_offset && self.r_offset >= self.b_offset {
            self.r_offset as nat + 1
        } else if self.g_offset >= self.b_offset {
            self.g_offset as nat + 1
        } else {
            self.b_offset as nat + 1
        }
    }

    open spec fn value(&self, p: Seq<u8>) -> u8 {
        gray_of(p[self.r_offset as int], p[self.g_offset as int], p[self.b_offset as int])
    }

    fn calculate(&self, p: &[u8]) -> (r: u8) {
        let s: u32 = p[self.r_offset] as u32 * 77 + p[self.g_offset] as u32 * 150
            + p[self.b_offset] as u32 * 29;
        proof {
            lemma_u32_shr(s);
        }
        (s >> 8) as u8
    }
}

/// The one-component mask function reads one byte and gives it unchanged.
pub proof fn lemma_one_component_value(f: OneComponentMask, p: Seq<u8>)
    ensures
        f.reads() == 1,
        p.len() >= 1 ==> f.value(p) == p[0],
{
}

/// The gray mask function of offsets `(r, g, b)` reads the bytes up to the
/// largest offset and gives the luminance `(77 p[r] + 150 p[g] + 29 p[b])
/// >> 8`, the red byte weighted 77 and the blue byte 29 whatever the order
/// of the offsets; it lies between the darkest and brightest of the three
/// bytes.
pub proof fn lemma_rgb_to_gray_value(f: RgbToGrayMask, p: Seq<u8>)
    requires
        p.len() > f.r_offset,
        p.len() > f.g_offset,
        p.len() > f.b_offset,
    ensures
        p.len() >= f.reads(),
        f.reads() > f.r_offset && f.reads() > f.g_offset && f.reads() > f.b_offset,
        f.value(p) as int == (77 * p[f.r_offset as int] + 150 * p[f.g_offset as int] + 29
            * p[f.b_offset as int]) / 256,
        ({
            let (r, g, b) = (p[f.r_offset as int], p[f.g_offset as int], p[f.b_offset as int]);
            &&& (r <= g && r <= b) || (g <= r && g <= b) || (b <= r && b <= g)
            &&& f.value(p) >= (if r <= g && r <= b { r } else if g <= b { g } else { b })
            &&& f.value(p) <= (if r >= g && r >= b { r } else if g >= b { g } else { b })
        }),
{
    let (r, g, b) = (p[f.r_offset as int], p[f.g_offset as int], p[f.b_offset as int]);
    let lo: int = if r <= g && r <= b { r as int } else if g <= b { g as int } else { b as int };
    let hi: int = if r >= g && r >= b { r as int } else if g >= b { g as int } else { b as int };
    let s = 77 * r + 150 * g + 29 * b;
    assert(256 * lo <= s <= 256 * hi) by (nonlinear_arith)
        requires
            s == 77 * r + 150 * g + 29 * b,
            lo <= r <= hi,
            lo <= g <= hi,
            lo <= b <= hi,
    ;
    assert(lo <= s / 256 <= hi) by (nonlinear_arith)
        requires
            256 * lo <= s <= 256 * hi,
            0 <= lo,
    ;
}

/// A coverage value scaled by a mask value: `(255 + cover * mask) >> 8`.
pub open spec fn mask_combine(cover: u8, mask: u8) -> u8 {
    ((255 + cover * mask) / 256) as u8
}

/// What a span operation leaves in a cell: the mask itself, or the cell's
/// coverage combined with it.
pub open spec fn span_cell(old_cover: u8, mask: u8, combine: bool) -> u8 {
    if combine {
        mask_combine(old_cover, mask)
    } else {
        mask
    }
}

/// A zero mask clears any coverage.
proof fn lemma_combine_zero(cover: u8)
    ensures
        mask_combine(cover, 0) == 0,
{
    assert(cover * 0 == 0);
}

/// Computes `mask_combine(cover, mask)`.
fn combine_cover(cover: u8, mask: u8) -> (r: u8)
    ensures
        r == mask_combine(cover, mask),
{
    assert(cover * mask <= 255 * 255) by (nonlinear_arith)
        requires
            cover <= 255,
            mask <= 255,
    ;
    let s: u32 = 255 + cover as u32 * mask as u32;
    proof {
        lemma_u32_shr(s);
    }
    (s >> 8) as u8
}

/// Access to a mask by pixel and by horizontal or vertical span.
pub trait AlphaMask {
    /// The mask value at `(x, y)`.
    spec fn value_at(&self, x: int, y: int) -> u8;

    /// `(x, y)` can be read.
    spec fn readable(&self, x: int, y: int) -> bool;

    /// A horizontal span of `len` cells from `(x, y)` can be processed.
    spec fn hspan_ok(&self, x: int, y: int, len: int) -> bool;

    /// A vertical span of `len` cells from `(x, y)` can be processed.
    spec fn vspan_ok(&self, x: int, y: int, len: int) -> bool;

    fn pixel(&self, x: i32, y: i32) -> (r: u8)
        requires
            self.readable(x as int, y as int),
        ensures
            r == self.value_at(x as int, y as int),
    ;

    fn combine_pixel(&self, x: i32, y: i32, val: u8) -> (r: u8)
        requires
            self.readable(x as int, y as int),
        ensures
            r == mask_combine(val, self.value_at(x as int, y as int)),
    ;

    /// Writes the mask values of the span into `dst`.
    fn fill_hspan(&self, x: i32, y: i32, dst: &mut [u8])
        requires
            self.hspan_ok(x as int, y as int, old(dst)@.len() as int),
        ensures
            final(dst)@.len() == old(dst)@.len(),
            forall|i: int|
                0 <= i < old(dst)@.len() ==> final(dst)@[i] == self.value_at(x + i, y as int),
    ;

    /// Scales the coverages in `dst` by the mask values of the span.
    fn combine_hspan(&self, x: i32, y: i32, dst: &mut [u8])
        requires
            self.hspan_ok(x as int, y as int, old(dst)@.len() as int),
        ensures
            final(dst)@.len() == old(dst)@.len(),
            forall|i: int|
                0 <= i < old(dst)@.len() ==> final(dst)@[i] == mask_combine(
                    old(dst)@[i],
                    self.value_at(x + i, y as int),
                ),
    ;

    /// Writes the mask values of the vertical span into `dst`.
    fn fill_vspan(&self, x: i32, y: i32, dst: &mut [u8])
        requires
            self.vspan_ok(x as int, y as int, old(dst)@.len() as int),
        ensures
            final(dst)@.len() == old(dst)@.len(),
            forall|i: int|
                0 <= i < old(dst)@.len() ==> final(dst)@[i] == self.value_at(x as int, y + i),
    ;

    /// Scales the coverages in `dst` by the mask values of the vertical span.
    fn combine_vspan(&self, x: i32, y: i32, dst: &mut [u8])
        requires
            self.vspan_ok(x as int, y as int, old(dst)@.len() as int),
        ensures
            final(dst)@.len() == old(dst)@.len(),
            forall|i: int|
                0 <= i < old(dst)@.len() ==> final(dst)@[i] == mask_combine(
                    old(dst)@[i],
                    self.value_at(x as int, y + i),
                ),
    ;
}

/// Sets `dst[from..to]` to zero.
fn zero_range(dst: &mut [u8], from: usize, to: usize)
    requires
        from <= to <= old(dst)@.len(),
    ensures
        final(dst)@.len() == old(dst)@.len(),
        forall|k: int|
            0 <= k < old(dst)@.len() ==> final(dst)@[k] == if from <= k < to {
                0
            } else {
                old(dst)@[k]
            },
{
    let mut i = from;
    while i < to
        invariant
            from <= i <= to <= dst@.len(),
            dst@.len() == old(dst)@.len(),
            forall|k: int|
                0 <= k < dst@.len() ==> dst@[k] == if from <= k < i {
                    0
                } else {
                    old(dst)@[k]
                },
        decreases to - i,
    {
        dst[i] = 0;
        i = i + 1;
    }
}

/// The byte offset of the mask component of pixel `x`.
pub open spec fn mask_offset(x: int, step: int, offset: int) -> int {
    x * step + offset
}

/// The mask function applied to pixel `x` of row `y`.
pub open spec fn mask_of<MF: MaskFunction>(
    rbuf: RowAccessor,
    mf: MF,
    x: int,
    y: int,
    step: int,
    offset: int,
) -> u8 {
    mf.value(rbuf.row(y).subrange(mask_offset(x, step, offset), rbuf.stride_spec() as int))
}

/// Reads the mask function at pixel `x` of row `y`.
fn read_mask<MF: MaskFunction>(
    rbuf: &RowAccessor,
    mf: &MF,
    x: usize,
    y: u32,
    step: usize,
    offset: usize,
) -> (r: u8)
    requires
        rbuf.wf(),
        y < rbuf.height_spec(),
        mask_offset(x as int, step as int, offset as int) + mf.reads() <= rbuf.stride_spec(),
    ensures
        r == mask_of(*rbuf, *mf, x as int, y as int, step as int, offset as int),
{
    proof {
        vstd::arithmetic::mul::lemma_mul_nonnegative(x as int, step as int);
    }
    let row = rbuf.row_slice(y);
    let off = x * step + offset;
    let tail = vstd::slice::slice_subrange(row, off, row.len());
    mf.calculate(tail)
}

/// Reads the mask function at byte offset `off` of row `y`.
fn read_mask_at<MF: MaskFunction>(rbuf: &RowAccessor, mf: &MF, off: usize, y: u32) -> (r: u8)
    requires
        rbuf.wf(),
        y < rbuf.height_spec(),
        off + mf.reads() <= rbuf.stride_spec(),
    ensures
        r == mf.value(rbuf.row(y as int).subrange(off as int, rbuf.stride_spec() as int)),
{
    let row = rbuf.row_slice(y);
    let tail = vstd::slice::slice_subrange(row, off, row.len());
    mf.calculate(tail)
}

// ---------------------------------------------------------------------------

/// An alpha mask over a rendering buffer that reads as zero outside it.
/// `STEP` is the number of bytes per pixel and `OFFSET` the byte offset of
/// the mask component within a pixel.
pub struct AlphaMaskU8<'a, const STEP: usize, const OFFSET: usize, MF: MaskFunction> {
    rbuf: &'a RowAccessor,
    mask_function: MF,
}

impl<'a, const STEP: usize, const OFFSET: usize, MF: MaskFunction> AlphaMaskU8<
    'a,
    STEP,
    OFFSET,
    MF,
> {
    pub closed spec fn rbuf_spec(&self) -> RowAccessor {
        *self.rbuf
    }

    pub closed spec fn mf_spec(&self) -> MF {
        self.mask_function
    }

    /// The buffer's dimensions fit in `i32` and every pixel's mask bytes lie
    /// inside its row.
    pub open spec fn wf(&self) -> bool {
        &&& self.rbuf_spec().wf()
        &&& self.rbuf_spec().width_spec() <= i32::MAX
        &&& self.rbuf_spec().height_spec() <= i32::MAX
        &&& self.rbuf_spec().width_spec() > 0 ==> mask_offset(
            self.rbuf_spec().width_spec() - 1,
            STEP as int,
            OFFSET as int,
        ) + self.mf_spec().reads() <= self.rbuf_spec().stride_spec()
    }

    pub fn new(rbuf: &'a RowAccessor, mask_function: MF) -> (r: Self)
        ensures
            r.rbuf_spec() == *rbuf,
            r.mf_spec() == mask_function,
    {
        AlphaMaskU8 { rbuf, mask_function }
    }

    pub fn mask_function(&self) -> (r: &MF)
        ensures
            *r == self.mf_spec(),
    {
        &self.mask_function
    }

    /// Reads the mask at an in-range pixel.
    fn mask_at(&self, x: usize, y: u32) -> (r: u8)
        requires
            self.wf(),
            x < self.rbuf_spec().width_spec(),
            y < self.rbuf_spec().height_spec(),
        ensures
            r == mask_of(self.rbuf_spec(), self.mf_spec(), x as int, y as int, STEP as int, OFFSET as int),
    {
        proof {
            vstd::arithmetic::mul::lemma_mul_inequality(
                x as int,
                self.rbuf.width_spec() - 1,
                STEP as int,
            );
        }
        read_mask(self.rbuf, &self.mask_function, x, y, STEP, OFFSET)
    }

    /// Processes a span of `dst.len()` cells starting at `(x, y)`, along `y`
    /// when `vertical` and along `x` otherwise.
    fn apply_span(&self, x: i32, y: i32, dst: &mut [u8], vertical: bool, combine: bool)
        requires
            self.wf(),
            old(dst)@.len() <= i32::MAX,
            vertical && y >= 0 ==> y + old(dst)@.len() <= i32::MAX,
            !vertical && x >= 0 ==> x + old(dst)@.len() <= i32::MAX,
        ensures
            final(dst)@.len() == old(dst)@.len(),
            forall|i: int|
                0 <= i < old(dst)@.len() ==> final(dst)@[i] == span_cell(
                    old(dst)@[i],
                    if vertical {
                        self.value_at(x as int, y + i)
                    } else {
                        self.value_at(x + i, y as int)
                    },
                    combine,
                ),
    {
        let len = dst.len();
        proof {
            crate::fixed_point::lemma_sign_casts(0, self.rbuf.width_spec());
            crate::fixed_point::lemma_sign_casts(0, self.rbuf.height_spec());
        }
        let num_pix = len as i32;
        let xmax = self.rbuf.width() as i32 - 1;
        let ymax = self.rbuf.height() as i32 - 1;
        // `start` runs along the span, `across` is the fixed coordinate.
        let (start0, across, along_max, across_max) = if vertical {
            (y, x, ymax, xmax)
        } else {
            (x, y, xmax, ymax)
        };
        let ghost expected = Seq::new(
            len as nat,
            |i: int|
                span_cell(
                    old(dst)@[i],
                    if vertical {
                        self.value_at(x as int, y + i)
                    } else {
                        self.value_at(x + i, y as int)
                    },
                    combine,
                ),
        );
        // Cells whose pixel lies outside the image end up zero.
        assert forall|i: int|
            0 <= i < len && (across < 0 || across > across_max || start0 + i < 0 || start0 + i
                > along_max) implies expected[i] == 0 by {}
        // Inside the image, a cell gets the mask of its pixel.
        assert forall|i: int|
            0 <= i < len && 0 <= across <= across_max && 0 <= start0 + i <= along_max implies
            expected[i] == span_cell(
                old(dst)@[i],
                mask_of(
                    self.rbuf_spec(),
                    self.mf_spec(),
                    if vertical {
                        across as int
                    } else {
                        start0 + i
                    },
                    if vertical {
                        start0 + i
                    } else {
                        across as int
                    },
                    STEP as int,
                    OFFSET as int,
                ),
                combine,
            ) by {}
        let mut count = num_pix;
        let mut covers_off: usize = 0;
        let mut start = start0;
        if across < 0 || across > across_max {
            zero_range(dst, 0, len);
            assert(dst@ =~= expected);
            return;
        }
        if start < 0 {
            count = count + start;
            if count <= 0 {
                zero_range(dst, 0, len);
                assert(dst@ =~= expected);
                return;
            }
            zero_range(dst, 0, (-start) as usize);
            covers_off = (-start) as usize;
            start = 0;
        }
        if start + count > along_max + 1 {
            let rest = (start + count) - (along_max + 1);
            count = count - rest;
            if count <= 0 {
                zero_range(dst, 0, len);
                assert(dst@ =~= expected);
                return;
            }
            zero_range(dst, covers_off + count as usize, len);
        }
        let n = count as usize;
        assert forall|k: int| 0 <= k < len && !(covers_off <= k < covers_off + n) implies dst@[k]
            == expected[k] by {}
        let mut i: usize = 0;
        while i < n
            invariant
                self.wf(),
                dst@.len() == len,
                len == expected.len(),
                0 <= start,
                covers_off + n <= len,
                start as int == start0 + covers_off,
                start + n <= along_max + 1,
                along_max == if vertical {
                    self.rbuf_spec().height_spec() - 1
                } else {
                    self.rbuf_spec().width_spec() - 1
                },
                across_max == if vertical {
                    self.rbuf_spec().width_spec() - 1
                } else {
                    self.rbuf_spec().height_spec() - 1
                },
                i <= n,
                0 <= across <= across_max,
                forall|j: int|
                    0 <= j < len && 0 <= across <= across_max && 0 <= start0 + j <= along_max
                        ==> expected[j] == span_cell(
                        old(dst)@[j],
                        mask_of(
                            self.rbuf_spec(),
                            self.mf_spec(),
                            if vertical {
                                across as int
                            } else {
                                start0 + j
                            },
                            if vertical {
                                start0 + j
                            } else {
                                across as int
                            },
                            STEP as int,
                            OFFSET as int,
                        ),
                        combine,
                    ),
                forall|k: int|
                    0 <= k < len ==> dst@[k] == if covers_off + i <= k < covers_off + n {
                        old(dst)@[k]
                    } else {
                        expected[k]
                    },
            decreases n - i,
        {
            let m = if vertical {
                self.mask_at(across as usize, (start as usize + i) as u32)
            } else {
                self.mask_at(start as usize + i, across as u32)
            };
            let k = covers_off + i;
            if combine {
                dst[k] = combine_cover(dst[k], m);
            } else {
                dst[k] = m;
            }
            i = i + 1;
        }
        assert(dst@ =~= expected);
    }
}

impl<'a, const STEP: usize, const OFFSET: usize, MF: MaskFunction> AlphaMask for AlphaMaskU8<
    'a,
    STEP,
    OFFSET,
    MF,
> {
    /// The mask at an in-image pixel, zero elsewhere.
    open spec fn value_at(&self, x: int, y: int) -> u8 {
        if 0 <= x < self.rbuf_spec().width_spec() && 0 <= y < self.rbuf_spec().height_spec() {
            mask_of(self.rbuf_spec(), self.mf_spec(), x, y, STEP as int, OFFSET as int)
        } else {
            0
        }
    }

    open spec fn readable(&self, x: int, y: int) -> bool {
        self.wf()
    }

    open spec fn hspan_ok(&self, x: int, y: int, len: int) -> bool {
        &&& self.wf()
        &&& len <= i32::MAX
        &&& x >= 0 ==> x + len <= i32::MAX
    }

    open spec fn vspan_ok(&self, x: int, y: int, len: int) -> bool {
        &&& self.wf()
        &&& len <= i32::MAX
        &&& y >= 0 ==> y + len <= i32::MAX
    }

    fn pixel(&self, x: i32, y: i32) -> (r: u8) {
        proof {
            crate::fixed_point::lemma_sign_casts(0, self.rbuf.width_spec());
            crate::fixed_point::lemma_sign_casts(0, self.rbuf.height_spec());
        }
        if x >= 0 && y >= 0 && x < self.rbuf.width() as i32 && y < self.rbuf.height() as i32 {
            self.mask_at(x as usize, y as u32)
        } else {
            0
        }
    }

    fn combine_pixel(&self, x: i32, y: i32, val: u8) -> (r: u8) {
        proof {
            crate::fixed_point::lemma_sign_casts(0, self.rbuf.width_spec());
            crate::fixed_point::lemma_sign_casts(0, self.rbuf.height_spec());
        }
        if x >= 0 && y >= 0 && x < self.rbuf.width() as i32 && y < self.rbuf.height() as i32 {
            combine_cover(val, self.mask_at(x as usize, y as u32))
        } else {
            proof {
                lemma_combine_zero(val);
            }
            0
        }
    }

    fn fill_hspan(&self, x: i32, y: i32, dst: &mut [u8]) {
        self.apply_span(x, y, dst, false, false);
    }

    fn combine_hspan(&self, x: i32, y: i32, dst: &mut [u8]) {
        self.apply_span(x, y, dst, false, true);
    }

    fn fill_vspan(&self, x: i32, y: i32, dst: &mut [u8]) {
        self.apply_span(x, y, dst, true, false);
    }

    fn combine_vspan(&self, x: i32, y: i32, dst: &mut [u8]) {
        self.apply_span(x, y, dst, true, true);
    }
}

// ---------------------------------------------------------------------------

/// An alpha mask over a rendering buffer without clipping: every pixel read
/// must lie inside the buffer.
pub struct AmaskNoClipU8<'a, const STEP: usize, const OFFSET: usize, MF: MaskFunction> {
    rbuf: &'a RowAccessor,
    mask_function: MF,
}

impl<'a, const STEP: usize, const OFFSET: usize, MF: MaskFunction> AmaskNoClipU8<
    'a,
    STEP,
    OFFSET,
    MF,
> {
    pub closed spec fn rbuf_spec(&self) -> RowAccessor {
        *self.rbuf
    }

    pub closed spec fn mf_spec(&self) -> MF {
        self.mask_function
    }

    pub fn new(rbuf: &'a RowAccessor, mask_function: MF) -> (r: Self)
        ensures
            r.rbuf_spec() == *rbuf,
            r.mf_spec() == mask_function,
    {
        AmaskNoClipU8 { rbuf, mask_function }
    }

    pub fn mask_function(&self) -> (r: &MF)
        ensures
            *r == self.mf_spec(),
    {
        &self.mask_function
    }

    /// Processes a horizontal span of `dst.len()` cells starting at `(x, y)`.
    fn apply_hspan(&self, x: i32, y: i32, dst: &mut [u8], combine: bool)
        requires
            self.hspan_ok(x as int, y as int, old(dst)@.len() as int),
        ensures
            final(dst)@.len() == old(dst)@.len(),
            forall|i: int|
                0 <= i < old(dst)@.len() ==> final(dst)@[i] == span_cell(
                    old(dst)@[i],
                    self.value_at(x + i, y as int),
                    combine,
                ),
    {
        let len = dst.len();
        let mut off: usize = 0;
        if len > 0 {
            assert(self.readable(x as int, y as int));
            proof {
                vstd::arithmetic::mul::lemma_mul_nonnegative(x as int, STEP as int);
            }
            off = x as usize * STEP + OFFSET;
        }
        let mut i: usize = 0;
        while i < len
            invariant
                self.hspan_ok(x as int, y as int, len as int),
                dst@.len() == len == old(dst)@.len(),
                i <= len,
                i < len ==> off == mask_offset(x + i, STEP as int, OFFSET as int),
                forall|k: int|
                    0 <= k < len ==> dst@[k] == if k < i {
                        span_cell(old(dst)@[k], self.value_at(x + k, y as int), combine)
                    } else {
                        old(dst)@[k]
                    },
            decreases len - i,
        {
            assert(self.readable(x + i, y as int));
            let m = read_mask_at(self.rbuf, &self.mask_function, off, y as u32);
            if combine {
                dst[i] = combine_cover(dst[i], m);
            } else {
                dst[i] = m;
            }
            if i + 1 < len {
                assert(self.readable(x + i + 1, y as int));
                proof {
                    vstd::arithmetic::mul::lemma_mul_is_distributive_add_other_way(
                        STEP as int,
                        x + i,
                        1,
                    );
                }
                off = off + STEP;
            }
            i = i + 1;
        }
    }

    /// Processes a vertical span of `dst.len()` cells starting at `(x, y)`.
    fn apply_vspan(&self, x: i32, y: i32, dst: &mut [u8], combine: bool)
        requires
            self.vspan_ok(x as int, y as int, old(dst)@.len() as int),
        ensures
            final(dst)@.len() == old(dst)@.len(),
            forall|i: int|
                0 <= i < old(dst)@.len() ==> final(dst)@[i] == span_cell(
                    old(dst)@[i],
                    self.value_at(x as int, y + i),
                    combine,
                ),
    {
        let len = dst.len();
        let mut col: usize = 0;
        if len > 0 {
            assert(self.readable(x as int, y as int));
            proof {
                vstd::arithmetic::mul::lemma_mul_nonnegative(x as int, STEP as int);
            }
            col = x as usize * STEP + OFFSET;
        }
        let mut i: usize = 0;
        while i < len
            invariant
                self.vspan_ok(x as int, y as int, len as int),
                dst@.len() == len == old(dst)@.len(),
                i <= len,
                len > 0 ==> col == mask_offset(x as int, STEP as int, OFFSET as int),
                forall|k: int|
                    0 <= k < len ==> dst@[k] == if k < i {
                        span_cell(old(dst)@[k], self.value_at(x as int, y + k), combine)
                    } else {
                        old(dst)@[k]
                    },
            decreases len - i,
        {
            assert(self.readable(x as int, y + i));
            let m = read_mask_at(self.rbuf, &self.mask_function, col, (y + i as i32) as u32);
            if combine {
                dst[i] = combine_cover(dst[i], m);
            } else {
                dst[i] = m;
            }
            i = i + 1;
        }
    }
}

impl<'a, const STEP: usize, const OFFSET: usize, MF: MaskFunction> AlphaMask for AmaskNoClipU8<
    'a,
    STEP,
    OFFSET,
    MF,
> {
    open spec fn value_at(&self, x: int, y: int) -> u8 {
        mask_of(self.rbuf_spec(), self.mf_spec(), x, y, STEP as int, OFFSET as int)
    }

    /// The pixel and its mask bytes lie inside the buffer.
    open spec fn readable(&self, x: int, y: int) -> bool {
        &&& self.rbuf_spec().wf()
        &&& 0 <= y < self.rbuf_spec().height_spec()
        &&& 0 <= x
        &&& mask_offset(x, STEP as int, OFFSET as int) + self.mf_spec().reads()
            <= self.rbuf_spec().stride_spec()
    }

    open spec fn hspan_ok(&self, x: int, y: int, len: int) -> bool {
        &&& self.rbuf_spec().wf()
        &&& 0 <= y < self.rbuf_spec().height_spec()
        &&& forall|j: int| x <= j < x + len ==> #[trigger] self.readable(j, y)
    }

    open spec fn vspan_ok(&self, x: int, y: int, len: int) -> bool {
        &&& len <= i32::MAX
        &&& y + len <= i32::MAX + 1
        &&& forall|j: int| y <= j < y + len ==> #[trigger] self.readable(x, j)
    }

    fn pixel(&self, x: i32, y: i32) -> (r: u8) {
        read_mask(self.rbuf, &self.mask_function, x as usize, y as u32, STEP, OFFSET)
    }

    fn combine_pixel(&self, x: i32, y: i32, val: u8) -> (r: u8) {
        let m = read_mask(self.rbuf, &self.mask_function, x as usize, y as u32, STEP, OFFSET);
        combine_cover(val, m)
    }

    fn fill_hspan(&self, x: i32, y: i32, dst: &mut [u8]) {
        self.apply_hspan(x, y, dst, false);
    }

    fn combine_hspan(&self, x: i32, y: i32, dst: &mut [u8]) {
        self.apply_hspan(x, y, dst, true);
    }

    fn fill_vspan(&self, x: i32, y: i32, dst: &mut [u8]) {
        self.apply_vspan(x, y, dst, false);
    }

    fn combine_vspan(&self, x: i32, y: i32, dst: &mut [u8]) {
        self.apply_vspan(x, y, dst, true);
    }
}

/// Gray8 mask: one byte per pixel.
pub type AlphaMaskGray8<'a> = AlphaMaskU8<'a, 1, 0, OneComponentMask>;

/// RGBA32 red channel mask.
pub type AlphaMaskRgba32r<'a> = AlphaMaskU8<'a, 4, 0, OneComponentMask>;

/// RGBA32 green channel mask.
pub type AlphaMaskRgba32g<'a> = AlphaMaskU8<'a, 4, 1, OneComponentMask>;

/// RGBA32 blue channel mask.
pub type AlphaMaskRgba32b<'a> = AlphaMaskU8<'a, 4, 2, OneComponentMask>;

/// RGBA32 alpha channel mask.
pub type AlphaMaskRgba32a<'a> = AlphaMaskU8<'a, 4, 3, OneComponentMask>;

/// RGB24 red channel mask.
pub type AlphaMaskRgb24r<'a> = AlphaMaskU8<'a, 3, 0, OneComponentMask>;

/// RGB24 green channel mask.
pub type AlphaMaskRgb24g<'a> = AlphaMaskU8<'a, 3, 1, OneComponentMask>;

/// RGB24 blue channel mask.
pub type AlphaMaskRgb24b<'a> = AlphaMaskU8<'a, 3, 2, OneComponentMask>;

/// Gray8 mask without clipping.
pub type AmaskNoClipGray8<'a> = AmaskNoClipU8<'a, 1, 0, OneComponentMask>;

/// RGBA32 alpha channel mask without clipping.
pub type AmaskNoClipRgba32a<'a> = AmaskNoClipU8<'a, 4, 3, OneComponentMask>;

} // verus!
