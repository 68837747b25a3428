//! Compositing operations and a pixel format over an RGBA buffer that
//! carries the operation to blend with.
use crate::color::Rgba8;
use crate::blur::{lemma_divmod, pixel_byte};
use crate::rendering_buffer::RowAccessor;
use vstd::prelude::*;

verus! {

/// The SVG compositing operations (the standard ones plus `Minus`).
#[derive(Debug, Clone, Copy, PartialEq, Eq, Hash, Structural)]
pub enum CompOp {
    Clear,
    Src,
    Dst,
    SrcOver,
    DstOver,
    SrcIn,
    DstIn,
    SrcOut,
    DstOut,
    SrcAtop,
    DstAtop,
    Xor,
    Plus,
    Minus,
    Multiply,
    Screen,
    Overlay,
    Darken,
    Lighten,
    ColorDodge,
    ColorBurn,
    HardLight,
    SoftLight,
    Difference,
    Exclusion,
}

impl Default for CompOp {
    /// Source over destination.
    fn default() -> (r: Self)
        ensures
            r == CompOp::SrcOver,
    {
        CompOp::SrcOver
    }
}

/// An RGBA pixel format (four bytes per pixel, in R, G, B, A order) over a
/// rendering buffer, with the compositing operation it blends with.
pub struct PixfmtRgba32CompOp<'a> {
    rbuf: &'a mut RowAccessor,
    comp_op: CompOp,
}

/// Channel `j` (0 red, 1 green, 2 blue, otherwise alpha) of `c`.
pub open spec fn channel(c: Rgba8, j: int) -> u8 {
    if j == 0 {
        c.r
    } else if j == 1 {
        c.g
    } else if j == 2 {
        c.b
    } else {
        c.a
    }
}

/// The colour stored at byte offset `off`.
pub open spec fn color_at(b: Seq<u8>, off: int) -> Rgba8 {
    Rgba8 { r: b[off], g: b[off + 1], b: b[off + 2], a: b[off + 3] }
}

/// `b` with the `4 * n` bytes from `base` holding `n` copies of `c`.
pub open spec fn fill_pixels(b: Seq<u8>, base: int, n: int, c: Rgba8) -> Seq<u8> {
    Seq::new(
        b.len(),
        |k: int|
            if base <= k < base + 4 * n {
                channel(c, (k - base) % 4)
            } else {
                b[k]
            },
    )
}

/// Sets the `n` pixels from byte `start` of `buf` to `c`.
fn fill_run(buf: &mut Vec<u8>, start: usize, n: usize, c: &Rgba8)
    requires
        start + 4 * n <= old(buf)@.len(),
    ensures
        final(buf)@ == fill_pixels(old(buf)@, start as int, n as int, *c),
{
    let ghost b0 = buf@;
    assert(buf.len() == b0.len());
    let total = n * 4;
    let mut k: usize = 0;
    while k < total
        invariant
            buf@.len() == b0.len(),
            total == 4 * n,
            start + total <= b0.len() <= usize::MAX,
            k <= total,
            forall|j: int|
                0 <= j < b0.len() ==> buf@[j] == if start <= j < start + k {
                    channel(*c, (j - start) % 4)
                } else {
                    b0[j]
                },
        decreases total - k,
    {
        let m = k % 4;
        let v = if m == 0 {
            c.r
        } else if m == 1 {
            c.g
        } else if m == 2 {
            c.b
        } else {
            c.a
        };
        buf.set(start + k, v);
        proof {
            assert((start + k - start) % 4 == m);
        }
        k = k + 1;
    }
    assert(buf@ =~= fill_pixels(b0, start as int, n as int, *c));
}

impl<'a> PixfmtRgba32CompOp<'a> {
    pub closed spec fn rbuf_spec(&self) -> RowAccessor {
        *self.rbuf
    }

    pub closed spec fn op_spec(&self) -> CompOp {
        self.comp_op
    }

    /// The buffer holds its rows and each row its pixels.
    pub open spec fn wf(&self) -> bool {
        self.rbuf_spec().wf() && 4 * self.rbuf_spec().width_spec() <= self.rbuf_spec().stride_spec()
    }

    /// Byte offset of pixel `(x, y)`.
    pub open spec fn offset(&self, x: int, y: int) -> int {
        y * self.rbuf_spec().stride_spec() + 4 * x
    }

    /// A pixel format blending with `SrcOver`.
    pub fn new(rbuf: &'a mut RowAccessor) -> (r: Self)
        ensures
            r.rbuf_spec() == *old(rbuf),
            r.op_spec() == CompOp::SrcOver,
    {
        PixfmtRgba32CompOp { rbuf, comp_op: CompOp::SrcOver }
    }

    /// A pixel format blending with `op`.
    pub fn new_with_op(rbuf: &'a mut RowAccessor, op: CompOp) -> (r: Self)
        ensures
            r.rbuf_spec() == *old(rbuf),
            r.op_spec() == op,
    {
        PixfmtRgba32CompOp { rbuf, comp_op: op }
    }

    pub fn comp_op(&self) -> (r: CompOp)
        ensures
            r == self.op_spec(),
    {
        self.comp_op
    }

    pub fn set_comp_op(&mut self, op: CompOp)
        ensures
            final(self).op_spec() == op,
            final(self).rbuf_spec() == old(self).rbuf_spec(),
    {
        self.comp_op = op;
    }

    /// The rendering buffer, for writing through it.
    pub fn rbuf_mut(&mut self) -> (r: &mut RowAccessor)
        ensures
            *r == old(self).rbuf_spec(),
            final(self).rbuf_spec() == *final(r),
            final(self).op_spec() == old(self).op_spec(),
    {
        &mut *self.rbuf
    }

    pub fn width(&self) -> (r: u32)
        ensures
            r == self.rbuf_spec().width_spec(),
    {
        self.rbuf.width()
    }

    pub fn height(&self) -> (r: u32)
        ensures
            r == self.rbuf_spec().height_spec(),
    {
        self.rbuf.height()
    }

    /// The colour of pixel `(x, y)`.
    pub fn pixel(&self, x: i32, y: i32) -> (c: Rgba8)
        requires
            self.wf(),
            0 <= x < self.rbuf_spec().width_spec(),
            0 <= y < self.rbuf_spec().height_spec(),
        ensures
            c == color_at(self.rbuf_spec().bytes(), self.offset(x as int, y as int)),
    {
        proof {
            self.lemma_pixel_in_row(x as int, y as int);
        }
        let row = self.rbuf.row_slice(y as u32);
        let off = x as usize * 4;
        Rgba8 { r: row[off], g: row[off + 1], b: row[off + 2], a: row[off + 3] }
    }

    /// The bytes of pixels `x..x + n` of row `y` lie inside the row.
    proof fn lemma_pixel_in_row(&self, x: int, y: int)
        requires
            self.wf(),
            0 <= x < self.rbuf_spec().width_spec(),
            0 <= y < self.rbuf_spec().height_spec(),
        ensures
            4 * x + 4 <= self.rbuf_spec().stride_spec(),
            self.offset(x, y) + 4 <= (y + 1) * self.rbuf_spec().stride_spec() <= self.rbuf_spec().bytes().len(),
    {
        let rb = self.rbuf_spec();
        vstd::arithmetic::mul::lemma_mul_inequality(y + 1, rb.height_spec() as int, rb.stride_spec() as int);
        assert((y + 1) * rb.stride_spec() == y * rb.stride_spec() + rb.stride_spec()) by (nonlinear_arith);
    }

    /// Sets `len` pixels of row `y` from `x` on to `c`.
    pub fn copy_hline(&mut self, x: i32, y: i32, len: u32, c: &Rgba8)
        requires
            old(self).wf(),
            0 <= x,
            x + len <= old(self).rbuf_spec().width_spec(),
            0 <= y < old(self).rbuf_spec().height_spec(),
        ensures
            final(self).wf(),
            final(self).op_spec() == old(self).op_spec(),
            final(self).rbuf_spec().width_spec() == old(self).rbuf_spec().width_spec(),
            final(self).rbuf_spec().height_spec() == old(self).rbuf_spec().height_spec(),
            final(self).rbuf_spec().stride_spec() == old(self).rbuf_spec().stride_spec(),
            final(self).rbuf_spec().bytes() == fill_pixels(
                old(self).rbuf_spec().bytes(),
                old(self).offset(x as int, y as int),
                len as int,
                *c,
            ),
    {
        let ghost b0 = self.rbuf.bytes();
        let ghost base = self.offset(x as int, y as int);
        let stride = self.rbuf.stride() as usize;
        proof {
            if len > 0 {
                self.lemma_pixel_in_row(x + len - 1, y as int);
            }
            let rb = self.rbuf_spec();
            vstd::arithmetic::mul::lemma_mul_inequality(y + 1, rb.height_spec() as int, rb.stride_spec() as int);
            assert((y + 1) * rb.stride_spec() == y * rb.stride_spec() + rb.stride_spec()) by (nonlinear_arith);
        }
        let start = y as usize * stride + x as usize * 4;
        fill_run(self.rbuf.buf_mut(), start, len as usize, c);
    }

    /// Sets pixel `(x, y)` to `c`.
    pub fn copy_pixel(&mut self, x: i32, y: i32, c: &Rgba8)
        requires
            old(self).wf(),
            0 <= x < old(self).rbuf_spec().width_spec(),
            0 <= y < old(self).rbuf_spec().height_spec(),
        ensures
            final(self).wf(),
            final(self).op_spec() == old(self).op_spec(),
            final(self).rbuf_spec().width_spec() == old(self).rbuf_spec().width_spec(),
            final(self).rbuf_spec().height_spec() == old(self).rbuf_spec().height_spec(),
            final(self).rbuf_spec().stride_spec() == old(self).rbuf_spec().stride_spec(),
            final(self).rbuf_spec().bytes() == fill_pixels(
                old(self).rbuf_spec().bytes(),
                old(self).offset(x as int, y as int),
                1,
                *c,
            ),
    {
        self.copy_hline(x, y, 1, c);
    }

    /// Sets every pixel of the image to `c`; bytes past a row's pixels stay.
    pub fn clear(&mut self, c: &Rgba8)
        requires
            old(self).wf(),
        ensures
            final(self).wf(),
            final(self).op_spec() == old(self).op_spec(),
            final(self).rbuf_spec().width_spec() == old(self).rbuf_spec().width_spec(),
            final(self).rbuf_spec().height_spec() == old(self).rbuf_spec().height_spec(),
            final(self).rbuf_spec().stride_spec() == old(self).rbuf_spec().stride_spec(),
            final(self).rbuf_spec().bytes() == Seq::new(
                old(self).rbuf_spec().bytes().len(),
                |k: int|
                    if pixel_byte(
                        k,
                        old(self).rbuf_spec().width_spec() as int,
                        old(self).rbuf_spec().height_spec() as int,
                        old(self).rbuf_spec().stride_spec() as int,
                    ) {
                        channel(*c, (k % old(self).rbuf_spec().stride_spec() as int) % 4)
                    } else {
                        old(self).rbuf_spec().bytes()[k]
                    },
            ),
    {
        let ghost b0 = self.rbuf.bytes();
        let w = self.rbuf.width() as usize;
        let h = self.rbuf.height() as usize;
        let stride = self.rbuf.stride() as usize;
        let ghost si = stride as int;
        let ghost target = Seq::new(
            b0.len(),
            |k: int|
                if pixel_byte(k, w as int, h as int, si) {
                    channel(*c, (k % si) % 4)
                } else {
                    b0[k]
                },
        );
        let mut y: usize = 0;
        while y < h
            invariant
                self.wf(),
                self.op_spec() == old(self).op_spec(),
                self.rbuf_spec().width_spec() == w,
                self.rbuf_spec().height_spec() == h,
                self.rbuf_spec().stride_spec() == stride,
                si == stride,
                4 * w <= stride,
                h * stride <= b0.len(),
                y <= h,
                target == Seq::new(
                    b0.len(),
                    |k: int|
                        if pixel_byte(k, w as int, h as int, si) {
                            channel(*c, (k % si) % 4)
                        } else {
                            b0[k]
                        },
                ),
                self.rbuf_spec().bytes().len() == b0.len(),
                forall|k: int|
                    0 <= k < b0.len() ==> self.rbuf_spec().bytes()[k] == if pixel_byte(
                        k,
                        w as int,
                        h as int,
                        si,
                    ) && k / si < y {
                        target[k]
                    } else {
                        b0[k]
                    },
            decreases h - y,
        {
            proof {
                vstd::arithmetic::mul::lemma_mul_inequality(y as int + 1, h as int, si);
                assert((y + 1) * si == y * si + si) by (nonlinear_arith);
            }
            let ghost before = self.rbuf_spec().bytes();
            fill_run(self.rbuf.buf_mut(), y * stride, w, c);
            proof {
                assert forall|k: int| 0 <= k < b0.len() implies self.rbuf_spec().bytes()[k] == if pixel_byte(
                    k,
                    w as int,
                    h as int,
                    si,
                ) && k / si < y + 1 {
                    target[k]
                } else {
                    b0[k]
                } by {
                    let base = y * si;
                    assert(self.rbuf_spec().bytes()[k] == fill_pixels(before, base, w as int, *c)[k]);
                    if base <= k < base + 4 * w {
                        lemma_divmod(k, si, y as int, k - base);
                        assert(pixel_byte(k, w as int, h as int, si));
                    } else {
                        assert(self.rbuf_spec().bytes()[k] == before[k]);
                        if pixel_byte(k, w as int, h as int, si) && k / si == y {
                            vstd::arithmetic::div_mod::lemma_fundamental_div_mod(k, si);
                            assert(si * (k / si) == base) by (nonlinear_arith)
                                requires
                                    k / si == y,
                                    base == y * si,
                            ;
                            assert(false);
                        }
                    }
                }
            }
            y = y + 1;
        }
        proof {
            assert(self.rbuf_spec().bytes() =~= target);
        }
    }
}

} // verus!
