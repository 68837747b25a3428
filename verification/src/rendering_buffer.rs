//! A rendering buffer: rows of pixels stored in one owned byte buffer.
use vstd::prelude::*;

verus! {

/// Rows of bytes: row `y` (for `y < height`) occupies `stride` bytes starting
/// at `y * stride`; `width` is the pixel count of a row.
pub struct RowAccessor {
    buf: Vec<u8>,
    width: u32,
    height: u32,
    stride: u32,
}

impl RowAccessor {
    /// All bytes of the buffer.
    pub closed spec fn bytes(&self) -> Seq<u8> {
        self.buf@
    }

    pub closed spec fn width_spec(&self) -> u32 {
        self.width
    }

    pub closed spec fn height_spec(&self) -> u32 {
        self.height
    }

    pub closed spec fn stride_spec(&self) -> u32 {
        self.stride
    }

    /// Every row lies inside the buffer.
    pub open spec fn wf(&self) -> bool {
        self.height_spec() * self.stride_spec() <= self.bytes().len() <= usize::MAX
    }

    /// The bytes of row `y`.
    pub open spec fn row(&self, y: int) -> Seq<u8> {
        self.bytes().subrange(y * self.stride_spec(), (y + 1) * self.stride_spec())
    }

    /// The byte at column offset `off` of row `y`.
    pub open spec fn at(&self, y: int, off: int) -> u8 {
        self.bytes()[y * self.stride_spec() + off]
    }

    /// Wraps `buf` as `height` rows of `stride` bytes holding `width` pixels.
    pub fn new(buf: Vec<u8>, width: u32, height: u32, stride: u32) -> (r: Self)
        requires
            height * stride <= buf@.len(),
        ensures
            r.wf(),
            r.bytes() == buf@,
            r.width_spec() == width && r.height_spec() == height && r.stride_spec() == stride,
    {
        assert(buf.len() == buf@.len());
        RowAccessor { buf, width, height, stride }
    }

    pub fn width(&self) -> (w: u32)
        ensures
            w == self.width_spec(),
    {
        self.width
    }

    pub fn height(&self) -> (h: u32)
        ensures
            h == self.height_spec(),
    {
        self.height
    }

    pub fn stride(&self) -> (s: u32)
        ensures
            s == self.stride_spec(),
    {
        self.stride
    }

    /// The bytes of row `y`.
    pub fn row_slice(&self, y: u32) -> (r: &[u8])
        requires
            self.wf(),
            y < self.height_spec(),
        ensures
            r@ == self.row(y as int),
            r@.len() == self.stride_spec(),
    {
        proof {
            vstd::arithmetic::mul::lemma_mul_inequality(
                y as int + 1,
                self.height as int,
                self.stride as int,
            );
            vstd::arithmetic::mul::lemma_mul_is_distributive_add_other_way(
                self.stride as int,
                y as int,
                1,
            );
        }
        let _n = self.buf.len();
        let start = y as usize * self.stride as usize;
        let end = start + self.stride as usize;
        &self.buf.as_slice()[start..end]
    }

    /// All bytes of the buffer.
    pub fn buf(&self) -> (r: &[u8])
        ensures
            r@ == self.bytes(),
    {
        self.buf.as_slice()
    }

    /// Mutable access to the bytes; the dimensions stay as they are.
    pub fn buf_mut(&mut self) -> (r: &mut Vec<u8>)
        ensures
            r@ == old(self).bytes(),
            final(self).bytes() == final(r)@,
            final(self).width_spec() == old(self).width_spec(),
            final(self).height_spec() == old(self).height_spec(),
            final(self).stride_spec() == old(self).stride_spec(),
    {
        &mut self.buf
    }

    /// Gives back the bytes.
    pub fn into_buf(self) -> (r: Vec<u8>)
        ensures
            r@ == self.bytes(),
    {
        self.buf
    }
}

} // verus!
