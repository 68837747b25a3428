//! One-bit raster glyphs read from an embedded raster font.
//!
//! Font layout: byte 0 is the height, byte 1 the baseline, byte 2 the first
//! character code and byte 3 the number of characters; then a table of
//! little-endian 16-bit offsets, one per character; then the glyphs, each a
//! width byte followed by its rows, bottom row first, one bit per pixel,
//! most significant bit first, rows padded to whole bytes.
use crate::basics::CoverType;
use vstd::prelude::*;
use vstd::string::StringSliceAdditionalSpecFns;

verus! {

/// Character `g` has a glyph in the font.
pub open spec fn in_font(font: Seq<u8>, g: int) -> bool {
    font[2] <= g < font[2] + font[3]
}

/// Byte position of the offset table entry of character `g`.
pub open spec fn entry_pos(font: Seq<u8>, g: int) -> int {
    4 + 2 * (g - font[2])
}

/// Byte position of the glyph of character `g` (its width byte).
pub open spec fn glyph_pos(font: Seq<u8>, g: int) -> int {
    4 + 2 * font[3] + font[entry_pos(font, g)] + 256 * font[entry_pos(font, g) + 1]
}

/// The font's header holds, and if `g` is in the font its table entry and
/// width byte lie inside the font.
pub open spec fn glyph_readable(font: Seq<u8>, g: int) -> bool {
    &&& font.len() >= 4
    &&& in_font(font, g) ==> entry_pos(font, g) + 1 < font.len() && glyph_pos(font, g)
        < font.len()
}

/// Width in pixels of the glyph of `g`, zero for characters not in the font.
pub open spec fn glyph_width_of(font: Seq<u8>, g: int) -> int {
    if in_font(font, g) {
        font[glyph_pos(font, g)] as int
    } else {
        0
    }
}

/// Total width of the glyphs of the bytes `text`.
pub open spec fn text_width(font: Seq<u8>, text: Seq<u8>) -> int
    decreases text.len(),
{
    if text.len() == 0 {
        0
    } else {
        text_width(font, text.drop_last()) + glyph_width_of(font, text.last() as int)
    }
}

/// The coverage of pixel `j` of the glyph row whose bits start at byte
/// `row_start` of `bits`: full if its bit is set, else none.
pub open spec fn cover_at(bits: Seq<u8>, row_start: int, j: int) -> u8 {
    if row_start + j / 8 < bits.len() && bits[row_start + j / 8] & (0x80u8 >> ((j % 8) as u8))
        != 0 {
        255
    } else {
        0
    }
}

/// Reads glyph spans of one-bit raster fonts.
pub struct GlyphRasterBin<'a> {
    font: &'a [u8],
    span: Vec<CoverType>,
    bits: &'a [u8],
    glyph_width: u32,
    glyph_byte_width: u32,
}

/// Facts about bits of a byte shifted left.
proof fn lemma_shifted_bits(x: u8, s: u8)
    by (bit_vector)
    requires
        s < 8,
    ensures
        ((x << s) & 0x80u8 != 0) == (x & (0x80u8 >> s) != 0),
        (x << s) << 1u8 == x << ((s + 1) as u8),
        x << 0u8 == x,
        (x << 7u8) << 1u8 == 0,
        0u8 & (0x80u8 >> s) == 0,
{
}

impl<'a> GlyphRasterBin<'a> {
    pub closed spec fn font_spec(&self) -> Seq<u8> {
        self.font@
    }

    /// The bytes of the prepared glyph after its width byte.
    pub closed spec fn bits_spec(&self) -> Seq<u8> {
        self.bits@
    }

    pub closed spec fn glyph_width_spec(&self) -> u32 {
        self.glyph_width
    }

    /// Bytes per glyph row.
    pub closed spec fn byte_width_spec(&self) -> u32 {
        self.glyph_byte_width
    }

    /// Length of the span buffer.
    pub closed spec fn span_capacity(&self) -> nat {
        self.span@.len()
    }

    /// The span buffer fits the prepared glyph.
    pub open spec fn wf(&self) -> bool {
        &&& self.span_capacity() >= self.glyph_width_spec()
        &&& self.byte_width_spec() <= 32
    }

    /// A reader of `font` with no glyph prepared.
    pub fn new(font: &'a [u8]) -> (g: Self)
        ensures
            g.wf(),
            g.font_spec() == font@,
            g.glyph_width_spec() == 0,
            g.byte_width_spec() == 0,
            g.bits_spec().len() == 0,
    {
        let mut span: Vec<CoverType> = Vec::new();
        let mut k: usize = 0;
        while k < 32
            invariant
                k <= 32,
                span@.len() == k,
            decreases 32 - k,
        {
            span.push(0);
            k = k + 1;
        }
        GlyphRasterBin {
            font,
            span,
            bits: vstd::slice::slice_subrange(font, 0, 0),
            glyph_width: 0,
            glyph_byte_width: 0,
        }
    }

    pub fn font(&self) -> (f: &'a [u8])
        ensures
            f@ == self.font_spec(),
    {
        self.font
    }

    /// Switches to another font; the prepared glyph stays.
    pub fn set_font(&mut self, font: &'a [u8])
        ensures
            final(self).font_spec() == font@,
            final(self).bits_spec() == old(self).bits_spec(),
            final(self).glyph_width_spec() == old(self).glyph_width_spec(),
            final(self).byte_width_spec() == old(self).byte_width_spec(),
            final(self).span_capacity() == old(self).span_capacity(),
    {
        self.font = font;
    }

    /// The little-endian 16-bit value at `offset`.
    fn value(&self, offset: usize) -> (v: u16)
        requires
            offset + 1 < self.font_spec().len(),
        ensures
            v == self.font_spec()[offset as int] + 256 * self.font_spec()[offset + 1],
    {
        self.font[offset] as u16 + 256 * self.font[offset + 1] as u16
    }

    /// Total width in pixels of the glyphs of the bytes of `s`; bytes
    /// without a glyph count zero.
    pub fn width(&self, s: &str) -> (w: u32)
        requires
            forall|k: int|
                0 <= k < s.spec_bytes().len() ==> glyph_readable(
                    self.font_spec(),
                    #[trigger] s.spec_bytes()[k] as int,
                ),
            s.spec_bytes().len() > 0 ==> self.font_spec().len() >= 4,
            text_width(self.font_spec(), s.spec_bytes()) <= u32::MAX,
        ensures
            w == text_width(self.font_spec(), s.spec_bytes()),
    {
        let bytes = s.as_bytes();
        let ghost text = s.spec_bytes();
        let mut w: u32 = 0;
        let mut k: usize = 0;
        while k < bytes.len()
            invariant
                bytes@ == text,
                text == s.spec_bytes(),
                forall|j: int|
                    0 <= j < text.len() ==> glyph_readable(
                        self.font_spec(),
                        #[trigger] text[j] as int,
                    ),
                text_width(self.font_spec(), text) <= u32::MAX,
                k <= text.len(),
                w == text_width(self.font_spec(), text.subrange(0, k as int)),
            decreases text.len() - k,
        {
            let glyph = bytes[k] as u32;
            proof {
                lemma_text_width_prefix(self.font_spec(), text, k + 1);
                lemma_text_width_mono(self.font_spec(), text, k + 1);
            }
            let start_char = self.font[2] as u32;
            let num_chars = self.font[3] as u32;
            if glyph >= start_char && glyph < start_char + num_chars {
                let offset = self.value(4 + (glyph - start_char) as usize * 2);
                let bits_start = 4 + num_chars as usize * 2 + offset as usize;
                w = w + self.font[bits_start] as u32;
            }
            k = k + 1;
        }
        assert(text.subrange(0, k as int) =~= text);
        w
    }

    /// The whole-byte row width of a glyph `width` pixels wide.
    fn byte_width(width: u32) -> (r: u32)
        requires
            width <= 255,
        ensures
            r == (width + 7) / 8,
            r <= 32,
    {
        let v = width + 7;
        proof {
            vstd::bits::lemma_u32_shr_is_div(v, 3);
            vstd::arithmetic::power2::lemma2_to64();
        }
        v >> 3
    }

    /// Prepares the glyph of character `glyph` for `span`: `None` (and no
    /// glyph) if the font has none, otherwise its width in pixels.
    pub fn prepare_glyph(&mut self, glyph: u32) -> (w: Option<u32>)
        requires
            old(self).wf(),
            glyph_readable(old(self).font_spec(), glyph as int),
            in_font(old(self).font_spec(), glyph as int) ==> glyph_pos(
                old(self).font_spec(),
                glyph as int,
            ) + 1 <= old(self).font_spec().len(),
        ensures
            final(self).wf(),
            final(self).font_spec() == old(self).font_spec(),
            !in_font(old(self).font_spec(), glyph as int) ==> w is None
                && final(self).glyph_width_spec() == 0 && final(self).byte_width_spec() == 0
                && final(self).bits_spec().len() == 0,
            in_font(old(self).font_spec(), glyph as int) ==> {
                let gp = glyph_pos(old(self).font_spec(), glyph as int);
                &&& w == Some(final(self).glyph_width_spec())
                &&& final(self).glyph_width_spec() == old(self).font_spec()[gp]
                &&& final(self).byte_width_spec() == (final(self).glyph_width_spec() + 7) / 8
                &&& final(self).bits_spec() == old(self).font_spec().subrange(
                    gp + 1,
                    old(self).font_spec().len() as int,
                )
            },
    {
        let start_char = self.font[2] as u32;
        let num_chars = self.font[3] as u32;
        if glyph < start_char || glyph >= start_char + num_chars {
            self.glyph_width = 0;
            self.glyph_byte_width = 0;
            self.bits = vstd::slice::slice_subrange(self.font, 0, 0);
            return None;
        }
        let offset = self.value(4 + (glyph - start_char) as usize * 2);
        let bits_start = 4 + num_chars as usize * 2 + offset as usize;
        self.glyph_width = self.font[bits_start] as u32;
        self.glyph_byte_width = Self::byte_width(self.glyph_width);
        self.bits = vstd::slice::slice_subrange(self.font, bits_start + 1, self.font.len());
        let ghost gw0 = self.glyph_width;
        let ghost gbw0 = self.glyph_byte_width;
        let ghost bits0 = self.bits@;
        while self.span.len() < self.glyph_width as usize
            invariant
                self.glyph_width == gw0,
                self.glyph_byte_width == gbw0,
                self.bits@ == bits0,
                self.glyph_width <= 255,
                self.glyph_byte_width <= 32,
                self.font@ == old(self).font@,
            decreases self.glyph_width - self.span@.len(),
        {
            self.span.push(0);
        }
        Some(self.glyph_width)
    }

    /// The coverages of row `i` of the prepared glyph, counted from the top:
    /// empty with no glyph, otherwise one per pixel.
    pub fn span(&mut self, i: u32) -> (r: &[CoverType])
        requires
            old(self).wf(),
            old(self).glyph_width_spec() > 0 && old(self).bits_spec().len() > 0 ==> old(
                self,
            ).font_spec().len() >= 1 && i < old(self).font_spec()[0],
        ensures
            final(self).wf(),
            final(self).font_spec() == old(self).font_spec(),
            final(self).bits_spec() == old(self).bits_spec(),
            final(self).glyph_width_spec() == old(self).glyph_width_spec(),
            final(self).byte_width_spec() == old(self).byte_width_spec(),
            old(self).glyph_width_spec() == 0 || old(self).bits_spec().len() == 0 ==> r@.len()
                == 0,
            old(self).glyph_width_spec() > 0 && old(self).bits_spec().len() > 0 ==> r@ == Seq::new(
                old(self).glyph_width_spec() as nat,
                |j: int|
                    cover_at(
                        old(self).bits_spec(),
                        (old(self).font_spec()[0] - i - 1) * old(self).byte_width_spec(),
                        j,
                    ),
            ),
    {
        if self.glyph_width == 0 || self.bits.len() == 0 {
            return vstd::slice::slice_subrange(self.span.as_slice(), 0, 0);
        }
        let row = self.font[0] as u32 - i - 1;
        assert(row * self.glyph_byte_width <= 255 * 32) by (nonlinear_arith)
            requires
                row <= 255,
                self.glyph_byte_width <= 32,
        ;
        let row_start = (row * self.glyph_byte_width) as usize;
        let gw = self.glyph_width as usize;
        let ghost bits = self.bits@;
        let ghost gbw0 = self.glyph_byte_width;
        let ghost target = Seq::new(gw as nat, |j: int| cover_at(bits, row_start as int, j));
        let n_bits = self.bits.len();
        if row_start >= n_bits {
            let mut j: usize = 0;
            while j < gw
                invariant
                    gw == self.glyph_width,
                    self.glyph_byte_width == gbw0,
                    gbw0 <= 32,
                    self.font@ == old(self).font@,
                    self.span@.len() >= gw,
                    self.bits@ == bits,
                    row_start >= bits.len(),
                    j <= gw,
                    forall|k: int| 0 <= k < j ==> self.span@[k] == target[k],
                    target == Seq::new(gw as nat, |j: int| cover_at(bits, row_start as int, j)),
                decreases gw - j,
            {
                self.span.set(j, 0);
                j = j + 1;
            }
            let r = vstd::slice::slice_subrange(self.span.as_slice(), 0, gw);
            assert(r@ =~= target);
            return r;
        }
        let mut val: u8 = self.bits[row_start];
        let mut nb: u8 = 0;
        let mut bit_idx: usize = row_start;
        let mut j: usize = 0;
        proof {
            lemma_shifted_bits(val, 0);
        }
        while j < gw
            invariant
                gw == self.glyph_width,
                self.glyph_byte_width == gbw0,
                gbw0 <= 32,
                self.font@ == old(self).font@,
                self.span@.len() >= gw,
                self.bits@ == bits,
                n_bits == bits.len(),
                row_start < bits.len(),
                j <= gw,
                nb < 8,
                nb == j % 8,
                bit_idx == if row_start + j / 8 < bits.len() {
                    row_start + j / 8
                } else {
                    bits.len() as int
                },
                val == (if row_start + j / 8 < bits.len() {
                    bits[row_start + j / 8]
                } else {
                    0u8
                }) << nb,
                forall|k: int| 0 <= k < j ==> self.span@[k] == target[k],
                target == Seq::new(gw as nat, |j: int| cover_at(bits, row_start as int, j)),
            decreases gw - j,
        {
            let ghost cur: u8 = if row_start + j / 8 < bits.len() {
                bits[row_start + j / 8]
            } else {
                0u8
            };
            proof {
                lemma_shifted_bits(cur, nb);
                assert(target[j as int] == cover_at(bits, row_start as int, j as int));
            }
            self.span.set(j, if (val & 0x80) != 0 { 255 } else { 0 });
            val = val << 1;
            nb = nb + 1;
            if nb >= 8 {
                if bit_idx < n_bits {
                    bit_idx = bit_idx + 1;
                }
                if bit_idx < n_bits {
                    val = self.bits[bit_idx];
                    proof {
                        lemma_shifted_bits(val, 0);
                    }
                } else {
                    proof {
                        lemma_shifted_bits(cur, 7);
                        lemma_shifted_bits(0, 0);
                    }
                }
                nb = 0;
            }
            j = j + 1;
        }
        let r = vstd::slice::slice_subrange(self.span.as_slice(), 0, gw);
        assert(r@ =~= target);
        r
    }
}

/// A prefix is no wider than the whole text.
proof fn lemma_text_width_mono(font: Seq<u8>, text: Seq<u8>, k: int)
    requires
        0 <= k <= text.len(),
    ensures
        text_width(font, text.subrange(0, k)) <= text_width(font, text),
    decreases text.len() - k,
{
    if k < text.len() {
        lemma_text_width_mono(font, text, k + 1);
        lemma_text_width_prefix(font, text, k + 1);
    } else {
        assert(text.subrange(0, k) =~= text);
    }
}

/// The width of a prefix grows by the glyph of its last byte.
proof fn lemma_text_width_prefix(font: Seq<u8>, text: Seq<u8>, k: int)
    requires
        1 <= k <= text.len(),
    ensures
        text_width(font, text.subrange(0, k)) == text_width(font, text.subrange(0, k - 1))
            + glyph_width_of(font, text[k - 1] as int),
{
    assert(text.subrange(0, k).drop_last() =~= text.subrange(0, k - 1));
}

} // verus!
