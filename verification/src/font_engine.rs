//! TrueType/OpenType faces: validation of font data, and the integer facts
//! of a face (its em size and its character map). Outlines and metrics are
//! scaled in floating point and are not part of this library.
use vstd::prelude::*;

verus! {

/// The kind of data a prepared glyph carries (`Invalid` is 0, `Mono` 1,
/// `Gray8` 2, `Outline` 3).
#[derive(Debug, Clone, Copy, PartialEq, Eq, Structural)]
pub enum GlyphDataType {
    Invalid,
    Mono,
    Gray8,
    Outline,
}

/// Why font data was refused.
#[derive(Debug, Clone, Copy, PartialEq, Eq, Structural)]
pub enum FaceError {
    MalformedFont,
    UnknownMagic,
    FaceIndexOutOfBounds,
    NoHeadTable,
    NoHheaTable,
    NoMaxpTable,
}

/// The name of an error kind, as it is printed.
pub open spec fn face_error_name(e: FaceError) -> Seq<char> {
    match e {
        FaceError::MalformedFont => "MalformedFont"@,
        FaceError::UnknownMagic => "UnknownMagic"@,
        FaceError::FaceIndexOutOfBounds => "FaceIndexOutOfBounds"@,
        FaceError::NoHeadTable => "NoHeadTable"@,
        FaceError::NoHheaTable => "NoHheaTable"@,
        FaceError::NoMaxpTable => "NoMaxpTable"@,
    }
}

/// The message of a refused font.
pub open spec fn face_error_message(e: FaceError) -> Seq<char> {
    "Failed to parse font: "@ + face_error_name(e)
}

/// What parsing face `face_index` of `data` reports: `None` for a usable
/// face, else the reason it was refused.
pub uninterp spec fn face_parse_error(data: Seq<u8>, face_index: u32) -> Option<FaceError>;

/// Font units per em of a usable face.
pub uninterp spec fn units_per_em_of(data: Seq<u8>, face_index: u32) -> u16;

/// The glyph that the character map of a usable face gives `c`, if any.
pub uninterp spec fn glyph_index_of(data: Seq<u8>, face_index: u32, c: char) -> Option<u16>;

/// The kerning subtables of a usable face, in order, each as its
/// `(horizontal, has_cross_stream)` flags; empty without a `kern` table.
pub uninterp spec fn kern_subtables_of(data: Seq<u8>, face_index: u32) -> Seq<(bool, bool)>;

/// The kerning value that subtable `k` of a usable face holds for the pair
/// of glyphs, if any.
pub uninterp spec fn kern_pair_in(
    data: Seq<u8>,
    face_index: u32,
    k: nat,
    first: u16,
    second: u16,
) -> Option<i16>;

/// The horizontal advance of a glyph of a usable face, in font units.
pub uninterp spec fn hor_advance_of(data: Seq<u8>, face_index: u32, glyph: u16) -> Option<u16>;

/// The bounding box `(x_min, y_min, x_max, y_max)` of a glyph's outline
/// in a usable face, in font units; `None` for a glyph without outline.
pub uninterp spec fn glyph_bbox_of(data: Seq<u8>, face_index: u32, glyph: u16) -> Option<
    (i16, i16, i16, i16),
>;

/// The ascender of a usable face, in font units.
pub uninterp spec fn ascender_of(data: Seq<u8>, face_index: u32) -> i16;

/// The descender of a usable face, in font units.
pub uninterp spec fn descender_of(data: Seq<u8>, face_index: u32) -> i16;

/// The kerning of a pair from the first of the subtables `k..` that is
/// horizontal, not cross-stream, and has the pair.
pub open spec fn first_kern_pair(
    subs: Seq<(bool, bool)>,
    data: Seq<u8>,
    face_index: u32,
    k: nat,
    first: u16,
    second: u16,
) -> Option<i16>
    decreases subs.len() - k,
{
    if k >= subs.len() {
        None
    } else if subs[k as int].0 && !subs[k as int].1 && kern_pair_in(
        data,
        face_index,
        k,
        first,
        second,
    ) is Some {
        kern_pair_in(data, face_index, k, first, second)
    } else {
        first_kern_pair(subs, data, face_index, (k + 1) as nat, first, second)
    }
}

/// Whether `i` is the code of a Unicode scalar value.
pub open spec fn is_scalar_value(i: u32) -> bool {
    i <= 0x10FFFF && !(0xD800 <= i <= 0xDFFF)
}

/// `char::from_u32`: the character with code `i`, for a scalar value.
pub assume_specification[ char::from_u32 ](i: u32) -> (r: Option<char>)
    ensures
        r is Some <==> is_scalar_value(i),
        r matches Some(c) ==> c as u32 == i,
;

/// Parses face `face_index` of `data` with `ttf_parser::Face::parse` and
/// reports the error kind, one variant for each of the crate's. What the
/// parser accepts is named, not stated; its source shows that data shorter
/// than the four-byte magic is refused as an unknown magic.
#[verifier::external_body]
fn parse_face(data: &[u8], face_index: u32) -> (r: Option<FaceError>)
    ensures
        r == face_parse_error(data@, face_index),
        data@.len() < 4 ==> r == Some(FaceError::UnknownMagic),
{
    match ttf_parser::Face::parse(data, face_index) {
        Ok(_) => None,
        Err(e) => Some(
            match e {
                ttf_parser::FaceParsingError::MalformedFont => FaceError::MalformedFont,
                ttf_parser::FaceParsingError::UnknownMagic => FaceError::UnknownMagic,
                ttf_parser::FaceParsingError::FaceIndexOutOfBounds => FaceError::FaceIndexOutOfBounds,
                ttf_parser::FaceParsingError::NoHeadTable => FaceError::NoHeadTable,
                ttf_parser::FaceParsingError::NoHheaTable => FaceError::NoHheaTable,
                ttf_parser::FaceParsingError::NoMaxpTable => FaceError::NoMaxpTable,
            },
        ),
    }
}

/// `ttf_parser::Face::units_per_em` of a usable face: named; the `head`
/// table parser of the crate refuses a value outside `16..=16384`.
#[verifier::external_body]
fn face_units_per_em(data: &[u8], face_index: u32) -> (r: u16)
    requires
        face_parse_error(data@, face_index) is None,
    ensures
        r == units_per_em_of(data@, face_index),
        16 <= r <= 16384,
{
    ttf_parser::Face::parse(data, face_index).unwrap().units_per_em()
}

/// `ttf_parser::Face::glyph_index` of a usable face, the glyph id as its
/// number: named, not stated.
#[verifier::external_body]
fn face_glyph_index(data: &[u8], face_index: u32, c: char) -> (r: Option<u16>)
    requires
        face_parse_error(data@, face_index) is None,
    ensures
        r == glyph_index_of(data@, face_index, c),
{
    ttf_parser::Face::parse(data, face_index).unwrap().glyph_index(c).map(|g| g.0)
}

/// The subtables of the `kern` table of a usable face
/// (`Face::tables().kern`, walked with its iterator), each as its
/// `horizontal` and `has_cross_stream` flags: named, not stated.
#[verifier::external_body]
fn face_kern_subtables(data: &[u8], face_index: u32) -> (r: Vec<(bool, bool)>)
    requires
        face_parse_error(data@, face_index) is None,
    ensures
        r@ == kern_subtables_of(data@, face_index),
{
    match ttf_parser::Face::parse(data, face_index).unwrap().tables().kern {
        Some(kern) => kern.subtables.into_iter().map(|s| (s.horizontal, s.has_cross_stream)).collect(),
        None => Vec::new(),
    }
}

/// `Subtable::glyphs_kerning` of subtable `k` of the `kern` table of a
/// usable face, for the glyph pair: named, not stated.
#[verifier::external_body]
fn face_kern_pair(data: &[u8], face_index: u32, k: usize, first: u16, second: u16) -> (r: Option<i16>)
    requires
        face_parse_error(data@, face_index) is None,
        k < kern_subtables_of(data@, face_index).len(),
    ensures
        r == kern_pair_in(data@, face_index, k as nat, first, second),
{
    let face = ttf_parser::Face::parse(data, face_index).unwrap();
    match face.tables().kern {
        Some(kern) => kern.subtables.into_iter().nth(k).and_then(
            |s| s.glyphs_kerning(ttf_parser::GlyphId(first), ttf_parser::GlyphId(second)),
        ),
        None => None,
    }
}

/// `Face::glyph_hor_advance` of a usable face: named, not stated.
#[verifier::external_body]
fn face_glyph_hor_advance(data: &[u8], face_index: u32, glyph: u16) -> (r: Option<u16>)
    requires
        face_parse_error(data@, face_index) is None,
    ensures
        r == hor_advance_of(data@, face_index, glyph),
{
    ttf_parser::Face::parse(data, face_index).unwrap().glyph_hor_advance(ttf_parser::GlyphId(glyph))
}

/// `Face::glyph_bounding_box` of a usable face, its rectangle as a tuple:
/// named, not stated.
#[verifier::external_body]
fn face_glyph_bounding_box(data: &[u8], face_index: u32, glyph: u16) -> (r: Option<
    (i16, i16, i16, i16),
>)
    requires
        face_parse_error(data@, face_index) is None,
    ensures
        r == glyph_bbox_of(data@, face_index, glyph),
{
    ttf_parser::Face::parse(data, face_index).unwrap().glyph_bounding_box(ttf_parser::GlyphId(glyph)).map(
        |b| (b.x_min, b.y_min, b.x_max, b.y_max),
    )
}

/// `Face::ascender` of a usable face: named, not stated.
#[verifier::external_body]
fn face_ascender(data: &[u8], face_index: u32) -> (r: i16)
    requires
        face_parse_error(data@, face_index) is None,
    ensures
        r == ascender_of(data@, face_index),
{
    ttf_parser::Face::parse(data, face_index).unwrap().ascender()
}

/// `Face::descender` of a usable face: named, not stated.
#[verifier::external_body]
fn face_descender(data: &[u8], face_index: u32) -> (r: i16)
    requires
        face_parse_error(data@, face_index) is None,
    ensures
        r == descender_of(data@, face_index),
{
    ttf_parser::Face::parse(data, face_index).unwrap().descender()
}

impl FaceError {
    /// The message of a refused font: `Failed to parse font: ` and the
    /// kind's name.
    pub fn message(&self) -> (s: String)
        ensures
            s@ == face_error_message(*self),
    {
        let name: &str = match self {
            FaceError::MalformedFont => "MalformedFont",
            FaceError::UnknownMagic => "UnknownMagic",
            FaceError::FaceIndexOutOfBounds => "FaceIndexOutOfBounds",
            FaceError::NoHeadTable => "NoHeadTable",
            FaceError::NoHheaTable => "NoHheaTable",
            FaceError::NoMaxpTable => "NoMaxpTable",
        };
        let mut s = String::from_str("Failed to parse font: ");
        s.append(name);
        s
    }
}

/// A font face held as its data and face index, with the engine's
/// integer settings. The face always parses.
pub struct FontEngine {
    face_data: Vec<u8>,
    face_index: u32,
    flip_y: bool,
    hinting: bool,
}

impl FontEngine {
    #[verifier::type_invariant]
    spec fn usable(&self) -> bool {
        face_parse_error(self.face_data@, self.face_index) is None
    }

    /// The font data.
    pub closed spec fn data(&self) -> Seq<u8> {
        self.face_data@
    }

    /// The face index within the data.
    pub closed spec fn index(&self) -> u32 {
        self.face_index
    }

    /// Whether y coordinates are flipped.
    pub closed spec fn flipped(&self) -> bool {
        self.flip_y
    }

    /// Whether hinting is requested.
    pub closed spec fn hinted(&self) -> bool {
        self.hinting
    }

    /// An engine for face `face_index` of `data` with y not flipped and no
    /// hinting, or the message of the parser's error.
    pub fn from_data(data: Vec<u8>, face_index: u32) -> (r: Result<FontEngine, String>)
        ensures
            match face_parse_error(data@, face_index) {
                None => r matches Ok(e) && e.data() == data@ && e.index() == face_index
                    && !e.flipped() && !e.hinted(),
                Some(err) => r matches Err(s) && s@ == face_error_message(err),
            },
    {
        match parse_face(data.as_slice(), face_index) {
            None => Ok(FontEngine { face_data: data, face_index, flip_y: false, hinting: false }),
            Some(err) => Err(err.message()),
        }
    }

    /// Sets whether y coordinates are flipped.
    pub fn set_flip_y(&mut self, flip: bool)
        ensures
            final(self).flipped() == flip,
            final(self).data() == old(self).data(),
            final(self).index() == old(self).index(),
            final(self).hinted() == old(self).hinted(),
    {
        proof {
            use_type_invariant(&*self);
        }
        self.flip_y = flip;
    }

    pub fn flip_y(&self) -> (b: bool)
        ensures
            b == self.flipped(),
    {
        self.flip_y
    }

    /// Sets whether hinting is requested.
    pub fn set_hinting(&mut self, h: bool)
        ensures
            final(self).hinted() == h,
            final(self).data() == old(self).data(),
            final(self).index() == old(self).index(),
            final(self).flipped() == old(self).flipped(),
    {
        proof {
            use_type_invariant(&*self);
        }
        self.hinting = h;
    }

    pub fn hinting(&self) -> (b: bool)
        ensures
            b == self.hinted(),
    {
        self.hinting
    }

    /// The font data.
    pub fn face_data(&self) -> (d: &[u8])
        ensures
            d@ == self.data(),
    {
        self.face_data.as_slice()
    }

    /// The face index.
    pub fn face_index(&self) -> (i: u32)
        ensures
            i == self.index(),
    {
        self.face_index
    }

    /// Font units per em of the face.
    pub fn units_per_em(&self) -> (u: u16)
        ensures
            u == units_per_em_of(self.data(), self.index()),
            16 <= u <= 16384,
    {
        proof {
            use_type_invariant(self);
        }
        face_units_per_em(self.face_data.as_slice(), self.face_index)
    }

    /// Horizontal kerning of a glyph pair in font units: the value of the
    /// first `kern` subtable that is horizontal, not cross-stream, and has
    /// the pair; `None` when there is none.
    pub fn kerning_units(&self, first: u16, second: u16) -> (v: Option<i16>)
        ensures
            v == first_kern_pair(
                kern_subtables_of(self.data(), self.index()),
                self.data(),
                self.index(),
                0,
                first,
                second,
            ),
    {
        proof {
            use_type_invariant(self);
        }
        let data = self.face_data.as_slice();
        let subs = face_kern_subtables(data, self.face_index);
        let ghost gsubs = subs@;
        let n = subs.len();
        let mut k: usize = 0;
        while k < n
            invariant
                n == subs@.len(),
                subs@ == gsubs,
                gsubs == kern_subtables_of(data@, self.face_index),
                data@ == self.data(),
                self.face_index == self.index(),
                face_parse_error(data@, self.face_index) is None,
                k <= n,
                first_kern_pair(gsubs, data@, self.face_index, 0, first, second) == first_kern_pair(
                    gsubs,
                    data@,
                    self.face_index,
                    k as nat,
                    first,
                    second,
                ),
            decreases n - k,
        {
            let (horizontal, cross) = subs[k];
            if horizontal && !cross {
                let r = face_kern_pair(data, self.face_index, k, first, second);
                if r.is_some() {
                    return r;
                }
            }
            k = k + 1;
        }
        None
    }

    /// Horizontal advance of a glyph in font units, if the face has one.
    pub fn hor_advance_units(&self, glyph: u16) -> (a: Option<u16>)
        ensures
            a == hor_advance_of(self.data(), self.index(), glyph),
    {
        proof {
            use_type_invariant(self);
        }
        face_glyph_hor_advance(self.face_data.as_slice(), self.face_index, glyph)
    }

    /// The bounding box of a glyph's outline in font units, `None` for a
    /// glyph without outline.
    pub fn glyph_bbox_units(&self, glyph: u16) -> (b: Option<(i16, i16, i16, i16)>)
        ensures
            b == glyph_bbox_of(self.data(), self.index(), glyph),
    {
        proof {
            use_type_invariant(self);
        }
        face_glyph_bounding_box(self.face_data.as_slice(), self.face_index, glyph)
    }

    /// The face's ascender in font units.
    pub fn ascender_units(&self) -> (a: i16)
        ensures
            a == ascender_of(self.data(), self.index()),
    {
        proof {
            use_type_invariant(self);
        }
        face_ascender(self.face_data.as_slice(), self.face_index)
    }

    /// The face's descender in font units.
    pub fn descender_units(&self) -> (d: i16)
        ensures
            d == descender_of(self.data(), self.index()),
    {
        proof {
            use_type_invariant(self);
        }
        face_descender(self.face_data.as_slice(), self.face_index)
    }

    /// The glyph of character code `char_code`: `None` when the code is not
    /// a Unicode scalar value or the face maps no glyph to it.
    pub fn glyph_index(&self, char_code: u32) -> (g: Option<u16>)
        ensures
            !is_scalar_value(char_code) ==> g is None,
            is_scalar_value(char_code) ==> g == glyph_index_of(
                self.data(),
                self.index(),
                char_code as char,
            ),
    {
        proof {
            use_type_invariant(self);
        }
        match char::from_u32(char_code) {
            None => None,
            Some(c) => {
                proof {
                    vstd::utf8::char_u32_cast(c, char_code);
                }
                face_glyph_index(self.face_data.as_slice(), self.face_index, c)
            },
        }
    }
}

} // verus!
