# agg

Integer building blocks of the Anti-Grain Geometry 2D renderer, with their
behaviour stated in Verus contracts and proved.

## Layout

- `src/` — the verified library:
  - `basics`, `clip_liang_barsky`: rectangles, path command bits, region codes;
  - `color`, `fixed_point`, `gamma`: 8- and 16-bit colour arithmetic, the
    rounding multiplies and interpolations, gamma tables;
  - `dda_line`, `ellipse_bresenham`: fixed-point line and ellipse steppers;
  - `rendering_buffer`, `image_accessors`, `alpha_mask_u8`: row buffers,
    clipped/clamped/wrapped pixel reads, alpha masks;
  - `blur`: stack blur (proved equal to a triangle convolution) and the 3x3
    box blur;
  - `comp_op`: the compositing pixel format's copying side;
  - `gradient_lut`: colour interpolators and gradient tables built from stops;
  - `glyph_raster_bin`: reading glyphs of embedded bitmap fonts;
  - `font_engine`: TrueType face validation and character-map lookups through
    `ttf-parser`;
  - `array`: quick sort, duplicate removal, binary search.
- `app/` — the floating-point side (blend formulas, filter kernels, gamma
  curves, the recursive blur, segment clipping, scaled glyph outlines), which
  calls the library for the integer work.
- `tests/` — unit tests of the library.

## What the rectangle contracts cover

`Rect<T>` and the region codes of `clip_liang_barsky` are generic over the
coordinate type. Their contracts state the exact result (minima, maxima,
flag bits) for every coordinate type whose comparisons obey their
specification, which the integer types do; the rectangle laws (intersection
and union corner-wise and symmetric, normalization, overlap) are proved for
every coordinate type whose comparison is a total order (`total_order`,
which `i32` meets). For `f64` coordinates Verus knows nothing of how `<`
behaves, so there the contracts only bound the result (a region code is
below 16); the floating-point segment clipper itself lives in `app/`.
