//! Anti-Grain Geometry building blocks with verified integer logic: colour
//! arithmetic, rectangles and path commands, line and ellipse interpolators,
//! image accessors, alpha masks, gradient tables, raster and TrueType glyph
//! lookups, sorting utilities and stack blur.
pub mod basics;
pub mod clip_liang_barsky;
pub mod color;
pub mod fixed_point;
pub mod gamma;
pub mod dda_line;
pub mod ellipse_bresenham;
pub mod rendering_buffer;
pub mod array;
pub mod image_accessors;
pub mod alpha_mask_u8;
pub mod blur;
pub mod comp_op;
pub mod gradient_lut;
pub mod glyph_raster_bin;
pub mod curves;
pub mod font_engine;
pub mod image_filters;
