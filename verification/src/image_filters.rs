//! Image filter kernels. Their weight functions are floating point and are
//! provided outside this library; here are the kernel types themselves.
use vstd::prelude::*;

verus! {

/// Bilinear kernel, radius 1.
pub struct ImageFilterBilinear;

/// Hanning window, radius 1.
pub struct ImageFilterHanning;

/// Hamming window, radius 1.
pub struct ImageFilterHamming;

/// Cubic Hermite kernel, radius 1.
pub struct ImageFilterHermite;

/// Piecewise quadratic kernel, radius 1.5.
pub struct ImageFilterQuadric;

/// Cubic B-spline kernel, radius 2.
pub struct ImageFilterBicubic;

/// Catmull-Rom spline kernel, radius 2.
pub struct ImageFilterCatrom;

/// Spline16 kernel, radius 2.
pub struct ImageFilterSpline16;

/// Spline36 kernel, radius 3.
pub struct ImageFilterSpline36;

/// Gaussian kernel, radius 2.
pub struct ImageFilterGaussian;

/// Bessel kernel, radius about 3.24.
pub struct ImageFilterBessel;

} // verus!
