//! Cuts the square covers out of a collage laid out as a regular grid.
//!
//! A collage is turned into a matrix of intensities, edge gradients are taken
//! by convolution, the gradients are summed along each axis, and the runs of
//! nonzero sums bound the cells that are cut out.
//!
//! All intensities are exact fixed-point numbers: a matrix stores integer
//! numerators over one common denominator, so a value is zero exactly when
//! its numerator is, and no rounding ever hides or invents a boundary.
pub mod boundary;
pub mod greyscale;
pub mod grid;
pub mod kernel;
pub mod matrix;
pub mod pixels;
pub mod segment;
