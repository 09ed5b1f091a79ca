//! Haar-like 2x2 block transform over integer images.
//!
//! An [`my_image::Image`] is a grid of [`pixel_type::Pixel`] values. A
//! [`compress::Superpixel`] is one 2x2 block of it; the block transform turns
//! the block into an average and three differences and back. The functions in
//! [`pyramid`] apply the transform to every block of an image and repeat it on
//! the average plane until a single pixel is left.
//!
//! Channel values are integers. The transform computes in a 32-bit
//! accumulator and stores each result in the channel kind of its input,
//! clamped to that kind's range; [`compress`] states the policy in full.
//!
//! [`color`] and [`conversion`] hold the 8-bit colours and the conversions
//! between them that need no floating point, and [`reduce`] applies the
//! transform to blocks of such colours.
//!
//! Everything here is verified but the three operations of the matrix that
//! stores an image's pixels, whose contracts are stated in `grid` and taken
//! on trust.

pub mod error;
pub mod pixel_type;
mod grid;
pub mod my_image;
pub mod compress;
pub mod pyramid;
pub mod color;
pub mod conversion;
pub mod reduce;
