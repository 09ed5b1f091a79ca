use vstd::prelude::*;

verus! {

/// Why an operation of this library refused its input.
#[derive(Clone, Copy, Debug, PartialEq, Eq, Structural)]
pub enum TransformError {
    /// A width or height is zero, or the image is larger than
    /// [`crate::my_image::MAX_PIXELS`].
    InvalidDimension,
    /// A coordinate lies outside the image.
    OutOfBounds,
    /// A width or height is odd where 2x2 blocks are needed.
    OddDimension,
    /// Pixels that must share one layout differ in channel count or kind.
    ChannelCountMismatch,
    /// A channel index is not below the channel count.
    ChannelIndexOutOfRange,
    /// A channel value lies outside the range of its channel kind.
    Overflow,
}

} // verus!
