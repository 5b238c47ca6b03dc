//! Errors reported by the PPM header, encoder and decoder.

use vstd::prelude::*;

verus! {

/// What went wrong while building a header, encoding or decoding an image.
#[derive(Clone, Copy, Debug, PartialEq, Eq, Structural)]
pub enum PpmError {
    /// `maxval` outside `(0, 65535)`, or a width, height or maxval token that does not parse.
    InvalidHeader,
    /// The stream does not begin with the magic constant `P3`.
    WrongMagic,
    /// The pixel buffer does not hold `width * height` samples.
    ShapeMismatch,
    /// A channel value above `maxval`, or a sample token that does not parse; `index` counts
    /// channel values from zero, three per pixel in the order red, green, blue.
    SampleOutOfRange { index: usize },
    /// The stream ends before every token that the header calls for was read.
    TruncatedInput,
    /// The byte sink or source failed.
    IoFailure,
}

} // verus!
