//! Header metadata of a PPM image.

use vstd::prelude::*;
use crate::error::PpmError;

verus! {

/// The two bytes `P3` (in ASCII) that open every plain-text PPM stream.
pub open spec fn magic_bytes() -> Seq<u8> {
    seq![0x50u8, 0x33u8]
}

/// The two-byte magic constant (in ASCII) that identifies the plain-text PPM format, `P3`.
pub fn plain_text_ppm_magic_constant() -> (r: [u8; 2])
    ensures
        r@ == magic_bytes(),
{
    let r: [u8; 2] = [0x50u8, 0x33u8];
    proof {
        assert(r@ =~= magic_bytes());
    }
    r
}

/// Dimensions of a 2D image, in pixels.
#[derive(Clone, Copy, Debug, PartialEq, Eq, Structural, PartialOrd, Ord, Hash)]
pub struct ImageDimensions {
    /// Width of the image in number of pixels.
    pub width: usize,
    /// Height of the image in number of pixels.
    pub height: usize,
}

/// Whether `m` may be the maximum sample value of an image: `0 < m < 65535`.
pub open spec fn valid_maxval(m: int) -> bool {
    0 < m < 65535
}

/// Header metadata of a PPM image: its dimensions and its maximum sample value.
#[derive(Clone, Copy, Debug, PartialEq, Eq, Structural, Hash)]
pub struct PpmHeader {
    dimensions: ImageDimensions,
    maxval: u16,
}

impl View for PpmHeader {
    type V = (ImageDimensions, u16);

    /// The dimensions and the maximum sample value.
    closed spec fn view(&self) -> (ImageDimensions, u16) {
        (self.dimensions, self.maxval)
    }
}

impl PpmHeader {
    #[verifier::type_invariant]
    spec fn inv(&self) -> bool {
        valid_maxval(self.maxval as int)
    }

    /// Constructs a header; fails with `InvalidHeader` unless `0 < maxval < 65535`.
    ///
    /// Dimensions `{0, 0}` denote an image with no pixel data: only the header is written or
    /// read.
    pub fn new(dimensions: ImageDimensions, maxval: u16) -> (r: Result<PpmHeader, PpmError>)
        ensures
            r is Ok <==> valid_maxval(maxval as int),
            r matches Ok(h) ==> h@ == (dimensions, maxval),
            r matches Err(e) ==> e == PpmError::InvalidHeader,
    {
        if maxval == 0 || maxval == u16::MAX {
            Err(PpmError::InvalidHeader)
        } else {
            Ok(PpmHeader { dimensions, maxval })
        }
    }

    /// The dimensions given in the header.
    pub fn dimensions(&self) -> (r: ImageDimensions)
        ensures
            r == self@.0,
    {
        self.dimensions
    }

    /// The maximum sample value given in the header, always within `(0, 65535)`.
    pub fn maxval(&self) -> (r: u16)
        ensures
            r == self@.1,
            valid_maxval(r as int),
    {
        proof {
            use_type_invariant(self);
        }
        self.maxval
    }
}

} // verus!
