//! Encodes a pixel buffer, with its header, into the plain-text PPM format.

use vstd::prelude::*;
use crate::error::PpmError;
use crate::header::{ImageDimensions, PpmHeader, magic_bytes};
use crate::text::{decimal, push_decimal};
use crate::vec3::Vec3;

verus! {

/// The header lines: `P3`, then `<width> <height>`, then `<maxval>`, each ended by a newline.
pub open spec fn header_text(d: ImageDimensions, maxval: u16) -> Seq<u8> {
    magic_bytes() + seq![0x0au8] + decimal(d.width as nat) + seq![0x20u8] + decimal(
        d.height as nat,
    ) + seq![0x0au8] + decimal(maxval as nat) + seq![0x0au8]
}

/// One pixel as a line: `<red> <green> <blue>` and a newline.
pub open spec fn pixel_text(p: Vec3<u16>) -> Seq<u8> {
    decimal(p.0 as nat) + seq![0x20u8] + decimal(p.1 as nat) + seq![0x20u8] + decimal(
        p.2 as nat,
    ) + seq![0x0au8]
}

/// The pixel lines, in the order of `ps`.
pub open spec fn pixels_text(ps: Seq<Vec3<u16>>) -> Seq<u8>
    decreases ps.len(),
{
    if ps.len() == 0 {
        Seq::empty()
    } else {
        pixels_text(ps.drop_last()) + pixel_text(ps.last())
    }
}

/// The whole image in the plain-text PPM format.
pub open spec fn ppm_text(header: (ImageDimensions, u16), ps: Seq<Vec3<u16>>) -> Seq<u8> {
    header_text(header.0, header.1) + pixels_text(ps)
}

/// Channel value number `i` of `ps`: three per pixel, in the order red, green, blue.
pub open spec fn channel(ps: Seq<Vec3<u16>>, i: int) -> u16 {
    let p = ps[i / 3];
    if i % 3 == 0 {
        p.0
    } else if i % 3 == 1 {
        p.1
    } else {
        p.2
    }
}

/// Every channel value of `ps` is at most `maxval`.
pub open spec fn channels_in_range(ps: Seq<Vec3<u16>>, maxval: u16) -> bool {
    forall|i: int| 0 <= i < 3 * ps.len() ==> #[trigger] channel(ps, i) <= maxval
}

/// Channel value number `i` is the first one of `ps` above `maxval`.
pub open spec fn first_out_of_range(ps: Seq<Vec3<u16>>, maxval: u16, i: int) -> bool {
    &&& 0 <= i < 3 * ps.len()
    &&& channel(ps, i) > maxval
    &&& forall|j: int| 0 <= j < i ==> #[trigger] channel(ps, j) <= maxval
}

/// What encoding `ps` under `header` gives: the text of the image, `ShapeMismatch` where `ps`
/// does not hold `width * height` pixels, else `SampleOutOfRange` at the first channel value
/// above `maxval`.
pub open spec fn encoded(header: (ImageDimensions, u16), ps: Seq<Vec3<u16>>) -> Result<
    Seq<u8>,
    PpmError,
> {
    if ps.len() != header.0.width * header.0.height {
        Err(PpmError::ShapeMismatch)
    } else if channels_in_range(ps, header.1) {
        Ok(ppm_text(header, ps))
    } else {
        Err(
            PpmError::SampleOutOfRange {
                index: (choose|i: int| first_out_of_range(ps, header.1, i)) as usize,
            },
        )
    }
}

/// At most one channel value is the first one out of range.
pub proof fn lemma_first_out_of_range_unique(ps: Seq<Vec3<u16>>, maxval: u16, i: int, j: int)
    requires
        first_out_of_range(ps, maxval, i),
        first_out_of_range(ps, maxval, j),
    ensures
        i == j,
{
}

/// Encoder of pixel buffers into the plain-text PPM format, under one header.
#[derive(Clone, Copy, Debug, PartialEq, Eq, Structural)]
pub struct PpmEncoder {
    header: PpmHeader,
}

impl PpmEncoder {
    /// An encoder for images described by `header`.
    pub fn new(header: PpmHeader) -> (r: Self)
        ensures
            r.spec_header() == header,
    {
        PpmEncoder { header }
    }

    /// The header that this encoder writes.
    pub closed spec fn spec_header(&self) -> PpmHeader {
        self.header
    }

    /// The header that this encoder writes.
    pub fn header(&self) -> (r: PpmHeader)
        ensures
            r == self.spec_header(),
    {
        self.header
    }

    /// Encodes `pixels`, in row-major order, into the bytes of a plain-text PPM stream.
    ///
    /// Fails with `ShapeMismatch` unless `pixels` holds `width * height` samples, and then with
    /// `SampleOutOfRange` at the first channel value above `maxval`.
    pub fn encode(&self, pixels: &[Vec3<u16>]) -> (r: Result<Vec<u8>, PpmError>)
        requires
            pixels@.len() <= usize::MAX / 3,
        ensures
            match r {
                Ok(bytes) => encoded(self.spec_header()@, pixels@) == Ok::<Seq<u8>, PpmError>(
                    bytes@,
                ),
                Err(e) => encoded(self.spec_header()@, pixels@) == Err::<Seq<u8>, PpmError>(e),
            },
    {
        let ghost h = self.header@;
        let ghost ps = pixels@;
        let d = self.header.dimensions();
        let m = self.header.maxval();
        match d.width.checked_mul(d.height) {
            None => {
                return Err(PpmError::ShapeMismatch);
            },
            Some(n) => {
                if pixels.len() != n {
                    return Err(PpmError::ShapeMismatch);
                }
            },
        }
        let mut out: Vec<u8> = Vec::new();
        out.push(0x50u8);
        out.push(0x33u8);
        out.push(0x0au8);
        push_decimal(&mut out, d.width);
        out.push(0x20u8);
        push_decimal(&mut out, d.height);
        out.push(0x0au8);
        push_decimal(&mut out, m as usize);
        out.push(0x0au8);
        proof {
            assert(out@ =~= header_text(h.0, h.1));
            assert(ps.subrange(0, 0) =~= Seq::<Vec3<u16>>::empty());
        }
        let mut p: usize = 0;
        while p < pixels.len()
            invariant
                p <= pixels@.len() <= usize::MAX / 3,
                ps == pixels@,
                h == self.header@,
                d == h.0,
                m == h.1,
                ps.len() == d.width * d.height,
                out@ == header_text(h.0, h.1) + pixels_text(ps.subrange(0, p as int)),
                forall|j: int| 0 <= j < 3 * p ==> #[trigger] channel(ps, j) <= m,
            decreases pixels@.len() - p,
        {
            let px: Vec3<u16> = pixels[p];
            let ghost q = p as int;
            proof {
                assert((3 * q) / 3 == q && (3 * q) % 3 == 0);
                assert((3 * q + 1) / 3 == q && (3 * q + 1) % 3 == 1);
                assert((3 * q + 2) / 3 == q && (3 * q + 2) % 3 == 2);
            }
            if px.0 > m {
                proof {
                    assert(first_out_of_range(ps, m, 3 * q));
                    lemma_first_out_of_range_unique(
                        ps,
                        m,
                        3 * q,
                        choose|i: int| first_out_of_range(ps, m, i),
                    );
                }
                return Err(PpmError::SampleOutOfRange { index: 3 * p });
            }
            if px.1 > m {
                proof {
                    assert(first_out_of_range(ps, m, 3 * q + 1));
                    lemma_first_out_of_range_unique(
                        ps,
                        m,
                        3 * q + 1,
                        choose|i: int| first_out_of_range(ps, m, i),
                    );
                }
                return Err(PpmError::SampleOutOfRange { index: 3 * p + 1 });
            }
            if px.2 > m {
                proof {
                    assert(first_out_of_range(ps, m, 3 * q + 2));
                    lemma_first_out_of_range_unique(
                        ps,
                        m,
                        3 * q + 2,
                        choose|i: int| first_out_of_range(ps, m, i),
                    );
                }
                return Err(PpmError::SampleOutOfRange { index: 3 * p + 2 });
            }
            let ghost before = out@;
            push_decimal(&mut out, px.0 as usize);
            out.push(0x20u8);
            push_decimal(&mut out, px.1 as usize);
            out.push(0x20u8);
            push_decimal(&mut out, px.2 as usize);
            out.push(0x0au8);
            proof {
                assert(out@ =~= before + pixel_text(px));
                assert(ps.subrange(0, q + 1).drop_last() =~= ps.subrange(0, q));
                assert(ps.subrange(0, q + 1).last() == px);
                assert forall|j: int| 0 <= j < 3 * (q + 1) implies #[trigger] channel(ps, j)
                    <= m by {
                    if j >= 3 * q {
                        assert(j == 3 * q || j == 3 * q + 1 || j == 3 * q + 2);
                    }
                }
            }
            p = p + 1;
        }
        proof {
            assert(ps.subrange(0, p as int) =~= ps);
            assert(channels_in_range(ps, m));
        }
        Ok(out)
    }
}

} // verus!
