//! Decodes a plain-text PPM stream into its header and pixel buffer.

use vstd::prelude::*;
use crate::error::PpmError;
use crate::header::{ImageDimensions, PpmHeader, magic_bytes, valid_maxval};
use crate::text::{
    find_token_end,
    is_delimiter,
    is_number,
    lemma_tokens_step,
    parse_decimal,
    skip_separators,
    tokens_from,
    value,
};
use crate::vec3::Vec3;

verus! {

/// The stream opens with the magic constant `P3`, as a token of its own.
pub open spec fn has_magic(s: Seq<u8>) -> bool {
    &&& s.len() >= 2
    &&& s.subrange(0, 2) == magic_bytes()
    &&& s.len() == 2 || is_delimiter(s[2])
}

/// `t` is a numeral whose value is at most `limit`.
pub open spec fn fits(t: Seq<u8>, limit: nat) -> bool {
    is_number(t) && value(t) <= limit
}

/// Sample token number `i` (counted after the three header numbers) is present and is a
/// numeral no greater than `maxval`.
pub open spec fn sample_ok(ts: Seq<Seq<u8>>, i: int, maxval: nat) -> bool {
    3 + i < ts.len() && fits(ts[3 + i], maxval)
}

/// Sample number `i` is the first of the `n` expected ones that is missing or invalid.
pub open spec fn first_bad_sample(ts: Seq<Seq<u8>>, maxval: nat, n: int, i: int) -> bool {
    &&& 0 <= i < n
    &&& !sample_ok(ts, i, maxval)
    &&& forall|j: int| 0 <= j < i ==> #[trigger] sample_ok(ts, j, maxval)
}

/// The value of sample token number `i`.
pub open spec fn sample_value(ts: Seq<Seq<u8>>, i: int) -> u16 {
    value(ts[3 + i]) as u16
}

/// The first `count` pixels, three sample tokens each.
pub open spec fn decoded_pixels(ts: Seq<Seq<u8>>, count: nat) -> Seq<Vec3<u16>> {
    Seq::new(
        count,
        |p: int| Vec3(sample_value(ts, 3 * p), sample_value(ts, 3 * p + 1), sample_value(ts, 3 * p + 2)),
    )
}

/// What the tokens after the magic constant decode to: width, height and maxval, then
/// `3 * width * height` samples; the first missing or invalid token decides the error.
pub open spec fn decode_tokens(ts: Seq<Seq<u8>>) -> Result<
    (ImageDimensions, u16, Seq<Vec3<u16>>),
    PpmError,
> {
    if ts.len() < 1 {
        Err(PpmError::TruncatedInput)
    } else if !fits(ts[0], usize::MAX as nat) {
        Err(PpmError::InvalidHeader)
    } else if ts.len() < 2 {
        Err(PpmError::TruncatedInput)
    } else if !fits(ts[1], usize::MAX as nat) {
        Err(PpmError::InvalidHeader)
    } else if ts.len() < 3 {
        Err(PpmError::TruncatedInput)
    } else if !(is_number(ts[2]) && valid_maxval(value(ts[2]) as int)) {
        Err(PpmError::InvalidHeader)
    } else {
        let w = value(ts[0]);
        let h = value(ts[1]);
        let m = value(ts[2]);
        let n: int = 3 * (w * h) as int;
        if forall|i: int| 0 <= i < n ==> #[trigger] sample_ok(ts, i, m) {
            Ok(
                (
                    ImageDimensions { width: w as usize, height: h as usize },
                    m as u16,
                    decoded_pixels(ts, w * h),
                ),
            )
        } else {
            let i = choose|i: int| first_bad_sample(ts, m, n, i);
            if 3 + i < ts.len() {
                Err(PpmError::SampleOutOfRange { index: i as usize })
            } else {
                Err(PpmError::TruncatedInput)
            }
        }
    }
}

/// What the stream `s` decodes to: its dimensions, maxval and pixels, or the error.
pub open spec fn decoded(s: Seq<u8>) -> Result<(ImageDimensions, u16, Seq<Vec3<u16>>), PpmError> {
    if has_magic(s) {
        decode_tokens(tokens_from(s, 2))
    } else {
        Err(PpmError::WrongMagic)
    }
}

/// At most one sample is the first bad one.
pub proof fn lemma_first_bad_sample_unique(
    ts: Seq<Seq<u8>>,
    maxval: nat,
    n: int,
    i: int,
    j: int,
)
    requires
        first_bad_sample(ts, maxval, n, i),
        first_bad_sample(ts, maxval, n, j),
    ensures
        i == j,
{
}

/// A decoded image: its header and its pixels in row-major order.
#[derive(Clone, Debug, PartialEq, Eq)]
pub struct PpmImage {
    /// The header read from the stream.
    pub header: PpmHeader,
    /// The pixels, row 0 first, left to right within a row.
    pub pixels: Vec<Vec3<u16>>,
}

/// Reads the next token of `s` from `pos` on as a numeral no greater than `limit`.
///
/// Returns whether a token was there, its value where it fits, and where the token ends.
fn next_number(s: &[u8], pos: usize, limit: usize) -> (r: (bool, Option<usize>, usize))
    requires
        pos <= s@.len(),
    ensures
        r.0 == (tokens_from(s@, pos as nat).len() > 0),
        r.0 ==> r.1 == (if fits(tokens_from(s@, pos as nat)[0], limit as nat) {
            Some(value(tokens_from(s@, pos as nat)[0]) as usize)
        } else {
            None::<usize>
        }),
        r.0 ==> pos < r.2 <= s@.len(),
        r.0 ==> tokens_from(s@, r.2 as nat) == tokens_from(s@, pos as nat).drop_first(),
{
    proof {
        lemma_tokens_step(s@, pos as nat);
    }
    let start = skip_separators(s, pos);
    if start >= s.len() {
        return (false, None, start);
    }
    let end = find_token_end(s, start);
    let v = parse_decimal(s, start, end, limit);
    (true, v, end)
}

/// The header tokens of `ts` are a width, a height and a maxval that all parse.
pub open spec fn header_tokens_ok(ts: Seq<Seq<u8>>) -> bool {
    &&& ts.len() >= 3
    &&& fits(ts[0], usize::MAX as nat)
    &&& fits(ts[1], usize::MAX as nat)
    &&& is_number(ts[2]) && valid_maxval(value(ts[2]) as int)
}

/// Where sample `k` is the first bad one, it alone decides the error.
proof fn lemma_decode_first_bad(ts: Seq<Seq<u8>>, k: int)
    requires
        header_tokens_ok(ts),
        0 <= k < 3 * (value(ts[0]) * value(ts[1])) as int,
        !sample_ok(ts, k, value(ts[2])),
        forall|j: int| 0 <= j < k ==> #[trigger] sample_ok(ts, j, value(ts[2])),
    ensures
        decode_tokens(ts) == (if 3 + k < ts.len() {
            Err::<(ImageDimensions, u16, Seq<Vec3<u16>>), PpmError>(
                PpmError::SampleOutOfRange { index: k as usize },
            )
        } else {
            Err::<(ImageDimensions, u16, Seq<Vec3<u16>>), PpmError>(PpmError::TruncatedInput)
        }),
{
    let m = value(ts[2]);
    let n = 3 * (value(ts[0]) * value(ts[1])) as int;
    assert(first_bad_sample(ts, m, n, k));
    assert(!(forall|i: int| 0 <= i < n ==> #[trigger] sample_ok(ts, i, m)));
    lemma_first_bad_sample_unique(ts, m, n, k, choose|i: int| first_bad_sample(ts, m, n, i));
}

/// Reads sample token number `i`, which starts at or after `pos`.
///
/// `Err(true)` where the stream has ended, `Err(false)` where the token does not parse or
/// exceeds `maxval`.
fn read_sample(
    s: &[u8],
    pos: usize,
    maxval: u16,
    Ghost(ts): Ghost<Seq<Seq<u8>>>,
    Ghost(i): Ghost<int>,
) -> (r: Result<(u16, usize), bool>)
    requires
        pos <= s@.len(),
        0 <= i,
        3 + i <= ts.len(),
        tokens_from(s@, pos as nat) == ts.subrange(3 + i, ts.len() as int),
    ensures
        match r {
            Ok((v, e)) => {
                &&& sample_ok(ts, i, maxval as nat)
                &&& v == sample_value(ts, i)
                &&& pos < e <= s@.len()
                &&& tokens_from(s@, e as nat) == ts.subrange(3 + i + 1, ts.len() as int)
            },
            Err(ended) => !sample_ok(ts, i, maxval as nat) && (ended <==> 3 + i >= ts.len()),
        },
{
    let (found, v, e) = next_number(s, pos, maxval as usize);
    if !found {
        return Err(true);
    }
    proof {
        assert(ts.subrange(3 + i, ts.len() as int)[0] == ts[3 + i]);
        assert(ts.subrange(3 + i, ts.len() as int).drop_first() =~= ts.subrange(
            3 + i + 1,
            ts.len() as int,
        ));
    }
    match v {
        Some(x) => Ok((x as u16, e)),
        None => Err(false),
    }
}

/// Decoder of plain-text PPM streams.
#[derive(Clone, Debug, PartialEq, Eq)]
pub struct PpmDecoder {
    input: Vec<u8>,
}

impl PpmDecoder {
    /// A decoder of the bytes `input`.
    pub fn new(input: Vec<u8>) -> (r: Self)
        ensures
            r.spec_input() == input@,
    {
        PpmDecoder { input }
    }

    /// The bytes that this decoder reads.
    pub closed spec fn spec_input(&self) -> Seq<u8> {
        self.input@
    }

    /// Decodes the stream into its header and pixels.
    ///
    /// Fails with `WrongMagic` unless the stream opens with the token `P3`; then reads the
    /// width, height and maxval (`InvalidHeader` where one does not parse or maxval lies outside
    /// `(0, 65535)`), then `3 * width * height` samples (`SampleOutOfRange` at the first one
    /// that does not parse or exceeds maxval). Where the stream ends before a token that it
    /// needs, `TruncatedInput`. Whatever follows the last sample is ignored.
    pub fn decode(&self) -> (r: Result<PpmImage, PpmError>)
        ensures
            match r {
                Ok(img) => decoded(self.spec_input()) == Ok::<
                    (ImageDimensions, u16, Seq<Vec3<u16>>),
                    PpmError,
                >((img.header@.0, img.header@.1, img.pixels@)),
                Err(e) => decoded(self.spec_input()) == Err::<
                    (ImageDimensions, u16, Seq<Vec3<u16>>),
                    PpmError,
                >(e),
            },
    {
        let s = self.input.as_slice();
        proof {
            assert(s@ == self.input@);
        }
        if s.len() < 2 || s[0] != 0x50u8 || s[1] != 0x33u8 {
            proof {
                if s@.len() >= 2 && s@.subrange(0, 2) == magic_bytes() {
                    assert(s@.subrange(0, 2)[0] == s@[0]);
                    assert(s@.subrange(0, 2)[1] == s@[1]);
                }
            }
            return Err(PpmError::WrongMagic);
        }
        proof {
            assert(s@.subrange(0, 2) =~= magic_bytes());
        }
        if s.len() > 2 {
            let b: u8 = s[2];
            if !(b == 0x20 || b == 0x09 || b == 0x0a || b == 0x0d || b == 0x23) {
                return Err(PpmError::WrongMagic);
            }
        }
        let ghost ts = tokens_from(s@, 2);
        proof {
            assert(ts.subrange(0, ts.len() as int) =~= ts);
        }
        let (found, wv, pos) = next_number(s, 2, usize::MAX);
        if !found {
            return Err(PpmError::TruncatedInput);
        }
        let w: usize = match wv {
            Some(v) => v,
            None => {
                return Err(PpmError::InvalidHeader);
            },
        };
        proof {
            assert(ts.drop_first() =~= ts.subrange(1, ts.len() as int));
        }
        let (found, hv, pos) = next_number(s, pos, usize::MAX);
        if !found {
            return Err(PpmError::TruncatedInput);
        }
        let h: usize = match hv {
            Some(v) => v,
            None => {
                return Err(PpmError::InvalidHeader);
            },
        };
        proof {
            assert(ts.subrange(1, ts.len() as int)[0] == ts[1]);
            assert(ts.subrange(1, ts.len() as int).drop_first() =~= ts.subrange(
                2,
                ts.len() as int,
            ));
        }
        let (found, mv, pos) = next_number(s, pos, 65534);
        if !found {
            return Err(PpmError::TruncatedInput);
        }
        proof {
            assert(ts.subrange(2, ts.len() as int)[0] == ts[2]);
            assert(ts.subrange(2, ts.len() as int).drop_first() =~= ts.subrange(
                3,
                ts.len() as int,
            ));
        }
        let m: u16 = match mv {
            Some(v) => {
                if v == 0 {
                    return Err(PpmError::InvalidHeader);
                }
                v as u16
            },
            None => {
                return Err(PpmError::InvalidHeader);
            },
        };
        let dims = ImageDimensions { width: w, height: h };
        let header = match PpmHeader::new(dims, m) {
            Ok(hd) => hd,
            Err(e) => {
                return Err(e);
            },
        };
        proof {
            assert(has_magic(s@));
            assert(fits(ts[0], usize::MAX as nat));
            assert(fits(ts[1], usize::MAX as nat));
            assert(is_number(ts[2]) && valid_maxval(value(ts[2]) as int));
            assert(header_tokens_ok(ts));
        }
        let ghost wn = w as nat;
        let ghost hn = h as nat;
        let ghost n: int = 3 * (wn * hn) as int;
        let count: Option<usize> = w.checked_mul(h);
        let bound: usize = match count {
            Some(c) => c,
            None => usize::MAX,
        };
        proof {
            assert(ts.subrange(3, ts.len() as int) =~= ts.subrange(
                3int + 3 * 0int,
                ts.len() as int,
            ));
            assert(decoded_pixels(ts, 0) =~= Seq::<Vec3<u16>>::empty());
        }
        let mut pixels: Vec<Vec3<u16>> = Vec::new();
        let mut pos: usize = pos;
        while pixels.len() < bound
            invariant
                s@ == self.input@,
                ts == tokens_from(s@, 2),
                ts.len() >= 3,
                has_magic(s@),
                header_tokens_ok(ts),
                header@ == (dims, m),
                dims.width == wn && dims.height == hn,
                pixels@.len() <= bound,
                wn == value(ts[0]),
                hn == value(ts[1]),
                m as nat == value(ts[2]),
                n == 3 * (wn * hn) as int,
                count is Some <==> wn * hn <= usize::MAX,
                count matches Some(c) ==> c == wn * hn,
                bound == (if count is Some { wn * hn } else { usize::MAX as nat }),
                pos <= s@.len(),
                3 * pixels@.len() <= pos,
                3 + 3 * pixels@.len() <= ts.len(),
                tokens_from(s@, pos as nat) == ts.subrange(
                    3 + 3 * pixels@.len() as int,
                    ts.len() as int,
                ),
                pixels@ == decoded_pixels(ts, pixels@.len()),
                forall|j: int| 0 <= j < 3 * pixels@.len() ==> #[trigger] sample_ok(ts, j, m as nat),
            decreases s@.len() - pos,
        {
            let ghost k: int = 3 * pixels@.len() as int;
            proof {
                assert(pixels@.len() < wn * hn);
                assert(k < n) by (nonlinear_arith)
                    requires
                        k == 3 * pixels@.len(),
                        pixels@.len() < wn * hn,
                        n == 3 * (wn * hn) as int,
                ;
            }
            let c0: u16;
            let p0: usize;
            match read_sample(s, pos, m, Ghost(ts), Ghost(k)) {
                Ok((v, e)) => {
                    c0 = v;
                    p0 = e;
                },
                Err(ended) => {
                    proof {
                        lemma_decode_first_bad(ts, k);
                    }
                    if ended {
                        return Err(PpmError::TruncatedInput);
                    }
                    return Err(PpmError::SampleOutOfRange { index: 3 * pixels.len() });
                },
            }
            let c1: u16;
            let p1: usize;
            match read_sample(s, p0, m, Ghost(ts), Ghost(k + 1)) {
                Ok((v, e)) => {
                    c1 = v;
                    p1 = e;
                },
                Err(ended) => {
                    proof {
                        lemma_decode_first_bad(ts, k + 1);
                    }
                    if ended {
                        return Err(PpmError::TruncatedInput);
                    }
                    return Err(PpmError::SampleOutOfRange { index: 3 * pixels.len() + 1 });
                },
            }
            let c2: u16;
            let p2: usize;
            match read_sample(s, p1, m, Ghost(ts), Ghost(k + 2)) {
                Ok((v, e)) => {
                    c2 = v;
                    p2 = e;
                },
                Err(ended) => {
                    proof {
                        lemma_decode_first_bad(ts, k + 2);
                    }
                    if ended {
                        return Err(PpmError::TruncatedInput);
                    }
                    return Err(PpmError::SampleOutOfRange { index: 3 * pixels.len() + 2 });
                },
            }
            let ghost old_pixels = pixels@;
            pixels.push(Vec3(c0, c1, c2));
            pos = p2;
            proof {
                assert(pixels@ =~= decoded_pixels(ts, pixels@.len()));
                assert forall|j: int| 0 <= j < 3 * pixels@.len() implies #[trigger] sample_ok(
                    ts,
                    j,
                    m as nat,
                ) by {
                    if j >= k {
                        assert(j == k || j == k + 1 || j == k + 2);
                    }
                }
            }
        }
        proof {
            assert(pixels@.len() == wn * hn);
            assert(3 * pixels@.len() as int == n);
            assert(forall|i: int| 0 <= i < n ==> #[trigger] sample_ok(ts, i, m as nat));
        }
        Ok(PpmImage { header, pixels })
    }
}

} // verus!
