//! Laws that relate the encoder, the decoder and the header.

use vstd::prelude::*;
use crate::decode::{decoded, decode_tokens, decoded_pixels, has_magic, sample_ok};
use crate::encode::{
    channel,
    channels_in_range,
    encoded,
    header_text,
    pixel_text,
    pixels_text,
    ppm_text,
};
use crate::header::{ImageDimensions, PpmHeader, magic_bytes, valid_maxval};
use crate::text::{
    decimal,
    is_token,
    is_comment,
    is_commented,
    is_space,
    is_spaced,
    lemma_decimal_value,
    lemma_number_is_token,
    lemma_spaced_concat,
    lemma_spaced_single,
    lemma_tokens_of_commented,
    lemma_tokens_of_spaced,
    lemma_tokens_skip_comment,
    lemma_tokens_skip_space,
    tokens_from,
    value,
};
use crate::vec3::Vec3;

verus! {

/// The numerals of the channel values of `ps`, three per pixel.
pub open spec fn pixel_numerals(ps: Seq<Vec3<u16>>) -> Seq<Seq<u8>>
    decreases ps.len(),
{
    if ps.len() == 0 {
        Seq::empty()
    } else {
        let p = ps.last();
        pixel_numerals(ps.drop_last()) + seq![
            decimal(p.0 as nat),
            decimal(p.1 as nat),
            decimal(p.2 as nat),
        ]
    }
}

proof fn lemma_div3(q: int, c: int)
    requires
        0 <= c < 3,
    ensures
        (3 * q + c) / 3 == q,
        (3 * q + c) % 3 == c,
{
}

proof fn lemma_pixels_spaced(ps: Seq<Vec3<u16>>)
    ensures
        is_spaced(pixels_text(ps), pixel_numerals(ps)),
        pixel_numerals(ps).len() == 3 * ps.len(),
        forall|i: int|
            0 <= i < 3 * ps.len() ==> #[trigger] pixel_numerals(ps)[i] == decimal(
                channel(ps, i) as nat,
            ),
    decreases ps.len(),
{
    if ps.len() == 0 {
        assert(is_spaced(Seq::<u8>::empty(), Seq::<Seq<u8>>::empty()));
    } else {
        let qs = ps.drop_last();
        let p = ps.last();
        lemma_pixels_spaced(qs);
        let d0 = decimal(p.0 as nat);
        let d1 = decimal(p.1 as nat);
        let d2 = decimal(p.2 as nat);
        lemma_spaced_single(d0, 0x20u8);
        lemma_spaced_single(d1, 0x20u8);
        lemma_spaced_single(d2, 0x0au8);
        lemma_spaced_concat(d1 + seq![0x20u8], seq![d1], d2 + seq![0x0au8], seq![d2]);
        lemma_spaced_concat(
            d0 + seq![0x20u8],
            seq![d0],
            (d1 + seq![0x20u8]) + (d2 + seq![0x0au8]),
            seq![d1] + seq![d2],
        );
        assert(pixel_text(p) =~= (d0 + seq![0x20u8]) + ((d1 + seq![0x20u8]) + (d2
            + seq![0x0au8])));
        assert(seq![d0] + (seq![d1] + seq![d2]) =~= seq![d0, d1, d2]);
        lemma_spaced_concat(pixels_text(qs), pixel_numerals(qs), pixel_text(p), seq![d0, d1, d2]);
        let n = 3 * qs.len();
        assert forall|i: int| 0 <= i < 3 * ps.len() implies #[trigger] pixel_numerals(ps)[i]
            == decimal(channel(ps, i) as nat) by {
            if i < n {
                assert(pixel_numerals(ps)[i] == pixel_numerals(qs)[i]);
                assert(i / 3 < qs.len());
                assert(qs[i / 3] == ps[i / 3]);
            } else {
                lemma_div3(qs.len() as int, i - n);
            }
        }
    }
}

proof fn lemma_pixel_numerals_tokens(ps: Seq<Vec3<u16>>)
    ensures
        forall|k: int| 0 <= k < pixel_numerals(ps).len() ==> is_token(#[trigger] pixel_numerals(ps)[k]),
{
    lemma_pixels_spaced(ps);
    assert forall|k: int| 0 <= k < pixel_numerals(ps).len() implies is_token(
        #[trigger] pixel_numerals(ps)[k],
    ) by {
        lemma_decimal_value(channel(ps, k) as nat);
        lemma_number_is_token(pixel_numerals(ps)[k]);
    }
}

/// The encoded text opens with the magic constant and its tokens are the header numerals and
/// then the numerals of the channel values.
proof fn lemma_text_tokens(d: ImageDimensions, m: u16, ps: Seq<Vec3<u16>>)
    ensures
        has_magic(ppm_text((d, m), ps)),
        tokens_from(ppm_text((d, m), ps), 2) == seq![
            decimal(d.width as nat),
            decimal(d.height as nat),
            decimal(m as nat),
        ] + pixel_numerals(ps),
{
    let s = ppm_text((d, m), ps);
    let dw = decimal(d.width as nat);
    let dh = decimal(d.height as nat);
    let dm = decimal(m as nat);
    lemma_decimal_value(d.width as nat);
    lemma_decimal_value(d.height as nat);
    lemma_decimal_value(m as nat);
    lemma_spaced_single(dw, 0x20u8);
    lemma_spaced_single(dh, 0x0au8);
    lemma_spaced_single(dm, 0x0au8);
    lemma_pixels_spaced(ps);
    let pn = pixel_numerals(ps);
    lemma_spaced_concat(dm + seq![0x0au8], seq![dm], pixels_text(ps), pn);
    lemma_spaced_concat(
        dh + seq![0x0au8],
        seq![dh],
        (dm + seq![0x0au8]) + pixels_text(ps),
        seq![dm] + pn,
    );
    lemma_spaced_concat(
        dw + seq![0x20u8],
        seq![dw],
        (dh + seq![0x0au8]) + ((dm + seq![0x0au8]) + pixels_text(ps)),
        seq![dh] + (seq![dm] + pn),
    );
    let ts = seq![dw] + (seq![dh] + (seq![dm] + pn));
    assert(s.subrange(3, s.len() as int) =~= (dw + seq![0x20u8]) + ((dh + seq![0x0au8]) + ((dm
        + seq![0x0au8]) + pixels_text(ps))));
    assert(ts =~= seq![dw, dh, dm] + pn);
    lemma_pixel_numerals_tokens(ps);
    lemma_number_is_token(dw);
    lemma_number_is_token(dh);
    lemma_number_is_token(dm);
    assert forall|k: int| 0 <= k < ts.len() implies is_token(#[trigger] ts[k]) by {
        if k >= 3 {
            assert(ts[k] == pn[k - 3]);
        }
    }
    lemma_tokens_of_spaced(s, 3, ts);
    assert(s[2] == 0x0au8);
    lemma_tokens_skip_space(s, 2);
    assert(s.subrange(0, 2) =~= magic_bytes());
}

/// The header numerals followed by the numerals of a valid pixel buffer decode to that header
/// and buffer.
proof fn lemma_numerals_decode(d: ImageDimensions, m: u16, ps: Seq<Vec3<u16>>)
    requires
        valid_maxval(m as int),
        ps.len() == d.width * d.height,
        channels_in_range(ps, m),
    ensures
        decode_tokens(
            seq![decimal(d.width as nat), decimal(d.height as nat), decimal(m as nat)]
                + pixel_numerals(ps),
        ) == Ok::<(ImageDimensions, u16, Seq<Vec3<u16>>), crate::error::PpmError>((d, m, ps)),
{
    let pn = pixel_numerals(ps);
    let ts = seq![decimal(d.width as nat), decimal(d.height as nat), decimal(m as nat)] + pn;
    lemma_decimal_value(d.width as nat);
    lemma_decimal_value(d.height as nat);
    lemma_decimal_value(m as nat);
    lemma_pixels_spaced(ps);
    assert(ts[0] == decimal(d.width as nat));
    assert(ts[1] == decimal(d.height as nat));
    assert(ts[2] == decimal(m as nat));
    let n = 3 * (d.width * d.height) as int;
    assert forall|i: int| 0 <= i < n implies #[trigger] sample_ok(ts, i, m as nat) by {
        assert(ts[3 + i] == pn[i]);
        lemma_decimal_value(channel(ps, i) as nat);
    }
    assert(decoded_pixels(ts, (d.width * d.height) as nat) =~= ps) by {
        assert forall|q: int| 0 <= q < ps.len() implies #[trigger] decoded_pixels(
            ts,
            (d.width * d.height) as nat,
        )[q] == ps[q] by {
            lemma_div3(q, 0);
            lemma_div3(q, 1);
            lemma_div3(q, 2);
            assert(ts[3 + 3 * q] == pn[3 * q]);
            assert(ts[3 + 3 * q + 1] == pn[3 * q + 1]);
            assert(ts[3 + 3 * q + 2] == pn[3 * q + 2]);
            lemma_decimal_value(ps[q].0 as nat);
            lemma_decimal_value(ps[q].1 as nat);
            lemma_decimal_value(ps[q].2 as nat);
        }
    }
}

/// Encoding a valid image and decoding the bytes gives back the same header and pixels: for
/// every header and every pixel buffer of `width * height` pixels whose channel values are at
/// most `maxval`, encoding succeeds and its bytes decode to exactly that header and buffer.
pub proof fn lemma_round_trip(header: PpmHeader, ps: Seq<Vec3<u16>>)
    requires
        valid_maxval(header@.1 as int),
        ps.len() == header@.0.width * header@.0.height,
        channels_in_range(ps, header@.1),
    ensures
        encoded(header@, ps) == Ok::<Seq<u8>, crate::error::PpmError>(ppm_text(header@, ps)),
        decoded(ppm_text(header@, ps)) == Ok::<
            (ImageDimensions, u16, Seq<Vec3<u16>>),
            crate::error::PpmError,
        >((header@.0, header@.1, ps)),
{
    lemma_text_tokens(header@.0, header@.1, ps);
    lemma_numerals_decode(header@.0, header@.1, ps);
}

/// A stream that does not open with the two bytes `P3` fails with `WrongMagic`.
pub proof fn lemma_wrong_magic(s: Seq<u8>)
    requires
        s.len() < 2 || s.subrange(0, 2) != magic_bytes(),
    ensures
        decoded(s) == Err::<(ImageDimensions, u16, Seq<Vec3<u16>>), crate::error::PpmError>(
            crate::error::PpmError::WrongMagic,
        ),
{
}

/// The text of a header with dimensions `{0, 0}`: `P3\n0 0\n<maxval>\n`.
pub open spec fn header_only_text(maxval: u16) -> Seq<u8> {
    seq![0x50u8, 0x33u8, 0x0au8, 0x30u8, 0x20u8, 0x30u8, 0x0au8] + decimal(maxval as nat) + seq![
        0x0au8,
    ]
}

/// An image of dimensions `{0, 0}` encodes to the header lines alone, and those bytes decode
/// to dimensions `{0, 0}` and an empty pixel buffer.
pub proof fn lemma_header_only(header: PpmHeader)
    requires
        valid_maxval(header@.1 as int),
        header@.0 == (ImageDimensions { width: 0, height: 0 }),
    ensures
        encoded(header@, Seq::empty()) == Ok::<Seq<u8>, crate::error::PpmError>(
            header_only_text(header@.1),
        ),
        decoded(header_only_text(header@.1)) == Ok::<
            (ImageDimensions, u16, Seq<Vec3<u16>>),
            crate::error::PpmError,
        >((ImageDimensions { width: 0, height: 0 }, header@.1, Seq::empty())),
{
    let ps = Seq::<Vec3<u16>>::empty();
    assert(channels_in_range(ps, header@.1));
    lemma_round_trip(header, ps);
    assert(decimal(0) =~= seq![0x30u8]);
    assert(pixels_text(ps) =~= Seq::<u8>::empty());
    assert(ppm_text(header@, ps) =~= header_only_text(header@.1));
}

/// Comments are skipped: a stream that holds a comment after the magic constant and after
/// every token decodes exactly as the same tokens separated by single separator bytes, whatever
/// the tokens are.
pub proof fn lemma_comments_skipped(
    ts: Seq<Seq<u8>>,
    first: Seq<u8>,
    cs: Seq<Seq<u8>>,
    plain: Seq<u8>,
    commented: Seq<u8>,
)
    requires
        forall|k: int| 0 <= k < ts.len() ==> is_token(#[trigger] ts[k]),
        plain.len() >= 3,
        plain.subrange(0, 2) == magic_bytes(),
        is_space(plain[2]),
        is_spaced(plain.subrange(3, plain.len() as int), ts),
        is_comment(first),
        commented.len() >= 2 + first.len(),
        commented.subrange(0, 2) == magic_bytes(),
        commented.subrange(2, 2 + first.len() as int) == first,
        is_commented(commented.subrange(2 + first.len() as int, commented.len() as int), ts, cs),
    ensures
        decoded(commented) == decoded(plain),
{
    lemma_tokens_of_spaced(plain, 3, ts);
    lemma_tokens_skip_space(plain, 2);
    assert(has_magic(plain));
    lemma_tokens_of_commented(commented, 2 + first.len(), ts, cs);
    lemma_tokens_skip_comment(commented, 2, first);
    assert(commented[2] == first[0]);
    assert(has_magic(commented));
}

} // verus!
