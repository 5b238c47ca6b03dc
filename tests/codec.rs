use ray_tracer::{ImageDimensions, PpmDecoder, PpmEncoder, PpmError, PpmHeader, PpmImage, Vec3};

fn header(width: usize, height: usize, maxval: u16) -> PpmHeader {
    PpmHeader::new(ImageDimensions { width, height }, maxval).unwrap()
}

fn encode(h: PpmHeader, pixels: &[Vec3<u16>]) -> Result<Vec<u8>, PpmError> {
    PpmEncoder::new(h).encode(pixels)
}

fn decode(bytes: &[u8]) -> Result<PpmImage, PpmError> {
    PpmDecoder::new(bytes.to_vec()).decode()
}

#[test]
fn round_trip_two_by_two() {
    let h = header(2, 2, 1000);
    let pixels = vec![
        Vec3::new(0, 1, 2),
        Vec3::new(300, 999, 1000),
        Vec3::new(10, 20, 30),
        Vec3::new(1000, 0, 7),
    ];
    let bytes = encode(h, &pixels).unwrap();
    let img = decode(&bytes).unwrap();
    assert_eq!(img.header, h);
    assert_eq!(img.pixels, pixels);
}

#[test]
fn round_trip_one_row() {
    let h = header(3, 1, 255);
    let pixels = vec![
        Vec3::new(255, 255, 255),
        Vec3::new(0, 0, 0),
        Vec3::new(12, 34, 56),
    ];
    let bytes = encode(h, &pixels).unwrap();
    assert_eq!(
        bytes,
        b"P3\n3 1\n255\n255 255 255\n0 0 0\n12 34 56\n".to_vec()
    );
    let img = decode(&bytes).unwrap();
    assert_eq!(img.header, h);
    assert_eq!(img.pixels, pixels);
}

#[test]
fn decode_keeps_row_major_order() {
    let img = decode(b"P3 2 2 9  1 1 1  2 2 2  3 3 3  4 4 4").unwrap();
    assert_eq!(img.header.dimensions(), ImageDimensions { width: 2, height: 2 });
    assert_eq!(
        img.pixels,
        vec![
            Vec3::new(1, 1, 1),
            Vec3::new(2, 2, 2),
            Vec3::new(3, 3, 3),
            Vec3::new(4, 4, 4)
        ]
    );
}

#[test]
fn wrong_magic_rejected() {
    for input in [
        &b"P6 1 1 255 0 0 0"[..],
        b"p3 1 1 255 0 0 0",
        b"",
        b"P",
        b"XX",
        b"P3x 1 1 255 0 0 0",
        b" P3 1 1 255 0 0 0",
    ] {
        assert_eq!(decode(input), Err(PpmError::WrongMagic));
    }
}

#[test]
fn comments_between_every_token() {
    let plain = decode(b"P3 2 1 255 1 2 3 4 5 6").unwrap();
    let commented = decode(
        b"P3#c\n# another\n2 #w\n1# h\n255 #maxval\n1#r\n2\t#g\r\n3 # b\n4\n#\n5 6 # end",
    )
    .unwrap();
    assert_eq!(plain, commented);
    assert_eq!(plain.pixels, vec![Vec3::new(1, 2, 3), Vec3::new(4, 5, 6)]);
}

#[test]
fn comment_hides_numbers() {
    let img = decode(b"P3\n1 1 255\n# 9 9 9\n7 8 9\n").unwrap();
    assert_eq!(img.pixels, vec![Vec3::new(7, 8, 9)]);
}

#[test]
fn shape_mismatch_on_encode() {
    let h = header(2, 2, 255);
    let pixels = vec![Vec3::new(1, 1, 1), Vec3::new(2, 2, 2), Vec3::new(3, 3, 3)];
    assert_eq!(encode(h, &pixels), Err(PpmError::ShapeMismatch));
    let too_many = vec![Vec3::new(0, 0, 0); 5];
    assert_eq!(encode(h, &too_many), Err(PpmError::ShapeMismatch));
}

#[test]
fn shape_mismatch_on_overflowing_dimensions() {
    let h = header(usize::MAX, 2, 255);
    assert_eq!(encode(h, &[]), Err(PpmError::ShapeMismatch));
}

#[test]
fn zero_dimension_header_only() {
    let h = header(0, 0, 255);
    let bytes = encode(h, &[]).unwrap();
    assert_eq!(bytes, b"P3\n0 0\n255\n".to_vec());
    let img = decode(&bytes).unwrap();
    assert_eq!(img.header.dimensions(), ImageDimensions { width: 0, height: 0 });
    assert_eq!(img.header.maxval(), 255);
    assert!(img.pixels.is_empty());
}

#[test]
fn zero_dimension_other_maxval() {
    let h = header(0, 0, 65534);
    let bytes = encode(h, &[]).unwrap();
    assert_eq!(bytes, b"P3\n0 0\n65534\n".to_vec());
    assert_eq!(decode(&bytes).unwrap().header, h);
}

#[test]
fn sample_overflow_reports_index() {
    assert_eq!(
        decode(b"P3 1 1 255 255 256 0"),
        Err(PpmError::SampleOutOfRange { index: 1 })
    );
    assert_eq!(
        decode(b"P3 2 1 255 0 0 0 0 0 256"),
        Err(PpmError::SampleOutOfRange { index: 5 })
    );
    assert_eq!(
        decode(b"P3 1 1 255 256 0 0"),
        Err(PpmError::SampleOutOfRange { index: 0 })
    );
}

#[test]
fn non_numeric_sample_rejected() {
    assert_eq!(
        decode(b"P3 1 1 255 1 x 3"),
        Err(PpmError::SampleOutOfRange { index: 1 })
    );
    assert_eq!(
        decode(b"P3 1 1 255 1 -2 3"),
        Err(PpmError::SampleOutOfRange { index: 1 })
    );
}

#[test]
fn concrete_example() {
    let h = header(1, 1, 255);
    let pixels = vec![Vec3::new(255, 0, 128)];
    let bytes = encode(h, &pixels).unwrap();
    assert_eq!(bytes, b"P3\n1 1\n255\n255 0 128\n".to_vec());
    let normalized: Vec<&[u8]> = bytes
        .split(|b| b.is_ascii_whitespace())
        .filter(|t| !t.is_empty())
        .collect();
    let expected: Vec<&[u8]> = vec![b"P3", b"1", b"1", b"255", b"255", b"0", b"128"];
    assert_eq!(normalized, expected);
    let img = decode(b"P3 1 1 255 255 0 128").unwrap();
    assert_eq!(img.header, h);
    assert_eq!(img.pixels, pixels);
}

#[test]
fn encode_sample_out_of_range() {
    let h = header(2, 1, 10);
    let pixels = vec![Vec3::new(1, 2, 3), Vec3::new(4, 11, 12)];
    assert_eq!(
        encode(h, &pixels),
        Err(PpmError::SampleOutOfRange { index: 4 })
    );
    let first = vec![Vec3::new(11, 0, 0), Vec3::new(0, 0, 0)];
    assert_eq!(
        encode(h, &first),
        Err(PpmError::SampleOutOfRange { index: 0 })
    );
}

#[test]
fn truncated_input() {
    assert_eq!(decode(b"P3"), Err(PpmError::TruncatedInput));
    assert_eq!(decode(b"P3 1"), Err(PpmError::TruncatedInput));
    assert_eq!(decode(b"P3 1 1"), Err(PpmError::TruncatedInput));
    assert_eq!(decode(b"P3 1 1 255 1 2"), Err(PpmError::TruncatedInput));
    assert_eq!(decode(b"P3 2 1 255 1 2 3 # rest"), Err(PpmError::TruncatedInput));
}

#[test]
fn invalid_header_tokens() {
    assert_eq!(decode(b"P3 a 1 255"), Err(PpmError::InvalidHeader));
    assert_eq!(decode(b"P3 1 -1 255"), Err(PpmError::InvalidHeader));
    assert_eq!(decode(b"P3 1 1 0"), Err(PpmError::InvalidHeader));
    assert_eq!(decode(b"P3 1 1 65535"), Err(PpmError::InvalidHeader));
    assert_eq!(decode(b"P3 1 1 70000 1 1 1"), Err(PpmError::InvalidHeader));
    assert_eq!(
        decode(b"P3 99999999999999999999999 1 255"),
        Err(PpmError::InvalidHeader)
    );
}

#[test]
fn huge_dimensions_end_in_truncation() {
    let input = format!("P3 {} 2 255 1 2 3", usize::MAX);
    assert_eq!(decode(input.as_bytes()), Err(PpmError::TruncatedInput));
}

#[test]
fn trailing_bytes_ignored() {
    let img = decode(b"P3 1 1 255 1 2 3 trailing junk 999").unwrap();
    assert_eq!(img.pixels, vec![Vec3::new(1, 2, 3)]);
}

#[test]
fn leading_zeros_accepted() {
    let img = decode(b"P3 01 001 0255 0007 0 00").unwrap();
    assert_eq!(img.header.dimensions(), ImageDimensions { width: 1, height: 1 });
    assert_eq!(img.header.maxval(), 255);
    assert_eq!(img.pixels, vec![Vec3::new(7, 0, 0)]);
}

#[test]
fn encoder_keeps_its_header() {
    let h = header(4, 5, 77);
    assert_eq!(PpmEncoder::new(h).header(), h);
}
