use ray_tracer::{plain_text_ppm_magic_constant, ImageDimensions, PpmError, PpmHeader};

#[test]
fn test_magic_constant() {
    assert_eq!(&plain_text_ppm_magic_constant(), b"P3");
}

#[test]
fn test_valid_header_construction() {
    let dimensions = ImageDimensions {
        width: 1,
        height: 2,
    };
    let maxval = u16::MAX - 1;
    let header = PpmHeader::new(dimensions, maxval).unwrap();
    assert_eq!(
        header.dimensions(),
        ImageDimensions {
            width: 1,
            height: 2
        }
    );
    assert_eq!(header.maxval(), u16::MAX - 1);
}

#[test]
fn test_maxval_too_large() {
    let dimensions = ImageDimensions {
        width: 1,
        height: 2,
    };
    let invalid_maxval = u16::MAX;
    assert_eq!(
        PpmHeader::new(dimensions, invalid_maxval),
        Err(PpmError::InvalidHeader)
    );
}

#[test]
fn header_maxval_zero_rejected() {
    let dimensions = ImageDimensions {
        width: 3,
        height: 3,
    };
    assert_eq!(PpmHeader::new(dimensions, 0), Err(PpmError::InvalidHeader));
}

#[test]
fn header_maxval_bounds_accepted() {
    let dimensions = ImageDimensions {
        width: 0,
        height: 0,
    };
    for m in [1u16, 2, 255, 1000, 65534] {
        let header = PpmHeader::new(dimensions, m).unwrap();
        assert_eq!(header.maxval(), m);
        assert_eq!(header.dimensions(), dimensions);
    }
}
