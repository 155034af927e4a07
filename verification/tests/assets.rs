use rsquake::lmp::LmpImage;
use rsquake::packfile::PackError;
use rsquake::palette::{Color, Palette};

#[test]
fn palette_accepts_exactly_768_bytes() {
    // 256 RGB triples; the first entries mimic the reference palette,
    // whose index 0 is black and index 1 a light grey
    let mut bytes = vec![0u8; 768];
    bytes[3] = 15;
    bytes[4] = 15;
    bytes[5] = 15;
    bytes[6] = 31;
    bytes[7] = 23;
    bytes[8] = 11;
    let palette = Palette::new(&bytes).unwrap();
    assert_eq!(palette.get(0), Color::new(0, 0, 0));
    assert_eq!(palette.get(1), Color::new(15, 15, 15));
    assert_eq!(palette.get(2), Color::new(31, 23, 11));
    assert_eq!(palette.get(255), Color::new(0, 0, 0));
}

#[test]
fn palette_rejects_767_bytes() {
    assert!(matches!(Palette::new(&vec![0u8; 767]), Err(PackError::FormatError)));
}

#[test]
fn palette_rejects_769_bytes() {
    assert!(matches!(Palette::new(&vec![0u8; 769]), Err(PackError::FormatError)));
}

#[test]
fn lmp_decodes_a_two_by_two_image() {
    let bytes = [2, 0, 0, 0, 2, 0, 0, 0, 1, 2, 3, 4];
    let image = LmpImage::from_bytes(&bytes).unwrap();
    assert_eq!(image.width(), 2);
    assert_eq!(image.height(), 2);
    assert_eq!(image.get(0, 0), 1);
    // the four indices come out exactly once each, in the row-major order
    // the decoder commits to
    let mut seen = vec![
        image.get(0, 0),
        image.get(1, 0),
        image.get(0, 1),
        image.get(1, 1),
    ];
    seen.sort();
    assert_eq!(seen, [1, 2, 3, 4]);
    assert_eq!(image.pixels(), [1, 2, 3, 4]);
}

#[test]
fn lmp_decode_is_deterministic() {
    let bytes = [2, 0, 0, 0, 2, 0, 0, 0, 1, 2, 3, 4];
    let a = LmpImage::from_bytes(&bytes).unwrap();
    let b = LmpImage::from_bytes(&bytes).unwrap();
    for y in 0..2 {
        for x in 0..2 {
            assert_eq!(a.get(x, y), b.get(x, y));
        }
    }
}

#[test]
fn lmp_rejects_truncated_pixels() {
    let bytes = [2, 0, 0, 0, 2, 0, 0, 0, 1, 2, 3];
    assert!(matches!(LmpImage::from_bytes(&bytes), Err(PackError::FormatError)));
}

#[test]
fn lmp_rejects_surplus_pixels() {
    let bytes = [2, 0, 0, 0, 2, 0, 0, 0, 1, 2, 3, 4, 5];
    assert!(matches!(LmpImage::from_bytes(&bytes), Err(PackError::FormatError)));
}

#[test]
fn lmp_rejects_missing_header() {
    assert!(matches!(LmpImage::from_bytes(&[2, 0, 0]), Err(PackError::FormatError)));
}

#[test]
fn lmp_reads_dimensions_little_endian() {
    let mut bytes = vec![1, 1, 0, 0, 1, 0, 0, 0];
    bytes.extend_from_slice(&vec![7u8; 257]);
    let image = LmpImage::from_bytes(&bytes).unwrap();
    assert_eq!(image.width(), 257);
    assert_eq!(image.height(), 1);
    assert_eq!(image.get(256, 0), 7);
}
