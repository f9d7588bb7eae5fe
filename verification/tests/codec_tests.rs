use bmp_filters::images::bitmap::{Bitmap, DecodeError};
use bmp_filters::images::{u32_from_le_bytes, i32_from_le_bytes, Format, Image, RGB};

fn push_u32(out: &mut Vec<u8>, v: u32) {
    out.extend_from_slice(&v.to_le_bytes());
}

fn push_i32(out: &mut Vec<u8>, v: i32) {
    out.extend_from_slice(&v.to_le_bytes());
}

/// Builds a BMP byte string with a 40-byte DIB header around the given
/// raw pixel area (already padded, bottom-row first as stored on disk).
fn build_bmp(width: i32, height: i32, bits: u16, area: &[u8]) -> Vec<u8> {
    let mut out: Vec<u8> = Vec::new();
    out.push(b'B');
    out.push(b'M');
    push_u32(&mut out, (54 + area.len()) as u32);
    out.extend_from_slice(&[0, 0, 0, 0]);
    push_u32(&mut out, 54);
    push_u32(&mut out, 40);
    push_i32(&mut out, width);
    push_i32(&mut out, height);
    out.extend_from_slice(&[1, 0]); // planes
    out.extend_from_slice(&bits.to_le_bytes());
    while out.len() < 54 {
        out.push(0);
    }
    out.extend_from_slice(area);
    out
}

/// A 2x2 24-bit image: rows of 6 pixel bytes plus 2 padding bytes.
/// Stored pixels, in on-disk order: red, green / blue, white.
fn sample_2x2() -> Vec<u8> {
    let area = [
        0, 0, 255, 0, 255, 0, 0, 0, // row 0: red (B,G,R), green, pad
        255, 0, 0, 255, 255, 255, 0, 0, // row 1: blue, white, pad
    ];
    build_bmp(2, 2, 24, &area)
}

#[test]
fn decode_reads_header_fields() {
    let bm = Bitmap::decode(&sample_2x2()).unwrap();
    assert_eq!(bm.widht(), 2);
    assert_eq!(bm.height(), 2);
    assert_eq!(bm.bytes_per_pixels(), 3);
    assert_eq!(bm.identify(), "BM");
    assert_eq!(bm.size_in_bytes(), 70);
    assert!(matches!(bm.format(), Format::BMP));
}

#[test]
fn decode_reads_pixels_in_disk_order() {
    let bm = Bitmap::decode(&sample_2x2()).unwrap();
    let expected = [
        RGB::new(255, 0, 0, None),
        RGB::new(0, 255, 0, None),
        RGB::new(0, 0, 255, None),
        RGB::new(255, 255, 255, None),
    ];
    assert_eq!(bm.get_pixels(), &expected[..]);
}

#[test]
fn encode_then_decode_restores_everything() {
    let first = Bitmap::decode(&sample_2x2()).unwrap();
    let bytes = first.encode();
    let second = Bitmap::decode(&bytes).unwrap();
    assert_eq!(second.widht(), first.widht());
    assert_eq!(second.height(), first.height());
    assert_eq!(second.bytes_per_pixels(), first.bytes_per_pixels());
    assert_eq!(second.get_pixels(), first.get_pixels());
    // A further encode gives the identical byte string.
    assert_eq!(second.encode(), bytes);
}

#[test]
fn encode_preserves_reserved_and_offset() {
    let mut raw = sample_2x2();
    raw[6] = 7;
    raw[7] = 8;
    raw[8] = 9;
    raw[9] = 10;
    let bm = Bitmap::decode(&raw).unwrap();
    let bytes = bm.encode();
    assert_eq!(&bytes[6..10], &[7, 8, 9, 10]);
    assert_eq!(&bytes[10..14], &54u32.to_le_bytes());
}

#[test]
fn round_trip_with_32_bit_alpha() {
    // 1x2, 32-bit: no padding, alpha bytes 9 and 200.
    let area = [10, 20, 30, 9, 40, 50, 60, 200];
    let raw = build_bmp(1, 2, 32, &area);
    let bm = Bitmap::decode(&raw).unwrap();
    assert_eq!(bm.bytes_per_pixels(), 4);
    assert_eq!(
        bm.get_pixels(),
        &[RGB::new(30, 20, 10, Some(9)), RGB::new(60, 50, 40, Some(200))][..]
    );
    let again = Bitmap::decode(&bm.encode()).unwrap();
    assert_eq!(again.get_pixels(), bm.get_pixels());
}

#[test]
fn round_trip_with_three_wide_padding() {
    // 3x1, 24-bit: 9 pixel bytes, then 3 padding bytes per row.
    let area = [1, 2, 3, 4, 5, 6, 7, 8, 9, 0, 0, 0];
    let raw = build_bmp(3, 1, 24, &area);
    let bm = Bitmap::decode(&raw).unwrap();
    assert_eq!(
        bm.get_pixels(),
        &[RGB::new(3, 2, 1, None), RGB::new(6, 5, 4, None), RGB::new(9, 8, 7, None)][..]
    );
    assert_eq!(Bitmap::decode(&bm.encode()).unwrap().get_pixels(), bm.get_pixels());
}

#[test]
fn negative_height_decodes_by_magnitude() {
    let area = [
        0, 0, 255, 0, 255, 0, 0, 0, //
        255, 0, 0, 255, 255, 255, 0, 0,
    ];
    let raw = build_bmp(2, -2, 24, &area);
    let bm = Bitmap::decode(&raw).unwrap();
    assert_eq!(bm.widht(), 2);
    assert_eq!(bm.height(), 2);
    let again = Bitmap::decode(&bm.encode()).unwrap();
    assert_eq!(again.get_pixels(), bm.get_pixels());
    // The sign is preserved on the wire.
    assert_eq!(&bm.encode()[22..26], &(-2i32).to_le_bytes());
}

#[test]
fn longer_dib_headers_pass_through_verbatim() {
    // A 56-byte DIB header: its 16 extra bytes are not modelled and must
    // survive a decode and re-encode unchanged.
    let mut out: Vec<u8> = Vec::new();
    out.push(b'B');
    out.push(b'M');
    out.extend_from_slice(&74u32.to_le_bytes());
    out.extend_from_slice(&[0, 0, 0, 0]);
    out.extend_from_slice(&70u32.to_le_bytes());
    out.extend_from_slice(&56u32.to_le_bytes());
    out.extend_from_slice(&1i32.to_le_bytes());
    out.extend_from_slice(&1i32.to_le_bytes());
    out.extend_from_slice(&[1, 0]);
    out.extend_from_slice(&24u16.to_le_bytes());
    let mut marker: u8 = 100;
    while out.len() < 70 {
        out.push(marker);
        marker += 1;
    }
    out.extend_from_slice(&[5, 6, 7, 0]); // one pixel, one padding byte
    let bm = Bitmap::decode(&out).unwrap();
    let bytes = bm.encode();
    assert_eq!(bytes, out);
}

#[test]
fn truncated_pixel_area_is_a_truncation_error() {
    let mut raw = sample_2x2();
    // The header declares 16 pixel-area bytes; leave only 15.
    raw.pop();
    assert!(matches!(Bitmap::decode(&raw), Err(DecodeError::Truncated)));
}

#[test]
fn truncated_header_is_a_truncation_error() {
    let raw = sample_2x2();
    assert!(matches!(Bitmap::decode(&raw[..10]), Err(DecodeError::Truncated)));
    assert!(matches!(Bitmap::decode(&raw[..16]), Err(DecodeError::Truncated)));
    assert!(matches!(Bitmap::decode(&raw[..30]), Err(DecodeError::Truncated)));
    assert!(matches!(Bitmap::decode(&[]), Err(DecodeError::Truncated)));
}

#[test]
fn bad_signature_is_rejected() {
    let mut raw = sample_2x2();
    raw[0] = b'P';
    assert!(matches!(Bitmap::decode(&raw), Err(DecodeError::BadSignature)));
}

#[test]
fn sixteen_bit_depth_is_rejected() {
    let area = [0u8; 16];
    let raw = build_bmp(2, 2, 16, &area);
    assert!(matches!(Bitmap::decode(&raw), Err(DecodeError::UnsupportedDepth)));
}

#[test]
fn u32_from_le_bytes_reads_little_endian() {
    assert_eq!(u32_from_le_bytes(&[0x78, 0x56, 0x34, 0x12]), 0x12345678);
    assert_eq!(u32_from_le_bytes(&[0xFF, 0xFF, 0xFF, 0xFF]), u32::MAX);
    assert_eq!(u32_from_le_bytes(&[1, 2, 3]), 0);
}

#[test]
fn i32_from_le_bytes_reads_twos_complement() {
    assert_eq!(i32_from_le_bytes(&[0xFE, 0xFF, 0xFF, 0xFF]), -2);
    assert_eq!(i32_from_le_bytes(&[0x02, 0x00, 0x00, 0x00]), 2);
    assert_eq!(i32_from_le_bytes(&[0x00, 0x00, 0x00, 0x80]), i32::MIN);
    assert_eq!(i32_from_le_bytes(&[1]), 0);
}

#[test]
fn get_pixel_uses_bottom_up_lookup() {
    let bm = Bitmap::decode(&sample_2x2()).unwrap();
    // Storage: [red, green, blue, white]; logical (x, y) reads index
    // total - 1 - (y * width + x).
    assert_eq!(bm.get_pixel(0, 0), Some(RGB::new(255, 255, 255, None)));
    assert_eq!(bm.get_pixel(1, 0), Some(RGB::new(0, 0, 255, None)));
    assert_eq!(bm.get_pixel(0, 1), Some(RGB::new(0, 255, 0, None)));
    assert_eq!(bm.get_pixel(1, 1), Some(RGB::new(255, 0, 0, None)));
    assert_eq!(bm.get_pixel(2, 0), None);
    assert_eq!(bm.get_pixel(0, 2), None);
}

#[test]
fn set_pixel_writes_the_same_cell_get_pixel_reads() {
    let mut bm = Bitmap::decode(&sample_2x2()).unwrap();
    let p = RGB::new(1, 2, 3, None);
    assert!(bm.set_pixel(1, 0, p));
    assert_eq!(bm.get_pixel(1, 0), Some(p));
    assert!(!bm.set_pixel(5, 0, p));
}

fn dimensions_via_capability<I: Image>(img: &I) -> (usize, usize) {
    (Image::widht(img), Image::height(img))
}

#[test]
fn the_image_capability_reaches_the_bitmap() {
    let mut bm = Bitmap::decode(&sample_2x2()).unwrap();
    assert_eq!(dimensions_via_capability(&bm), (2, 2));
    assert_eq!(Image::get_pixel(&bm, 0, 0), Some(RGB::new(255, 255, 255, None)));
    let p = RGB::new(9, 9, 9, None);
    assert!(Image::set_pixel(&mut bm, 0, 0, p));
    assert_eq!(Image::get_pixel(&bm, 0, 0), Some(p));
    assert_eq!(Image::get_pixels(&bm).len(), 4);
    assert!(matches!(Image::format(&bm), Format::BMP));
    assert_eq!(Image::bytes_per_pixels(&bm), 3);
}

#[test]
fn get_slice_pixels_copies_a_range() {
    let bm = Bitmap::decode(&sample_2x2()).unwrap();
    let slice = bm.get_slice_pixels(1, 3);
    assert_eq!(slice, vec![RGB::new(0, 255, 0, None), RGB::new(0, 0, 255, None)]);
}
