use bmp_filters::filters::box_blur::BoxBlur;
use bmp_filters::filters::edge_detection::EdgeDetection;
use bmp_filters::filters::flip_h::FlipH;
use bmp_filters::filters::flip_v::FlipV;
use bmp_filters::filters::grayscale::GrayScale;
use bmp_filters::filters::negative::Negative;
use bmp_filters::filters::FilterError;
use bmp_filters::images::bitmap::Bitmap;
use bmp_filters::images::RGB;

/// Builds a 24-bit bitmap whose storage-order pixel sequence is exactly
/// `pixels`, laid out as `width` pixels per row.
fn image_of(width: i32, height: i32, pixels: &[(u8, u8, u8)]) -> Bitmap {
    let w = width as usize;
    let pad = (4 - (w * 3) % 4) % 4;
    let mut area: Vec<u8> = Vec::new();
    for row in 0..(height as usize) {
        for col in 0..w {
            let (r, g, b) = pixels[row * w + col];
            area.push(b);
            area.push(g);
            area.push(r);
        }
        for _ in 0..pad {
            area.push(0);
        }
    }
    let mut out: Vec<u8> = Vec::new();
    out.push(b'B');
    out.push(b'M');
    out.extend_from_slice(&((54 + area.len()) as u32).to_le_bytes());
    out.extend_from_slice(&[0, 0, 0, 0]);
    out.extend_from_slice(&54u32.to_le_bytes());
    out.extend_from_slice(&40u32.to_le_bytes());
    out.extend_from_slice(&width.to_le_bytes());
    out.extend_from_slice(&height.to_le_bytes());
    out.extend_from_slice(&[1, 0]);
    out.extend_from_slice(&24u16.to_le_bytes());
    while out.len() < 54 {
        out.push(0);
    }
    out.extend_from_slice(&area);
    Bitmap::decode(&out).unwrap()
}

fn rgb_triples(bm: &Bitmap) -> Vec<(u8, u8, u8)> {
    bm.get_pixels().iter().map(|p| (p.red, p.green, p.blue)).collect()
}

#[test]
fn flip_h_full_and_negative_scenario() {
    // 2x2 image [(255,0,0),(0,255,0),(0,0,255),(255,255,255)].
    let start = [(255, 0, 0), (0, 255, 0), (0, 0, 255), (255, 255, 255)];
    let mut a = image_of(2, 2, &start);
    a.filter(FlipH::full()).unwrap();
    assert_eq!(
        rgb_triples(&a),
        vec![(0, 255, 0), (255, 0, 0), (255, 255, 255), (0, 0, 255)]
    );
    let mut b = image_of(2, 2, &start);
    b.filter(Negative).unwrap();
    assert_eq!(
        rgb_triples(&b),
        vec![(0, 255, 255), (255, 0, 255), (255, 255, 0), (0, 0, 0)]
    );
}

#[test]
fn flip_h_twice_restores_the_image() {
    let start = [(1, 2, 3), (4, 5, 6), (7, 8, 9), (10, 11, 12), (13, 14, 15), (16, 17, 18)];
    let mut bm = image_of(3, 2, &start);
    bm.filter(FlipH::full()).unwrap();
    bm.filter(FlipH::full()).unwrap();
    assert_eq!(rgb_triples(&bm), start.to_vec());
}

#[test]
fn flip_v_full_mirrors_rows() {
    let start = [(1, 2, 3), (4, 5, 6), (7, 8, 9), (10, 11, 12)];
    let mut bm = image_of(2, 2, &start);
    bm.filter(FlipV::full()).unwrap();
    assert_eq!(rgb_triples(&bm), vec![(7, 8, 9), (10, 11, 12), (1, 2, 3), (4, 5, 6)]);
}

#[test]
fn flip_v_twice_restores_the_image() {
    let start = [(1, 2, 3), (4, 5, 6), (7, 8, 9), (10, 11, 12), (13, 14, 15), (16, 17, 18)];
    let mut bm = image_of(2, 3, &start);
    bm.filter(FlipV::full()).unwrap();
    bm.filter(FlipV::full()).unwrap();
    assert_eq!(rgb_triples(&bm), start.to_vec());
}

#[test]
fn flip_h_rect_flips_only_the_rectangle() {
    let start = [(1, 1, 1), (2, 2, 2), (3, 3, 3), (4, 4, 4)];
    let mut bm = image_of(2, 2, &start);
    // Logical row 0 is the top of the rendered image, which is storage
    // row 1 of this bottom-up layout: only that row is reversed.
    bm.filter(FlipH::rect((0, 0), (2, 1))).unwrap();
    assert_eq!(rgb_triples(&bm), vec![(1, 1, 1), (2, 2, 2), (4, 4, 4), (3, 3, 3)]);
}

#[test]
fn flip_v_rect_flips_only_the_rectangle() {
    let start = [(1, 1, 1), (2, 2, 2), (3, 3, 3), (4, 4, 4)];
    let mut bm = image_of(2, 2, &start);
    // Logical column 0 is the left of the rendered image, which is
    // storage column 1 of this mirrored layout: only that column is
    // reversed, swapping storage indices 1 and 3.
    bm.filter(FlipV::rect((0, 0), (1, 2))).unwrap();
    assert_eq!(rgb_triples(&bm), vec![(1, 1, 1), (4, 4, 4), (3, 3, 3), (2, 2, 2)]);
}

#[test]
fn negative_twice_is_the_identity() {
    let start = [(12, 34, 56), (78, 90, 255), (0, 1, 2), (200, 100, 50)];
    let mut bm = image_of(2, 2, &start);
    bm.filter(Negative).unwrap();
    bm.filter(Negative).unwrap();
    assert_eq!(rgb_triples(&bm), start.to_vec());
}

#[test]
fn grayscale_uses_the_floored_mean() {
    let mut bm = image_of(1, 1, &[(10, 20, 40)]);
    bm.filter(GrayScale).unwrap();
    // floor((10 + 20 + 40) / 3) = 23
    assert_eq!(rgb_triples(&bm), vec![(23, 23, 23)]);
}

#[test]
fn grayscale_twice_is_idempotent() {
    let start = [(10, 20, 40), (200, 100, 53), (0, 0, 1), (255, 255, 254)];
    let mut once = image_of(2, 2, &start);
    once.filter(GrayScale).unwrap();
    let mut twice = image_of(2, 2, &start);
    twice.filter(GrayScale).unwrap();
    twice.filter(GrayScale).unwrap();
    assert_eq!(rgb_triples(&once), rgb_triples(&twice));
}

#[test]
fn box_blur_radius_zero_is_the_identity() {
    let start = [(1, 2, 3), (4, 5, 6), (7, 8, 9), (10, 11, 12)];
    let mut bm = image_of(2, 2, &start);
    bm.filter(BoxBlur(0)).unwrap();
    assert_eq!(rgb_triples(&bm), start.to_vec());
}

#[test]
fn box_blur_keeps_a_uniform_image_unchanged() {
    let start = [(9, 90, 200); 9];
    let mut bm = image_of(3, 3, &start);
    bm.filter(BoxBlur(2)).unwrap();
    assert_eq!(rgb_triples(&bm), start.to_vec());
}

#[test]
fn box_blur_averages_the_clipped_window() {
    // 2x1 image, radius 1: both pixels become the floored mean of the two.
    let mut bm = image_of(2, 1, &[(10, 0, 255), (21, 0, 0)]);
    bm.filter(BoxBlur(1)).unwrap();
    // red: (10 + 21) / 2 = 15; blue: 255 / 2 = 127.
    assert_eq!(rgb_triples(&bm), vec![(15, 0, 127), (15, 0, 127)]);
}

#[test]
fn box_blur_default_radius_is_one() {
    // 1x2 image: default blur must average both pixels, as radius 1 does.
    let mut with_default = image_of(1, 2, &[(0, 0, 0), (100, 100, 100)]);
    with_default.filter(BoxBlur::default()).unwrap();
    assert_eq!(rgb_triples(&with_default), vec![(50, 50, 50), (50, 50, 50)]);
}

#[test]
fn edge_detection_on_uniform_image_is_all_zero() {
    let start = [(120, 30, 77); 9];
    for filter in [
        EdgeDetection::default(),
        EdgeDetection::grayscale(),
        EdgeDetection::limit(0),
        EdgeDetection::grayscale_with_limit(255),
    ] {
        let mut bm = image_of(3, 3, &start);
        bm.filter(filter).unwrap();
        assert_eq!(rgb_triples(&bm), vec![(0, 0, 0); 9]);
    }
}

#[test]
fn edge_detection_marks_a_sharp_edge_white() {
    // Black next to white: the horizontal gradient saturates at 255.
    let mut bm = image_of(2, 1, &[(0, 0, 0), (255, 255, 255)]);
    bm.filter(EdgeDetection::default()).unwrap();
    assert_eq!(rgb_triples(&bm), vec![(255, 255, 255), (255, 255, 255)]);
}

#[test]
fn edge_detection_grayscale_mode_keeps_the_magnitude() {
    // Luminances 0 and 10: |Gx| = 4 * 10 = 40 at both pixels.
    let mut bm = image_of(2, 1, &[(0, 0, 0), (10, 10, 10)]);
    bm.filter(EdgeDetection::grayscale_with_limit(20)).unwrap();
    assert_eq!(rgb_triples(&bm), vec![(40, 40, 40), (40, 40, 40)]);
    // Below the threshold the output is zero.
    let mut dark = image_of(2, 1, &[(0, 0, 0), (10, 10, 10)]);
    dark.filter(EdgeDetection::grayscale_with_limit(50)).unwrap();
    assert_eq!(rgb_triples(&dark), vec![(0, 0, 0), (0, 0, 0)]);
}

#[test]
fn filters_preserve_alpha() {
    // 1x1 32-bit image with alpha 77.
    let mut out: Vec<u8> = Vec::new();
    out.push(b'B');
    out.push(b'M');
    out.extend_from_slice(&58u32.to_le_bytes());
    out.extend_from_slice(&[0, 0, 0, 0]);
    out.extend_from_slice(&54u32.to_le_bytes());
    out.extend_from_slice(&40u32.to_le_bytes());
    out.extend_from_slice(&1i32.to_le_bytes());
    out.extend_from_slice(&1i32.to_le_bytes());
    out.extend_from_slice(&[1, 0]);
    out.extend_from_slice(&32u16.to_le_bytes());
    while out.len() < 54 {
        out.push(0);
    }
    out.extend_from_slice(&[10, 20, 30, 77]);
    let mut bm = Bitmap::decode(&out).unwrap();
    bm.filter(Negative).unwrap();
    assert_eq!(bm.get_pixels()[0].alpha, Some(77));
    bm.filter(GrayScale).unwrap();
    assert_eq!(bm.get_pixels()[0].alpha, Some(77));
    bm.filter(BoxBlur(1)).unwrap();
    assert_eq!(bm.get_pixels()[0].alpha, Some(77));
    bm.filter(EdgeDetection::default()).unwrap();
    assert_eq!(bm.get_pixels()[0].alpha, Some(77));
}

#[test]
fn filter_error_describes_itself() {
    assert_eq!(
        FilterError::InvalidFormat.description(),
        "Filter not support for format image"
    );
}
