use bskx_mosaic::bitmap::Bitmap;
use bskx_mosaic::processing::blur_background;
use bskx_mosaic::processing::fit_within;
use bskx_mosaic::processing::scale_image_iterable;
use bskx_mosaic::processing::size_canvas;
use bskx_mosaic::processing::CombinedThumbnail;
use bskx_mosaic::processing::ProcessingError;
use bskx_mosaic::RenderImageParams;

#[test]
fn canvas_size_table() {
    assert_eq!(size_canvas(1, 300, 200).unwrap(), (300, 200));
    assert_eq!(size_canvas(2, 300, 200).unwrap(), (600, 200));
    assert_eq!(size_canvas(3, 300, 200).unwrap(), (600, 400));
    assert_eq!(size_canvas(4, 300, 200).unwrap(), (600, 400));
    assert_eq!(size_canvas(0, 300, 200), Err(ProcessingError::UnsupportedCount));
    assert_eq!(size_canvas(5, 300, 200), Err(ProcessingError::UnsupportedCount));
}

#[test]
fn fit_preserves_aspect_and_never_crops() {
    assert_eq!(fit_within(1000, 500, 600, 600), (600, 300));
    assert_eq!(fit_within(500, 1000, 600, 600), (300, 600));
    assert_eq!(fit_within(100, 80, 100, 80), (100, 80));
    assert_eq!(fit_within(7, 3, 10, 10), (10, 4));
    let ratios = [(1, 1), (3, 2), (2, 3), (1000, 1), (1, 1000), (641, 479)];
    for &(w, h) in &ratios {
        let (nw, nh) = fit_within(w, h, 320, 200);
        assert!(nw <= 320 && nh <= 200);
    }
}

#[test]
fn stretch_mode_fills_the_target_exactly() {
    let src = Bitmap::solid(2, 2, 9, 9, 9, 255);
    let out = scale_image_iterable(&src, 4, 4, false);
    assert_eq!((out.width, out.height), (4, 4));
    assert_eq!(out.rgba_bytes().len(), 64);
}

#[test]
fn pad_mode_letterboxes_with_transparency() {
    // A 1x2 source fits a 2x2 box as a 1x2 column at x = 0; the right column
    // stays transparent.
    let src = Bitmap::solid(1, 2, 250, 10, 10, 255);
    let out = scale_image_iterable(&src, 2, 2, true);
    assert_eq!((out.width, out.height), (2, 2));
    let bytes = out.rgba_bytes();
    assert_eq!(&bytes[0..4], &[250, 10, 10, 255]);
    assert_eq!(bytes[7], 0, "right column must stay transparent");
    assert_eq!(bytes[15], 0, "right column must stay transparent");
}

#[test]
fn blur_is_a_noop_on_uniform_input() {
    // The smoothing window spans about a hundred pixels at the fixed radius;
    // on a backdrop larger than that window a uniform color passes through
    // unchanged.
    let src = Bitmap::solid(120, 110, 100, 150, 200, 255);
    let blurred = blur_background(&src).unwrap();
    assert_eq!((blurred.width, blurred.height), (120, 110));
    let bytes = blurred.rgba_bytes();
    for pixel in bytes.chunks(4) {
        assert_eq!(pixel, &[100, 150, 200, 255]);
    }
}

#[test]
fn blur_refuses_a_narrow_tall_backdrop() {
    // The blur pass cannot take a backdrop narrower than its smoothing
    // window yet taller than it; the request fails with the geometry error
    // instead of producing a corrupted backdrop.
    let src = Bitmap::solid(30, 60, 10, 10, 10, 255);
    assert!(matches!(
        blur_background(&src),
        Err(ProcessingError::BlurGeometryError)
    ));
    let thumb = bskx_mosaic::processing::generate_combined_thumbnail(vec![src]);
    assert!(matches!(thumb, Err(ProcessingError::BlurGeometryError)));
}

fn channel_variance_times_n2(bytes: &[u8], channel: usize) -> u128 {
    let samples: Vec<u128> = bytes.chunks(4).map(|p| p[channel] as u128).collect();
    let n = samples.len() as u128;
    let sum: u128 = samples.iter().sum();
    // n^2 * variance = n * sum(x^2) - sum(x)^2, an exact integer.
    let sum_sq: u128 = samples.iter().map(|x| x * x).sum();
    n * sum_sq - sum * sum
}

#[test]
fn blur_reduces_variance_on_checkerboard() {
    let mut raw = Vec::new();
    for y in 0..64u32 {
        for x in 0..64u32 {
            let v = if (x + y) % 2 == 0 { 0 } else { 255 };
            raw.extend_from_slice(&[v, v, v, 255]);
        }
    }
    let src = Bitmap::from_rgba(64, 64, raw);
    let before = channel_variance_times_n2(&src.rgba_bytes(), 0);
    let blurred = blur_background(&src).unwrap();
    let after = channel_variance_times_n2(&blurred.rgba_bytes(), 0);
    assert!(after < before, "blur must strictly reduce variance: {} vs {}", after, before);
}

#[test]
fn rgba_roundtrip_through_bitmap() {
    let raw: Vec<u8> = (0..4 * 6 * 5).map(|i| (i % 251) as u8).collect();
    let bitmap = Bitmap::from_rgba(6, 5, raw.clone());
    assert_eq!((bitmap.width, bitmap.height), (6, 5));
    assert_eq!(bitmap.rgba_bytes(), raw);
    let copy = bitmap.duplicate();
    assert_eq!(copy.rgba_bytes(), raw);
}

#[test]
fn thumbnail_records_dimensions_and_encodes_png() {
    let src = Bitmap::solid(12, 7, 1, 2, 3, 255);
    let thumb = CombinedThumbnail::new(&src, 12, 7).unwrap();
    assert_eq!((thumb.width, thumb.height), (12, 7));
    let decoded = image::load_from_memory(thumb.to_bytes()).unwrap().to_rgba8();
    assert_eq!((decoded.width(), decoded.height()), (12, 7));
    assert_eq!(decoded.get_pixel(5, 5).0, [1, 2, 3, 255]);
}

#[test]
fn render_params_hold_the_uri() {
    let params = RenderImageParams { uri: String::from("at://did:plc:abc/post/1") };
    assert_eq!(params.uri, "at://did:plc:abc/post/1");
}
