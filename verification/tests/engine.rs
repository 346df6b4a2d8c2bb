use bskx_mosaic::bitmap::Bitmap;
use bskx_mosaic::processing::combine_images;
use bskx_mosaic::processing::find_img_with_most_pixels;
use bskx_mosaic::processing::generate_combined_thumbnail;
use bskx_mosaic::processing::get_total_img_size;
use bskx_mosaic::processing::ProcessingError;

fn solid_list(specs: &[(u32, u32)]) -> Vec<Bitmap> {
    specs
        .iter()
        .map(|&(w, h)| Bitmap::solid(w, h, 120, 130, 140, 255))
        .collect()
}

fn decoded_dims(png: &[u8]) -> (u32, u32) {
    let decoded = image::load_from_memory(png).expect("output must be valid PNG");
    (decoded.width(), decoded.height())
}

#[test]
fn scenario_a_two_bitmaps() {
    let images = solid_list(&[(1000, 500), (800, 600)]);
    let thumb = generate_combined_thumbnail(images).unwrap();
    assert_eq!((thumb.width, thumb.height), (2000, 500));
    assert_eq!(decoded_dims(thumb.to_bytes()), (2000, 500));
}

#[test]
fn scenario_b_three_bitmaps() {
    let top_left = Bitmap::solid(100, 80, 200, 0, 0, 255);
    let top_right = Bitmap::solid(100, 80, 0, 200, 0, 255);
    let bottom = Bitmap::solid(100, 80, 0, 0, 200, 255);
    let thumb = generate_combined_thumbnail(vec![top_left, top_right, bottom]).unwrap();
    assert_eq!((thumb.width, thumb.height), (200, 160));

    let decoded = image::load_from_memory(thumb.to_bytes()).unwrap().to_rgba8();
    // Tiles one and two fill the top row at reference size; their sources
    // already have the reference dimensions, so they arrive unresampled.
    assert_eq!(decoded.get_pixel(50, 40).0, [200, 0, 0, 255]);
    assert_eq!(decoded.get_pixel(150, 40).0, [0, 200, 0, 255]);
    // Tile three is rescaled to the full-width bottom row and sits centered
    // in it; the row's vertical middle inside the letterboxed area is blue.
    assert_eq!(decoded.get_pixel(100, 120).0, [0, 0, 200, 255]);
}

#[test]
fn scenario_c_five_bitmaps() {
    let images = solid_list(&[(10, 10), (10, 10), (10, 10), (10, 10), (10, 10)]);
    match combine_images(&images, 20, 20, true) {
        Err(ProcessingError::TooManyTiles) => {}
        other => panic!("expected TooManyTiles, got {:?}", other.map(|_| "bitmap")),
    }
    match generate_combined_thumbnail(images) {
        Err(ProcessingError::TooManyTiles) => {}
        other => panic!("expected TooManyTiles, got {:?}", other.map(|_| "thumbnail")),
    }
}

#[test]
fn scenario_d_single_bitmap() {
    let images = solid_list(&[(640, 480)]);
    let thumb = generate_combined_thumbnail(images).unwrap();
    assert_eq!((thumb.width, thumb.height), (640, 480));
    assert_eq!(decoded_dims(thumb.to_bytes()), (640, 480));
}

#[test]
fn single_bitmap_arrives_unresampled() {
    let images = solid_list(&[(33, 21)]);
    let thumb = generate_combined_thumbnail(images).unwrap();
    let decoded = image::load_from_memory(thumb.to_bytes()).unwrap().to_rgba8();
    for pixel in decoded.pixels() {
        assert_eq!(pixel.0, [120, 130, 140, 255]);
    }
}

#[test]
fn empty_input_fails() {
    match generate_combined_thumbnail(Vec::new()) {
        Err(ProcessingError::EmptyInput) => {}
        other => panic!("expected EmptyInput, got {:?}", other.map(|_| "thumbnail")),
    }
    match combine_images(&Vec::new(), 10, 10, true) {
        Err(ProcessingError::EmptyInput) => {}
        other => panic!("expected EmptyInput, got {:?}", other.map(|_| "bitmap")),
    }
}

#[test]
fn four_bitmaps_make_a_grid() {
    let images = solid_list(&[(60, 40), (60, 40), (60, 40), (60, 40)]);
    let thumb = generate_combined_thumbnail(images).unwrap();
    assert_eq!((thumb.width, thumb.height), (120, 80));
}

#[test]
fn pipeline_is_deterministic() {
    let first = generate_combined_thumbnail(solid_list(&[(90, 60), (50, 70), (30, 30)])).unwrap();
    let second = generate_combined_thumbnail(solid_list(&[(90, 60), (50, 70), (30, 30)])).unwrap();
    assert_eq!(first.to_bytes(), second.to_bytes());
    assert_eq!((first.width, first.height), (second.width, second.height));
}

#[test]
fn reference_selection_by_area() {
    // 1000*500 = 500000 beats 800*600 = 480000.
    let images = solid_list(&[(800, 600), (1000, 500)]);
    let idx = find_img_with_most_pixels(&images).unwrap();
    assert_eq!(idx, 1);
    let size = get_total_img_size(&images).unwrap();
    assert_eq!(size, (2000, 500));
}

#[test]
fn reference_selection_empty_fails() {
    match find_img_with_most_pixels(&Vec::new()) {
        Err(ProcessingError::NoReferenceFound) => {}
        other => panic!("expected NoReferenceFound, got {:?}", other),
    }
    match get_total_img_size(&Vec::new()) {
        Err(ProcessingError::NoReferenceFound) => {}
        other => panic!("expected NoReferenceFound, got {:?}", other),
    }
}

#[test]
fn sizing_five_bitmaps_is_unsupported() {
    let images = solid_list(&[(10, 10), (10, 10), (10, 10), (10, 10), (10, 10)]);
    match get_total_img_size(&images) {
        Err(ProcessingError::UnsupportedCount) => {}
        other => panic!("expected UnsupportedCount, got {:?}", other),
    }
}

#[test]
fn reference_tie_breaks_to_some_maximal_element() {
    // Equal areas: either geometry is acceptable, only the resulting canvas
    // must come from one of the two maximal bitmaps.
    let images = solid_list(&[(100, 50), (50, 100)]);
    let size = get_total_img_size(&images).unwrap();
    assert!(size == (200, 50) || size == (100, 100));
}

#[test]
fn combine_two_tiles_side_by_side() {
    let left = Bitmap::solid(10, 10, 255, 0, 0, 255);
    let right = Bitmap::solid(10, 10, 0, 0, 255, 255);
    let composite = combine_images(&vec![left, right], 20, 10, true).unwrap();
    assert_eq!((composite.width, composite.height), (20, 10));
    let bytes = composite.rgba_bytes();
    let pixel_at = |x: usize, y: usize| {
        let offset = (y * 20 + x) * 4;
        [bytes[offset], bytes[offset + 1], bytes[offset + 2], bytes[offset + 3]]
    };
    assert_eq!(pixel_at(5, 5), [255, 0, 0, 255]);
    assert_eq!(pixel_at(15, 5), [0, 0, 255, 255]);
}
