use projectloupe::{
    compute_scaled_dims, process_extracted, swatch_from_image_bytes, CacheError, ColorSwatch,
    ThumbnailTier,
};

fn solid_jpeg(width: u32, height: u32, rgb: [u8; 3]) -> Vec<u8> {
    let img = image::RgbImage::from_pixel(width, height, image::Rgb(rgb));
    let mut buffer: Vec<u8> = Vec::new();
    let mut cursor = std::io::Cursor::new(&mut buffer);
    image::DynamicImage::ImageRgb8(img)
        .write_to(&mut cursor, image::ImageFormat::Jpeg)
        .unwrap();
    buffer
}

fn decoded_dimensions(bytes: &[u8]) -> (u32, u32) {
    let img = image::load_from_memory(bytes).unwrap();
    (image::GenericImageView::dimensions(&img).0, image::GenericImageView::dimensions(&img).1)
}

#[test]
fn test_resize_logic() {
    // a 1000x800 source shrinks to fit within 300px on the long edge,
    // keeping the aspect ratio
    assert_eq!(compute_scaled_dims(1000, 800, 300), (300, 240));

    // small images are not upscaled
    assert_eq!(compute_scaled_dims(100, 80, 300), (100, 80));
}

#[test]
fn test_micro_processing_shrinks_image() {
    let source = solid_jpeg(1000, 800, [120, 130, 140]);
    let micro = process_extracted(source, ThumbnailTier::Micro).unwrap();
    let (w, h) = decoded_dimensions(&micro);
    assert_eq!((w, h), (300, 240));
    assert!(w.max(h) <= 300);
}

#[test]
fn test_small_image_not_upscaled() {
    let source = solid_jpeg(100, 80, [10, 20, 30]);
    let processed = process_extracted(source, ThumbnailTier::Micro).unwrap();
    assert_eq!(decoded_dimensions(&processed), (100, 80));
}

#[test]
fn test_loupe_keeps_bytes_verbatim() {
    let source = solid_jpeg(640, 480, [1, 2, 3]);
    let processed = process_extracted(source.clone(), ThumbnailTier::Loupe).unwrap();
    assert_eq!(processed, source);
}

#[test]
fn test_undecodable_bytes_give_decode_error() {
    let garbage: Vec<u8> = vec![1, 2, 3, 4, 5];
    let result = process_extracted(garbage, ThumbnailTier::Preview);
    assert_eq!(result, Err(CacheError::Decode));
}

#[test]
fn test_swatch_from_solid_image() {
    let source = solid_jpeg(64, 64, [200, 100, 50]);
    let swatch = swatch_from_image_bytes(&source);
    // JPEG is lossy: allow a small tolerance around the source color
    assert!((swatch.r as i32 - 200).abs() <= 6, "r was {}", swatch.r);
    assert!((swatch.g as i32 - 100).abs() <= 6, "g was {}", swatch.g);
    assert!((swatch.b as i32 - 50).abs() <= 6, "b was {}", swatch.b);
}

#[test]
fn test_swatch_falls_back_to_gray() {
    let garbage: Vec<u8> = vec![0, 1, 2];
    let swatch = swatch_from_image_bytes(&garbage);
    assert_eq!(swatch, ColorSwatch { r: 128, g: 128, b: 128 });
}

#[test]
fn test_error_messages() {
    assert_eq!(CacheError::NotFound.message(), "file does not exist");
    assert_eq!(CacheError::Extraction.message(), "no embedded preview found");
    assert_eq!(CacheError::Decode.message(), "failed to decode embedded image");
    assert_eq!(CacheError::Io.message(), "filesystem operation failed");
}

#[test]
fn test_processing_deterministic() {
    // the derived bytes are a function of the input bytes, bound and quality
    // alone: two runs on the same input agree byte for byte
    let source = solid_jpeg(640, 480, [90, 60, 30]);
    let first = process_extracted(source.clone(), ThumbnailTier::Micro).unwrap();
    let second = process_extracted(source, ThumbnailTier::Micro).unwrap();
    assert_eq!(first, second);
    assert!(!first.is_empty());
}
