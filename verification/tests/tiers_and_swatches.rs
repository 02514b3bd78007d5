use projectloupe::{ColorSwatch, ThumbnailTier};
use projectloupe::swatch::swatch_of_pixels;

#[test]
fn test_thumbnail_tier_parsing() {
    assert_eq!("micro".parse::<ThumbnailTier>().unwrap(), ThumbnailTier::Micro);
    assert_eq!("preview".parse::<ThumbnailTier>().unwrap(), ThumbnailTier::Preview);
    assert_eq!("loupe".parse::<ThumbnailTier>().unwrap(), ThumbnailTier::Loupe);
    assert_eq!("MICRO".parse::<ThumbnailTier>().unwrap(), ThumbnailTier::Micro);
    assert!("invalid".parse::<ThumbnailTier>().is_err());
}

#[test]
fn test_color_swatch() {
    let swatch = ColorSwatch { r: 255, g: 128, b: 64 };
    assert_eq!(swatch.to_hex(), "#ff8040");

    // Test brightness calculation
    let white = ColorSwatch { r: 255, g: 255, b: 255 };
    let black = ColorSwatch { r: 0, g: 0, b: 0 };
    assert!(white.brightness() > black.brightness());
}

#[test]
fn test_tier_policy_table() {
    assert_eq!(ThumbnailTier::Micro.max_dimension(), Some(300));
    assert_eq!(ThumbnailTier::Preview.max_dimension(), Some(1600));
    assert_eq!(ThumbnailTier::Loupe.max_dimension(), None);
    assert_eq!(ThumbnailTier::Micro.jpeg_quality(), 80);
    assert_eq!(ThumbnailTier::Preview.jpeg_quality(), 85);
    assert_eq!(ThumbnailTier::Loupe.jpeg_quality(), 85);
    assert_eq!(ThumbnailTier::Micro.exiftool_tag(), "PreviewImage");
    assert_eq!(ThumbnailTier::Preview.exiftool_tag(), "PreviewImage");
    assert_eq!(ThumbnailTier::Loupe.exiftool_tag(), "JpgFromRaw");
    assert_eq!(ThumbnailTier::Micro.dir_name(), "micro");
    assert_eq!(ThumbnailTier::Preview.dir_name(), "preview");
    assert_eq!(ThumbnailTier::Loupe.dir_name(), "loupe");
}

#[test]
fn test_brightness_extremes() {
    assert_eq!(ColorSwatch { r: 255, g: 255, b: 255 }.brightness(), 255);
    assert_eq!(ColorSwatch { r: 0, g: 0, b: 0 }.brightness(), 0);
    // 299*100/1000 rounded
    assert_eq!(ColorSwatch { r: 100, g: 0, b: 0 }.brightness(), 30);
}

#[test]
fn test_to_hex_low_values() {
    assert_eq!(ColorSwatch { r: 0, g: 10, b: 255 }.to_hex(), "#000aff");
}

#[test]
fn test_swatch_of_single_pixel() {
    // a 1x1 image: the window is exactly that pixel
    let pixels: Vec<u8> = vec![10, 20, 30];
    let s = swatch_of_pixels(1, 1, &pixels);
    assert_eq!(s, ColorSwatch { r: 10, g: 20, b: 30 });
}

#[test]
fn test_swatch_of_uniform_buffer() {
    // 8x8 uniform image: the centered 2x2 window averages to the same color
    let mut pixels: Vec<u8> = Vec::new();
    for _ in 0..64 {
        pixels.extend_from_slice(&[200, 100, 50]);
    }
    let s = swatch_of_pixels(8, 8, &pixels);
    assert_eq!(s, ColorSwatch { r: 200, g: 100, b: 50 });
}

#[test]
fn test_swatch_of_empty_buffer_is_gray() {
    let pixels: Vec<u8> = Vec::new();
    let s = swatch_of_pixels(0, 0, &pixels);
    assert_eq!(s, ColorSwatch { r: 128, g: 128, b: 128 });
}

#[test]
fn test_swatch_averages_center_window() {
    // 4x4 image: the window is the single sample at (2, 2)
    let mut pixels: Vec<u8> = vec![0; 48];
    let base = 3 * (2 * 4 + 2);
    pixels[base] = 77;
    pixels[base + 1] = 88;
    pixels[base + 2] = 99;
    let s = swatch_of_pixels(4, 4, &pixels);
    assert_eq!(s, ColorSwatch { r: 77, g: 88, b: 99 });
}
