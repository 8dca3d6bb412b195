use monochora::color::Rgb;
use monochora::error::MonochoraError;
use monochora::palette::{create_color_cache, create_enhanced_color_palette,
    create_optimized_palette, find_closest_color, hsv_to_rgb, quantize_image};

fn entry(p: &[u8], i: usize) -> (u8, u8, u8) {
    (p[3 * i], p[3 * i + 1], p[3 * i + 2])
}

#[test]
fn monochrome_palette_starts_with_background_and_foreground() {
    let bg = Rgb::new(1, 2, 3);
    let fg = Rgb::new(250, 251, 252);
    let p = create_optimized_palette(bg, fg);
    assert_eq!(p.len(), 768);
    assert_eq!(entry(&p, 0), (1, 2, 3));
    assert_eq!(entry(&p, 1), (250, 251, 252));
    // Entries past the interpolation ramp repeat the background.
    assert_eq!(entry(&p, 33), (1, 2, 3));
    assert_eq!(entry(&p, 255), (1, 2, 3));
}

#[test]
fn monochrome_palette_interpolates_between_colors() {
    let bg = Rgb::new(0, 0, 0);
    let fg = Rgb::new(255, 255, 255);
    let p = create_optimized_palette(bg, fg);
    // Entry 2 is blend step 1 of 32: floor(255 / 32) = 7.
    assert_eq!(entry(&p, 2), (7, 7, 7));
    // Entry 17 is blend step 16 of 32: floor(255 * 16 / 32) = 127.
    assert_eq!(entry(&p, 17), (127, 127, 127));
}

#[test]
fn palette_roundtrip_recovers_background_and_foreground() {
    // Quantizing the palette's own background and foreground reproduces
    // entries 0 and 1 exactly.
    let bg = Rgb::new(0, 0, 0);
    let fg = Rgb::new(255, 255, 255);
    let p = create_optimized_palette(bg, fg);
    let cache = create_color_cache(&p);
    assert_eq!(find_closest_color(bg, &p, &cache), 0);
    assert_eq!(find_closest_color(fg, &p, &cache), 1);
}

#[test]
fn quantizer_is_idempotent_on_palette_colors() {
    // A color present verbatim in the palette always quantizes to its first
    // index, never to a scan-derived approximation.
    let bg = Rgb::new(0, 0, 0);
    let fg = Rgb::new(255, 255, 255);
    let p = create_optimized_palette(bg, fg);
    let cache = create_color_cache(&p);
    for i in 0..256usize {
        let c = entry(&p, i);
        let idx = find_closest_color(Rgb::new(c.0, c.1, c.2), &p, &cache) as usize;
        // The result names the first occurrence of that exact color.
        assert_eq!(entry(&p, idx), c);
        assert!(idx <= i);
        for j in 0..idx {
            assert_ne!(entry(&p, j), c);
        }
    }
}

#[test]
fn quantizer_picks_nearest_by_squared_distance() {
    let bg = Rgb::new(0, 0, 0);
    let fg = Rgb::new(255, 255, 255);
    let p = create_optimized_palette(bg, fg);
    let cache = create_color_cache(&p);
    // (4, 4, 4) sits nearer blend step 1 (7, 7, 7) than the background.
    assert_eq!(find_closest_color(Rgb::new(4, 4, 4), &p, &cache), 2);
    // (1, 0, 0) is nearest the background.
    assert_eq!(find_closest_color(Rgb::new(1, 0, 0), &p, &cache), 0);
}

#[test]
fn colored_palette_leads_with_background_then_primaries() {
    let bg = Rgb::new(9, 9, 9);
    let p = create_enhanced_color_palette(bg);
    assert_eq!(p.len(), 768);
    assert_eq!(entry(&p, 0), (9, 9, 9));
    assert_eq!(entry(&p, 1), (255, 255, 255));
    assert_eq!(entry(&p, 2), (255, 0, 0));
    assert_eq!(entry(&p, 24), (192, 255, 255));
    // The grayscale ramp ends at white; padding repeats the background.
    assert_eq!(entry(&p, 208), (255, 255, 255));
    assert_eq!(entry(&p, 209), (9, 9, 9));
}

#[test]
fn hsv_conversion_matches_hexagonal_sectors() {
    assert_eq!(hsv_to_rgb(0, 1000, 1000), Rgb::new(255, 0, 0));
    assert_eq!(hsv_to_rgb(120, 1000, 1000), Rgb::new(0, 255, 0));
    assert_eq!(hsv_to_rgb(240, 1000, 1000), Rgb::new(0, 0, 255));
    assert_eq!(hsv_to_rgb(60, 1000, 1000), Rgb::new(255, 255, 0));
    assert_eq!(hsv_to_rgb(0, 0, 1000), Rgb::new(255, 255, 255));
    assert_eq!(hsv_to_rgb(0, 1000, 0), Rgb::new(0, 0, 0));
}

#[test]
fn quantize_image_maps_every_pixel() {
    let bg = Rgb::new(0, 0, 0);
    let fg = Rgb::new(255, 255, 255);
    let p = create_optimized_palette(bg, fg);
    let cache = create_color_cache(&p);
    let pixels = vec![0, 0, 0, 255, 255, 255, 0, 0, 0];
    let indexed = quantize_image(&pixels, &p, &cache).unwrap();
    assert_eq!(indexed, vec![0, 1, 0]);
}

#[test]
fn quantize_image_rejects_empty_palette() {
    let empty: Vec<u8> = Vec::new();
    let cache = create_color_cache(&empty);
    let pixels = vec![1, 2, 3];
    assert!(matches!(
        quantize_image(&pixels, &empty, &cache),
        Err(MonochoraError::Config(_))
    ));
}
