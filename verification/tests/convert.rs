use monochora::brightness::{apply_invert, calculate_brightness, calculate_char_index};
use monochora::config::AsciiConverterConfig;
use monochora::converter::{image_to_ascii, image_to_colored_ascii, sample_coord, PixelBuffer};
use monochora::planner::calculate_target_dimensions;
use monochora::ratio::Ratio;
use monochora::error::MonochoraError;

fn solid_image(width: u32, height: u32, r: u8, g: u8, b: u8, a: u8) -> PixelBuffer {
    let mut data = Vec::new();
    for _ in 0..(width * height) {
        data.push(r);
        data.push(g);
        data.push(b);
        data.push(a);
    }
    PixelBuffer::from_rgba(width, height, data).unwrap()
}

fn two_glyph_config(width: Option<u32>, invert: bool) -> AsciiConverterConfig {
    let mut config = AsciiConverterConfig::default();
    config.width = width;
    config.char_aspect = Ratio::new(1, 2);
    config.invert = invert;
    config.custom_charset = Some(vec![' ', '@']);
    config
}

#[test]
fn black_square_fills_grid_with_darkest_glyph() {
    // A fully black 10x10 source at width 10 with aspect preserved and a
    // half-width cell: 10 columns by 20 rows, every cell the ramp's darkest
    // glyph (index 0) because brightness 0 maps there when not inverted.
    let image = solid_image(10, 10, 0, 0, 0, 255);
    let config = two_glyph_config(Some(10), false);
    let lines = image_to_ascii(&image, &config).unwrap();
    assert_eq!(lines.len(), 20);
    for line in &lines {
        assert_eq!(line.chars().count(), 10);
        assert!(line.chars().all(|c| c == ' '));
    }
}

#[test]
fn black_square_inverted_picks_lightest_glyph() {
    let image = solid_image(10, 10, 0, 0, 0, 255);
    let config = two_glyph_config(Some(10), true);
    let lines = image_to_ascii(&image, &config).unwrap();
    assert_eq!(lines.len(), 20);
    for line in &lines {
        assert!(line.chars().all(|c| c == '@'));
    }
}

#[test]
fn transparent_pixel_is_always_a_space() {
    // A fully transparent pixel maps to the space glyph no matter the ramp
    // or the inversion flag.
    for &invert in &[false, true] {
        for charset in [vec![' ', '@'], vec!['#', '.', 'x']] {
            let image = solid_image(1, 1, 200, 10, 99, 0);
            let mut config = AsciiConverterConfig::default();
            config.width = Some(1);
            config.height = Some(1);
            config.invert = invert;
            config.custom_charset = Some(charset);
            let lines = image_to_ascii(&image, &config).unwrap();
            assert_eq!(lines, vec![" ".to_string()]);
        }
    }
}

#[test]
fn transparent_pixel_is_a_space_in_colored_output() {
    let image = solid_image(1, 1, 200, 10, 99, 0);
    let mut config = AsciiConverterConfig::default();
    config.width = Some(1);
    config.height = Some(1);
    let lines = image_to_colored_ascii(&image, &config).unwrap();
    assert_eq!(lines, vec![" \u{1b}[0m".to_string()]);
}

#[test]
fn colored_output_brackets_opaque_cells_with_escapes() {
    let image = solid_image(1, 1, 10, 20, 30, 255);
    let mut config = AsciiConverterConfig::default();
    config.width = Some(1);
    config.height = Some(1);
    config.custom_charset = Some(vec!['#', '.']);
    let lines = image_to_colored_ascii(&image, &config).unwrap();
    assert_eq!(lines, vec!["\u{1b}[38;2;10;20;30m#\u{1b}[0m".to_string()]);
}

#[test]
fn brightness_uses_standard_luma_weights() {
    assert_eq!(calculate_brightness(255, 255, 255), 255000);
    assert_eq!(calculate_brightness(0, 0, 0), 0);
    assert_eq!(calculate_brightness(255, 0, 0), 299 * 255);
    assert_eq!(calculate_brightness(0, 255, 0), 587 * 255);
    assert_eq!(calculate_brightness(0, 0, 255), 114 * 255);
}

#[test]
fn char_index_rounds_to_nearest_bucket() {
    assert_eq!(calculate_char_index(0, 2), 0);
    assert_eq!(calculate_char_index(255000, 2), 1);
    assert_eq!(calculate_char_index(127000, 2), 0);
    assert_eq!(calculate_char_index(128000, 2), 1);
    assert_eq!(calculate_char_index(255000, 10), 9);
}

#[test]
fn char_index_is_monotonic_in_brightness() {
    let mut last = 0;
    for luma in (0..=255000u32).step_by(1000) {
        let idx = calculate_char_index(luma, 69);
        assert!(idx >= last);
        last = idx;
    }
    let mut last_inverted = usize::MAX;
    for luma in (0..=255000u32).step_by(1000) {
        let idx = calculate_char_index(apply_invert(luma, true), 69);
        assert!(idx <= last_inverted);
        last_inverted = idx;
    }
}

#[test]
fn planner_uses_explicit_dimensions_verbatim() {
    let mut config = AsciiConverterConfig::default();
    config.width = Some(33);
    config.height = Some(44);
    assert_eq!(calculate_target_dimensions(10, 10, &config).unwrap(), (33, 44));
    assert_eq!(calculate_target_dimensions(999, 3, &config).unwrap(), (33, 44));
}

#[test]
fn planner_scale_mode_scales_both_axes() {
    let mut config = AsciiConverterConfig::default();
    config.scale_factor = Some(Ratio::new(1, 2));
    config.char_aspect = Ratio::new(1, 2);
    // width 10 * 1/2 = 5; height 10 * 1/2 / (1/2) = 10.
    assert_eq!(calculate_target_dimensions(10, 10, &config).unwrap(), (5, 10));
}

#[test]
fn planner_width_only_preserves_aspect() {
    let mut config = AsciiConverterConfig::default();
    config.width = Some(10);
    config.char_aspect = Ratio::new(1, 2);
    assert_eq!(calculate_target_dimensions(10, 10, &config).unwrap(), (10, 20));
}

#[test]
fn planner_never_returns_zero_dimensions() {
    let mut config = AsciiConverterConfig::default();
    config.scale_factor = Some(Ratio::new(1, 1000));
    let (w, h) = calculate_target_dimensions(3, 3, &config).unwrap();
    assert!(w >= 1 && h >= 1);
}

#[test]
fn planner_rejects_empty_source() {
    let config = AsciiConverterConfig::default();
    assert!(matches!(
        calculate_target_dimensions(0, 5, &config),
        Err(MonochoraError::InvalidDimensions { width: 0, height: 5 })
    ));
}

#[test]
fn sampling_clamps_to_last_source_cell() {
    assert_eq!(sample_coord(0, 10, 5), 0);
    assert_eq!(sample_coord(9, 10, 5), 4);
    assert_eq!(sample_coord(19, 20, 10), 9);
}

#[test]
fn config_validation_rejects_bad_values() {
    let mut config = AsciiConverterConfig::default();
    config.width = Some(0);
    assert!(matches!(
        config.validate(),
        Err(MonochoraError::InvalidDimensions { width: 0, height: 0 })
    ));
    let mut config = AsciiConverterConfig::default();
    config.char_aspect = Ratio::new(0, 1);
    assert!(matches!(config.validate(), Err(MonochoraError::Config(_))));
    let mut config = AsciiConverterConfig::default();
    config.custom_charset = Some(vec!['x']);
    assert!(matches!(config.validate(), Err(MonochoraError::Config(_))));
    // A ramp must be deduplicated: a repeated glyph is rejected, not clamped.
    let mut config = AsciiConverterConfig::default();
    config.custom_charset = Some(vec!['a', 'a']);
    assert!(matches!(config.validate(), Err(MonochoraError::Config(_))));
    assert!(AsciiConverterConfig::default().validate().is_ok());
}

#[test]
fn builtin_charsets_have_expected_sizes() {
    let simple = {
        let mut c = AsciiConverterConfig::default();
        c.detailed = false;
        c.get_charset()
    };
    assert_eq!(simple.len(), 10);
    assert_eq!(simple[0], ' ');
    assert_eq!(simple[9], '@');
    let detailed = AsciiConverterConfig::default().get_charset();
    assert_eq!(detailed.len(), 69);
    assert_eq!(detailed[0], ' ');
    assert_eq!(detailed[68], '@');
}
