use monochora::ansi::{parse_cells, ColoredCharacter};
use monochora::cli::{calculate_adjusted_frame_delays, calculate_gif_char_dimensions,
    validate_charset_string};
use monochora::color::Rgb;
use monochora::decoder::{decode_gif_bytes, loop_count_from_repeat, normalize_delay, RepeatSpec};
use monochora::display::format_frames_for_file;
use monochora::encoder::{delay_to_units, encode_gif_frames, plan_gif_render};
use monochora::error::MonochoraError;
use monochora::font::{collect_unique_glyphs, unsupported_glyphs};
use monochora::painter::{calculate_dimensions_from_ascii, calculate_line_character_count,
    AsciiGifOutputOptions};
use monochora::ratio::Ratio;
use monochora::web::{get_file_extension_from_name, is_url};
use monochora::config::AsciiConverterConfig;
use monochora::converter::{image_to_colored_ascii, PixelBuffer};

fn chars_of(s: &str) -> Vec<char> {
    s.chars().collect()
}

#[test]
fn parser_reads_color_escapes_into_spans() {
    let line = chars_of("\u{1b}[38;2;10;20;30mAB\u{1b}[38;2;1;2;3mC\u{1b}[0m");
    let cells = parse_cells(&line, Rgb::new(0, 0, 0));
    assert_eq!(cells.len(), 3);
    assert_eq!(cells[0], ColoredCharacter { character: 'A', color: Rgb::new(10, 20, 30) });
    assert_eq!(cells[1], ColoredCharacter { character: 'B', color: Rgb::new(10, 20, 30) });
    assert_eq!(cells[2], ColoredCharacter { character: 'C', color: Rgb::new(1, 2, 3) });
}

#[test]
fn parser_gives_plain_text_the_default_color() {
    let cells = parse_cells(&chars_of("hi"), Rgb::new(7, 8, 9));
    assert_eq!(cells.len(), 2);
    assert_eq!(cells[0].character, 'h');
    assert_eq!(cells[0].color, Rgb::new(7, 8, 9));
}

#[test]
fn parser_rejects_out_of_range_components() {
    // 999 is not a byte, so the escape is not recognized; the escape
    // character is dropped and the rest stays text.
    let cells = parse_cells(&chars_of("\u{1b}[38;2;999;0;0mA"), Rgb::new(0, 0, 0));
    let glyphs: String = cells.iter().map(|c| c.character).collect();
    assert_eq!(glyphs, "[38;2;999;0;0mA");
}

#[test]
fn colored_rows_parse_back_to_their_cells() {
    // Round trip: a rasterized colored row parses back into one cell per
    // output column, opaque cells carrying their pixel colors.
    let data = vec![200, 10, 30, 255, 0, 0, 0, 0, 5, 6, 7, 255];
    let image = PixelBuffer::from_rgba(3, 1, data).unwrap();
    let mut config = AsciiConverterConfig::default();
    config.width = Some(3);
    config.height = Some(1);
    let lines = image_to_colored_ascii(&image, &config).unwrap();
    let cells = parse_cells(&lines[0].chars().collect::<Vec<char>>(), Rgb::new(0, 0, 0));
    assert_eq!(cells.len(), 3);
    assert_eq!(cells[0].color, Rgb::new(200, 10, 30));
    assert_eq!(cells[1].character, ' ');
    assert_eq!(cells[2].color, Rgb::new(5, 6, 7));
}

#[test]
fn visible_length_counts_glyphs_not_escape_bytes() {
    assert_eq!(calculate_line_character_count("abc"), 3);
    assert_eq!(calculate_line_character_count("\u{1b}[38;2;1;2;3mab\u{1b}[0m"), 2);
    assert_eq!(calculate_line_character_count(""), 0);
}

#[test]
fn grid_measurement_takes_maxima_over_all_frames() {
    let frames = vec![
        vec!["ab".to_string(), "c".to_string()],
        vec!["defg".to_string()],
    ];
    let rd = calculate_dimensions_from_ascii(&frames).unwrap();
    assert_eq!(rd.max_line_length, 4);
    assert_eq!(rd.max_lines, 2);
    assert_eq!(rd.width, 4);
    assert_eq!(rd.height, 2);
}

#[test]
fn grid_measurement_rejects_empty_input() {
    let none: Vec<Vec<String>> = Vec::new();
    assert!(matches!(
        calculate_dimensions_from_ascii(&none),
        Err(MonochoraError::Config(_))
    ));
    let hollow = vec![vec!["".to_string()]];
    assert!(matches!(
        calculate_dimensions_from_ascii(&hollow),
        Err(MonochoraError::Config(_))
    ));
}

#[test]
fn plan_derives_canvas_from_grid_and_font() {
    let frames = vec![vec!["ab".to_string()]];
    let plan = plan_gif_render(&frames, &vec![100], &AsciiGifOutputOptions::default(), None)
        .unwrap();
    // Two cells, each six tenths of a 14-pixel glyph wide: 16 pixels.
    assert_eq!(plan.width, 16);
    // One line of 14 pixels plus 20 pixels of padding.
    assert_eq!(plan.height, 34);
    assert_eq!(plan.frame_ops.len(), 1);
    let ops = &plan.frame_ops[0];
    assert_eq!(ops.len(), 1);
    assert_eq!(ops[0].x, 0);
    assert_eq!(ops[0].y, 0);
    assert_eq!(ops[0].text, "ab");
    assert_eq!(ops[0].color, Rgb::new(255, 255, 255));
}

#[test]
fn plan_splits_colored_lines_into_runs() {
    let line = "\u{1b}[38;2;9;9;9mab\u{1b}[38;2;1;1;1mc\u{1b}[0m".to_string();
    let mut options = AsciiGifOutputOptions::default();
    options.colored = true;
    let plan = plan_gif_render(&vec![vec![line]], &vec![100], &options, Some((100, 100)))
        .unwrap();
    let ops = &plan.frame_ops[0];
    assert_eq!(ops.len(), 2);
    assert_eq!(ops[0].color, Rgb::new(9, 9, 9));
    assert_eq!(ops[0].text, "ab ");
    assert_eq!(ops[1].color, Rgb::new(1, 1, 1));
    assert_eq!(ops[1].text, "  c");
}

#[test]
fn plan_rejects_missing_inputs() {
    let options = AsciiGifOutputOptions::default();
    let no_frames: Vec<Vec<String>> = Vec::new();
    assert!(plan_gif_render(&no_frames, &vec![100], &options, None).is_err());
    let frames = vec![vec!["ab".to_string()]];
    let no_delays: Vec<u16> = Vec::new();
    assert!(plan_gif_render(&frames, &no_delays, &options, None).is_err());
    let mut bad = AsciiGifOutputOptions::default();
    bad.font_size = 0;
    assert!(matches!(
        plan_gif_render(&frames, &vec![100], &bad, None),
        Err(MonochoraError::InvalidFontSize { size: 0 })
    ));
}

#[test]
fn encode_then_decode_roundtrips_a_tiny_animation() {
    // Two 2x1 frames of background and foreground pixels survive the trip
    // through the real container encoder and decoder.
    let frames_rgb = vec![
        vec![0, 0, 0, 255, 255, 255],
        vec![255, 255, 255, 0, 0, 0],
    ];
    let bytes = encode_gif_frames(
        2,
        1,
        false,
        Rgb::new(0, 0, 0),
        Rgb::new(255, 255, 255),
        &frames_rgb,
        &vec![100, 50],
        0,
    )
    .unwrap();
    let decoded = decode_gif_bytes(&bytes).unwrap();
    assert_eq!(decoded.width, 2);
    assert_eq!(decoded.height, 1);
    assert_eq!(decoded.frames.len(), 2);
    assert_eq!(decoded.loop_count, 0);
    assert_eq!(decoded.frames[0].delay_time_ms, 100);
    assert_eq!(decoded.frames[1].delay_time_ms, 50);
    let first = &decoded.frames[0].image;
    assert_eq!(&first.data[0..3], &[0, 0, 0]);
    assert_eq!(&first.data[4..7], &[255, 255, 255]);
}

#[test]
fn encode_rejects_wrongly_sized_frames_naming_the_frame() {
    // The second frame is short; the error names its index and nothing of
    // the batch is encoded.
    let frames_rgb = vec![vec![0, 0, 0, 9, 9, 9], vec![0, 0, 0]];
    match encode_gif_frames(
        2,
        1,
        false,
        Rgb::new(0, 0, 0),
        Rgb::new(255, 255, 255),
        &frames_rgb,
        &vec![100],
        0,
    ) {
        Err(MonochoraError::GifDecode(m)) => {
            assert_eq!(m, "Frame 1 has incorrect data size");
        }
        other => panic!("expected a size-mismatch error, got {:?}", other),
    }
}

#[test]
fn loop_counts_preserve_the_container_semantics() {
    assert_eq!(loop_count_from_repeat(RepeatSpec::Infinite), 0);
    assert_eq!(loop_count_from_repeat(RepeatSpec::Finite(0)), 1);
    assert_eq!(loop_count_from_repeat(RepeatSpec::Finite(7)), 7);
}

#[test]
fn decode_rejects_garbage() {
    assert!(decode_gif_bytes(&[1, 2, 3]).is_err());
    assert!(decode_gif_bytes(&[]).is_err());
}

#[test]
fn delay_conversions_floor_with_minimums() {
    assert_eq!(normalize_delay(0), 100);
    assert_eq!(normalize_delay(5), 50);
    assert_eq!(normalize_delay(6553), 65530);
    assert_eq!(normalize_delay(7000), 65535);
    assert_eq!(delay_to_units(5), 1);
    assert_eq!(delay_to_units(100), 10);
    assert_eq!(delay_to_units(0), 1);
}

#[test]
fn speed_and_fps_adjustments_rewrite_delays() {
    let delays = vec![100u16, 40];
    // Double speed halves every delay.
    let doubled = calculate_adjusted_frame_delays(&delays, Some(Ratio::new(2, 1)), None);
    assert_eq!(doubled, vec![50, 20]);
    // A 10 fps target makes every delay 100 ms, whatever it was.
    let fixed = calculate_adjusted_frame_delays(&delays, None, Some(Ratio::new(10, 1)));
    assert_eq!(fixed, vec![100, 100]);
    // A huge speed multiplier still leaves at least one millisecond.
    let fast = calculate_adjusted_frame_delays(&delays, Some(Ratio::new(1000, 1)), None);
    assert_eq!(fast, vec![1, 1]);
    let unchanged = calculate_adjusted_frame_delays(&delays, None, None);
    assert_eq!(unchanged, delays);
}

#[test]
fn gif_char_dimensions_fit_the_pixel_target() {
    assert_eq!(calculate_gif_char_dimensions(160, 140, 14).unwrap(), (22, 10));
    assert!(matches!(
        calculate_gif_char_dimensions(160, 140, 0),
        Err(MonochoraError::InvalidFontSize { size: 0 })
    ));
    assert!(matches!(
        calculate_gif_char_dimensions(5, 140, 14),
        Err(MonochoraError::InvalidDimensions { .. })
    ));
}

#[test]
fn charset_string_validation_rules() {
    assert!(validate_charset_string(" .oO@").is_ok());
    assert!(validate_charset_string("x").is_err());
    assert!(validate_charset_string("aa").is_err());
    assert!(validate_charset_string("a\u{1}b").is_err());
}

#[test]
fn url_detection_checks_the_scheme_prefix() {
    assert!(is_url("http://host/a.gif"));
    assert!(is_url("https://host/a.gif"));
    assert!(!is_url("ftp://host/a.gif"));
    assert!(!is_url("a.gif"));
    assert!(!is_url(""));
}

#[test]
fn extension_extraction_recognizes_image_suffixes() {
    assert_eq!(get_file_extension_from_name("a.GIF").unwrap(), "gif");
    assert_eq!(get_file_extension_from_name("b.jpeg").unwrap(), "jpeg");
    assert!(get_file_extension_from_name("c.txt").is_none());
    assert!(get_file_extension_from_name("noext").is_none());
}

#[test]
fn text_dump_banners_every_frame() {
    let frames = vec![vec!["ab".to_string(), "c".to_string()]];
    let text = format_frames_for_file(&frames).unwrap();
    let sep = "=".repeat(80);
    let expected = format!("{}\nFrame 1\n{}\nab\nc\n\n", sep, sep);
    assert_eq!(text, expected);
    let none: Vec<Vec<String>> = Vec::new();
    assert!(matches!(
        format_frames_for_file(&none),
        Err(MonochoraError::Animation(_))
    ));
}

#[test]
fn glyph_collection_is_sorted_and_deduplicated() {
    let frames = vec![
        vec!["ba".to_string()],
        vec!["\u{1b}[38;2;1;2;3mcb\u{1b}[0m".to_string()],
    ];
    let glyphs = collect_unique_glyphs(&frames);
    assert_eq!(glyphs, vec!['a', 'b', 'c']);
}

#[test]
fn unsupported_glyph_filter_keeps_order() {
    let glyphs = vec!['a', 'b', 'c'];
    let missing = vec![true, false, true];
    assert_eq!(unsupported_glyphs(&glyphs, &missing), vec!['a', 'c']);
    assert_eq!(unsupported_glyphs(&glyphs, &vec![false, false, false]), Vec::<char>::new());
}
