use monochora::config::AsciiConverterConfig;
use monochora::converter::PixelBuffer;
use monochora::decoder::{GifData, GifFrame};
use monochora::display::{resolve_frame_delay, validate_animation_input, PlaybackAction,
    PlaybackController, PlaybackEvent, PlaybackState};
use monochora::error::MonochoraError;
use monochora::scheduler::ResponsiveFrameManager;
use monochora::TerminalDimensions;

fn tiny_gif_data() -> GifData {
    let image = PixelBuffer::from_rgba(2, 2, vec![0u8; 16]).unwrap();
    GifData {
        frames: vec![GifFrame { image: image.clone(), delay_time_ms: 100 }, GifFrame {
            image,
            delay_time_ms: 50,
        }],
        width: 2,
        height: 2,
        loop_count: 0,
    }
}

#[test]
fn empty_delay_list_falls_back_to_default_for_every_frame() {
    let delays: Vec<u16> = Vec::new();
    for i in 0..10 {
        assert_eq!(resolve_frame_delay(&delays, i), 100);
    }
}

#[test]
fn zero_delay_entries_fall_back_to_default() {
    let delays = vec![0u16, 30];
    assert_eq!(resolve_frame_delay(&delays, 0), 100);
    assert_eq!(resolve_frame_delay(&delays, 1), 30);
    // Past the end the first entry applies, normalized the same way.
    assert_eq!(resolve_frame_delay(&delays, 5), 100);
}

#[test]
fn animation_input_validation_requires_frames_only() {
    let frames = vec![vec!["x".to_string()]];
    let delays = vec![10u16];
    assert!(validate_animation_input(&frames, &delays).is_ok());
    let no_frames: Vec<Vec<String>> = Vec::new();
    assert!(matches!(
        validate_animation_input(&no_frames, &delays),
        Err(MonochoraError::Animation(_))
    ));
    // An empty delay list is fine: playback falls back to the default delay.
    let no_delays: Vec<u16> = Vec::new();
    assert!(validate_animation_input(&frames, &no_delays).is_ok());
}

#[test]
fn playback_draws_frames_in_order_and_honors_the_loop_budget() {
    let mut c = PlaybackController::new(2, 1);
    assert_eq!(c.step(PlaybackEvent::Tick), PlaybackAction::DrawFrame(0));
    assert_eq!(c.step(PlaybackEvent::Tick), PlaybackAction::DrawFrame(1));
    // One iteration was allowed; the next event exits.
    assert_eq!(c.state, PlaybackState::Exiting);
    assert_eq!(c.step(PlaybackEvent::Tick), PlaybackAction::Exit);
}

#[test]
fn playback_loops_forever_with_zero_loop_count() {
    let mut c = PlaybackController::new(1, 0);
    for _ in 0..50 {
        assert_eq!(c.step(PlaybackEvent::Tick), PlaybackAction::DrawFrame(0));
        assert_eq!(c.state, PlaybackState::Playing);
    }
}

#[test]
fn playback_pause_suppresses_ticks_until_any_key() {
    let mut c = PlaybackController::new(3, 0);
    assert_eq!(c.step(PlaybackEvent::KeyPause), PlaybackAction::Wait);
    assert_eq!(c.state, PlaybackState::Paused);
    assert_eq!(c.step(PlaybackEvent::Tick), PlaybackAction::Wait);
    assert_eq!(c.step(PlaybackEvent::KeyOther), PlaybackAction::Wait);
    assert_eq!(c.state, PlaybackState::Playing);
}

#[test]
fn playback_quit_key_exits_immediately() {
    let mut c = PlaybackController::new(3, 0);
    assert_eq!(c.step(PlaybackEvent::KeyQuit), PlaybackAction::Exit);
    assert_eq!(c.state, PlaybackState::Exiting);
    assert_eq!(c.step(PlaybackEvent::KeyOther), PlaybackAction::Exit);
}

#[test]
fn playback_resize_restarts_the_iteration_from_frame_zero() {
    let mut c = PlaybackController::new(3, 0);
    assert_eq!(c.step(PlaybackEvent::Tick), PlaybackAction::DrawFrame(0));
    assert_eq!(c.step(PlaybackEvent::Tick), PlaybackAction::DrawFrame(1));
    assert_eq!(c.step(PlaybackEvent::Resized), PlaybackAction::Regenerate);
    assert_eq!(c.step(PlaybackEvent::Tick), PlaybackAction::DrawFrame(0));
}

#[test]
fn identical_dimension_updates_regenerate_at_most_once() {
    // Two identical readings in a row: the second is a no-op that keeps the
    // cache, so frames are regenerated at most once.
    let mut manager = ResponsiveFrameManager::new(
        tiny_gif_data(),
        AsciiConverterConfig::default(),
        vec![100, 50],
        TerminalDimensions::new(40, 20),
        false,
    );
    assert!(manager.cached_frames.is_none());
    let frames = manager.get_frames().unwrap();
    assert_eq!(frames.len(), 2);
    assert!(manager.cached_frames.is_some());
    // The same reading again: no change, cache untouched.
    assert!(!manager.update_dimensions(TerminalDimensions::new(40, 20)));
    assert!(manager.cached_frames.is_some());
    // A genuinely new reading clears the cache.
    assert!(manager.update_dimensions(TerminalDimensions::new(50, 20)));
    assert!(manager.cached_frames.is_none());
}

#[test]
fn too_small_terminal_is_a_fatal_error() {
    let mut manager = ResponsiveFrameManager::new(
        tiny_gif_data(),
        AsciiConverterConfig::default(),
        vec![100],
        TerminalDimensions::new(2, 4),
        false,
    );
    assert!(matches!(manager.get_frames(), Err(MonochoraError::Terminal(_))));
}

#[test]
fn regenerated_frames_fit_the_terminal_margins() {
    let mut manager = ResponsiveFrameManager::new(
        tiny_gif_data(),
        AsciiConverterConfig::default(),
        vec![100, 50],
        TerminalDimensions::new(12, 14),
        false,
    );
    let frames = manager.get_frames().unwrap();
    // Width 12 - 2 margin, height 14 - 4 margin.
    for frame in &frames {
        assert_eq!(frame.len(), 10);
        for line in frame {
            assert_eq!(line.chars().count(), 10);
        }
    }
}

#[test]
fn gif_data_duration_and_average() {
    let data = tiny_gif_data();
    assert_eq!(data.total_duration_ms(), 150);
    assert_eq!(data.average_frame_delay(), 75);
    assert!(data.validate().is_ok());
    let empty = GifData { frames: Vec::new(), width: 2, height: 2, loop_count: 0 };
    assert_eq!(empty.average_frame_delay(), 100);
    assert!(empty.validate().is_err());
}
