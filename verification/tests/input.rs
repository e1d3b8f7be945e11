use audio_server::input::{capture_channel_range, Duration};

#[test]
fn capture_takes_what_the_duration_allows() {
    assert_eq!(Duration::Frames(100).frames_to_take(64), 64);
    assert_eq!(Duration::Frames(10).frames_to_take(64), 10);
    assert_eq!(Duration::Infinite.frames_to_take(64), 64);
    assert_eq!(Duration::Frames(100).after_buffer(64), Some(Duration::Frames(36)));
    assert_eq!(Duration::Frames(64).after_buffer(64), None);
    assert_eq!(Duration::Infinite.after_buffer(64), Some(Duration::Infinite));
}

#[test]
fn capture_channels_stay_within_the_buffer() {
    assert_eq!(capture_channel_range(2, 4, 8), (2, 4));
    assert_eq!(capture_channel_range(6, 10, 8), (6, 8));
    assert_eq!(capture_channel_range(9, 12, 8), (8, 8));
}
