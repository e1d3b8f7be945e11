use audio_server::monitor::{
    ActiveSound, ActiveSoundMessage, AudioMonitor, AudioMonitorMessage, ChannelLevels, Position,
    SourcePreviewMode, SpeakerMessage,
};
use audio_server::{sound, source, speaker};

fn position(x: f64) -> Position {
    Position { x: x.to_bits(), y: 0f64.to_bits(), radians: 0f32.to_bits() }
}

fn start(id: u64, source_id: u64, channels: usize) -> AudioMonitorMessage {
    AudioMonitorMessage::ActiveSound(
        sound::Id(id),
        ActiveSoundMessage::Start {
            normalised_progress: None,
            source_id: source::Id(source_id),
            position: position(1.0),
            channels,
        },
    )
}

#[test]
fn sounds_start_update_and_end() {
    let mut monitor = AudioMonitor::new();
    let mut preview = Some((SourcePreviewMode::OneShot, sound::Id(4)));
    monitor.handle(start(4, 10, 2), &mut preview);
    let s: &ActiveSound = monitor.active_sound(sound::Id(4)).expect("started");
    assert_eq!(s.channels, vec![ChannelLevels { rms: 0, peak: 0 }; 2]);
    assert_eq!(s.source_id, source::Id(10));

    let levels = AudioMonitorMessage::ActiveSound(
        sound::Id(4),
        ActiveSoundMessage::UpdateChannel { index: 1, rms: 0.5f32.to_bits(), peak: 0.75f32.to_bits() },
    );
    monitor.handle(levels, &mut preview);
    let update = AudioMonitorMessage::ActiveSound(
        sound::Id(4),
        ActiveSoundMessage::Update {
            normalised_progress: Some(0.5f64.to_bits()),
            source_id: source::Id(10),
            position: position(2.0),
            channels: 2,
        },
    );
    monitor.handle(update, &mut preview);
    let s = monitor.active_sound(sound::Id(4)).expect("still there");
    assert_eq!(s.channels[1], ChannelLevels { rms: 0.5f32.to_bits(), peak: 0.75f32.to_bits() });
    assert_eq!(s.position, position(2.0));
    assert_eq!(s.normalised_progress, Some(0.5f64.to_bits()));

    // A channel update for an unknown sound changes nothing.
    let stray = AudioMonitorMessage::ActiveSound(
        sound::Id(8),
        ActiveSoundMessage::UpdateChannel { index: 9, rms: 1, peak: 1 },
    );
    monitor.handle(stray, &mut preview);
    assert!(monitor.active_sound(sound::Id(8)).is_none());

    // An update for an unknown sound shows it as started.
    let late = AudioMonitorMessage::ActiveSound(
        sound::Id(5),
        ActiveSoundMessage::Update { normalised_progress: None, source_id: source::Id(11), position: position(3.0), channels: 1 },
    );
    monitor.handle(late, &mut preview);
    assert_eq!(monitor.active_sound(sound::Id(5)).expect("shown").channels.len(), 1);

    // Ending a sound other than the preview keeps the preview; ending the preview's sound ends it.
    monitor.handle(AudioMonitorMessage::ActiveSound(sound::Id(5), ActiveSoundMessage::End), &mut preview);
    assert_eq!(preview, Some((SourcePreviewMode::OneShot, sound::Id(4))));
    monitor.handle(AudioMonitorMessage::ActiveSound(sound::Id(4), ActiveSoundMessage::End), &mut preview);
    assert!(monitor.active_sound(sound::Id(4)).is_none());
    assert_eq!(preview, None);
}

#[test]
fn continuous_preview_outlives_its_sound() {
    let mut monitor = AudioMonitor::new();
    let mut preview = Some((SourcePreviewMode::Continuous, sound::Id(1)));
    monitor.handle(start(1, 2, 1), &mut preview);
    monitor.handle(AudioMonitorMessage::ActiveSound(sound::Id(1), ActiveSoundMessage::End), &mut preview);
    assert_eq!(preview, Some((SourcePreviewMode::Continuous, sound::Id(1))));
}

#[test]
fn master_and_speakers() {
    let mut monitor = AudioMonitor::new();
    let mut preview = None;
    monitor.handle(AudioMonitorMessage::Master { peak: 0.25f32.to_bits() }, &mut preview);
    assert_eq!(monitor.get_master_peak(), 0.25f32.to_bits());
    monitor.handle(AudioMonitorMessage::Speaker(speaker::Id(3), SpeakerMessage::Add), &mut preview);
    assert_eq!(monitor.speaker(speaker::Id(3)), Some(ChannelLevels { rms: 0, peak: 0 }));
    monitor.handle(AudioMonitorMessage::Speaker(speaker::Id(3), SpeakerMessage::Update { rms: 7, peak: 9 }), &mut preview);
    assert_eq!(monitor.speaker(speaker::Id(3)), Some(ChannelLevels { rms: 7, peak: 9 }));
    monitor.handle(AudioMonitorMessage::Speaker(speaker::Id(3), SpeakerMessage::Remove), &mut preview);
    assert_eq!(monitor.speaker(speaker::Id(3)), None);
}

#[test]
fn invalid_sounds_and_speakers_are_cleared() {
    let mut monitor = AudioMonitor::new();
    let mut preview = None;
    monitor.handle(start(1, 10, 1), &mut preview);
    monitor.handle(start(2, 11, 1), &mut preview);
    monitor.handle(AudioMonitorMessage::Speaker(speaker::Id(5), SpeakerMessage::Add), &mut preview);
    monitor.handle(AudioMonitorMessage::Speaker(speaker::Id(6), SpeakerMessage::Add), &mut preview);
    monitor.clear_invalid(&[source::Id(11)], &[speaker::Id(5)]);
    assert!(monitor.active_sound(sound::Id(1)).is_none());
    assert!(monitor.active_sound(sound::Id(2)).is_some());
    assert!(monitor.speaker(speaker::Id(5)).is_some());
    assert!(monitor.speaker(speaker::Id(6)).is_none());
    monitor.handle(AudioMonitorMessage::Master { peak: 3 }, &mut preview);
    monitor.clear();
    assert_eq!(monitor.get_master_peak(), 0);
    assert!(monitor.active_sound(sound::Id(2)).is_none());
    assert!(monitor.speaker(speaker::Id(5)).is_none());
}
