use audio_server::input;
use audio_server::sound::{self, realtime_setup, IdGenerator, RealtimeSetup, Shared, SourceHandle};
use audio_server::source;

#[test]
fn sound_ids_are_handed_out_in_turn() {
    let mut gen = IdGenerator::new();
    assert_eq!(gen.generate_next(), sound::Id(0));
    assert_eq!(gen.generate_next(), sound::Id(1));
    assert_eq!(gen.generate_next(), sound::Id(2));
    assert_eq!(sound::Id::initial(), sound::Id(0));
}

#[test]
fn pausing_and_playing_a_realtime_sound() {
    let mut shared = Shared::new(source::Id(3), sound::Id(9), SourceHandle::Realtime { is_capturing: true });
    assert!(shared.is_playing());
    assert_eq!(shared.source_id(), source::Id(3));
    assert_eq!(shared.id(), sound::Id(9));
    assert!(shared.pause());
    assert!(!shared.pause());
    assert!(!shared.is_playing());
    assert_eq!(shared.source(), SourceHandle::Realtime { is_capturing: false });
    assert!(shared.play());
    assert!(!shared.play());
    assert_eq!(shared.source(), SourceHandle::Realtime { is_capturing: true });
}

#[test]
fn pausing_a_wav_sound() {
    let mut shared = Shared::new(source::Id(1), sound::Id(2), SourceHandle::Wav);
    assert!(shared.pause());
    assert_eq!(shared.source(), SourceHandle::Wav);
}

#[test]
fn realtime_sounds_are_set_up_by_frames_and_channels() {
    assert_eq!(
        realtime_setup(false, 480, 2, 10),
        RealtimeSetup {
            duration: input::Duration::Frames(480),
            delay_samples: 20,
            remaining_samples: Some(960),
        }
    );
    assert_eq!(
        realtime_setup(true, 480, 3, 0),
        RealtimeSetup { duration: input::Duration::Infinite, delay_samples: 0, remaining_samples: None }
    );
}

#[test]
fn the_last_play_or_pause_decides() {
    let mut shared = Shared::new(source::Id(1), sound::Id(2), SourceHandle::Wav);
    assert!(shared.is_playing());
    for (play, expected) in [(false, false), (false, false), (true, true), (false, false), (true, true)] {
        if play {
            shared.play();
        } else {
            shared.pause();
        }
        assert_eq!(shared.is_playing(), expected);
    }
}
