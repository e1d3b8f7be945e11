use audio_server::source::realtime;
use audio_server::source::{
    default_playback, default_should_loop, frames_until_release_begins, index_from_playback,
    playback_from_index, simultaneous_sounds, Attack, Duration, FrameGain, Gain, Playback,
    Release, Signal, SignalKind,
};

#[test]
fn playback_options() {
    assert_eq!(default_playback(), Playback::Retrigger);
    assert!(!default_should_loop());
    assert_eq!(playback_from_index(0), Some(Playback::Retrigger));
    assert_eq!(playback_from_index(1), Some(Playback::Continuous));
    assert_eq!(playback_from_index(2), None);
    assert_eq!(index_from_playback(&Playback::Continuous), 1);
    assert_eq!(simultaneous_sounds().min, 0);
    assert_eq!(simultaneous_sounds().max, 1);
}

#[test]
fn attack_ramps_up_then_stays_full() {
    let mut attack = Attack::from_duration_frames(3);
    assert_eq!(attack.next_gain(), Gain::Ratio { numerator: 0, denominator: 3 });
    assert_eq!(attack.next_gain(), Gain::Ratio { numerator: 1, denominator: 3 });
    assert_eq!(attack.next_gain(), Gain::Ratio { numerator: 2, denominator: 3 });
    assert_eq!(attack.next_gain(), Gain::Full);
    assert_eq!(attack.next_gain(), Gain::Full);
}

#[test]
fn release_ramps_down() {
    let mut release = Release::from_duration_frames(2);
    assert_eq!(release.next_gain(), Gain::Ratio { numerator: 2, denominator: 2 });
    assert_eq!(release.next_gain(), Gain::Ratio { numerator: 1, denominator: 2 });
    assert_eq!(release.next_gain(), Gain::Full);
    assert_eq!(frames_until_release_begins(10, &Release::from_duration_frames(4)), 6);
    assert_eq!(frames_until_release_begins(3, &Release::from_duration_frames(4)), 0);
}

#[test]
fn duration_counts_its_frames() {
    let mut d = Duration::from_frames(2);
    assert_eq!(d.remaining_frames(), 2);
    assert_eq!(d.next(), Some(()));
    assert_eq!(d.next(), Some(()));
    assert_eq!(d.next(), None);
    assert_eq!(d.remaining_frames(), 0);
}

#[test]
fn signal_samples_apply_attack_release_and_duration() {
    let kind: SignalKind<(), ()> = SignalKind::Wav { samples: (), channels: 2, playback: Playback::Retrigger };
    assert_eq!(kind.channels(), 2);
    let mut signal = Signal::new(kind, 2, 2).with_duration_frames(3);
    assert_eq!(signal.remaining_frames(Some(10)), Some(3));
    assert_eq!(signal.remaining_frames(None), Some(3));
    let mut samples = signal.samples(Some(10), 2);
    // Three frames: the release of two frames begins after the first.
    let mut gains = vec![];
    while let Some(g) = samples.next_gain(&mut signal) {
        gains.push(g);
    }
    assert_eq!(gains.len(), 6);
    assert_eq!(gains[0], FrameGain { attack: Gain::Ratio { numerator: 0, denominator: 2 }, release: Gain::Full });
    assert_eq!(gains[1], gains[0]);
    assert_eq!(gains[2], FrameGain {
        attack: Gain::Ratio { numerator: 1, denominator: 2 },
        release: Gain::Ratio { numerator: 2, denominator: 2 },
    });
    assert_eq!(gains[4], FrameGain { attack: Gain::Full, release: Gain::Ratio { numerator: 1, denominator: 2 } });
}

#[test]
fn realtime_signals_count_their_samples() {
    let mut s = realtime::Signal { sample_rx: (), channels: 2, remaining_samples: Some(5) };
    assert_eq!(s.channels(), 2);
    assert_eq!(s.remaining_frames(), Some(2));
    s.sample_taken();
    assert_eq!(s.remaining_samples, Some(4));
    let endless = realtime::Signal { sample_rx: (), channels: 1, remaining_samples: None };
    assert_eq!(endless.remaining_frames(), None);
}

#[test]
fn signal_yields_at_most_duration_times_channels_samples() {
    let kind: SignalKind<(), ()> = SignalKind::Wav { samples: (), channels: 3, playback: Playback::Retrigger };
    let mut signal = Signal::new(kind, 1, 1).with_duration_frames(4);
    let mut total = 0;
    // Several calls of `samples`, each drawn partly.
    for take in [2usize, 5, 100] {
        let mut samples = signal.samples(None, 3);
        for _ in 0..take {
            if samples.next_gain(&mut signal).is_none() {
                break;
            }
            total += 1;
        }
    }
    assert!(total <= 4 * 3);
    assert_eq!(total, 2 + 5 + 3);
}

#[test]
fn every_frame_gain_lies_in_unit_range() {
    let in_unit = |g: Gain| match g {
        Gain::Full => true,
        Gain::Ratio { numerator, denominator } => 0 <= numerator && numerator <= denominator && denominator > 0,
    };
    for (attack, release, duration) in [(0i64, 0i64, 5i64), (3, 2, 6), (4, 10, 3), (1, 1, 1), (2, -3, 4)] {
        let kind: SignalKind<(), ()> = SignalKind::Wav { samples: (), channels: 1, playback: Playback::Retrigger };
        let mut signal = Signal::new(kind, attack, release).with_duration_frames(duration);
        let mut samples = signal.samples(None, 1);
        let mut n = 0;
        while let Some(g) = samples.next_gain(&mut signal) {
            assert!(in_unit(g.attack) && in_unit(g.release));
            n += 1;
        }
        assert_eq!(n, duration);
    }
}
