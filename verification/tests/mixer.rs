use audio_server::mixer::{advance_frame_count, RenderMode as Mode};
use audio_server::installation;
use audio_server::mixer::{Mixer, SoundEntry, SpeakerEntry};
use audio_server::source;
use audio_server::speaker::Installations;
use audio_server::mixer::{is_exhausted, RenderMode};

fn speaker(channel: usize, installations: &[usize]) -> SpeakerEntry {
    SpeakerEntry {
        channel,
        installations: installations.iter().map(|&i| installation::Id(i)).collect(),
    }
}

fn sound(source_id: u64, installations: Installations) -> SoundEntry {
    SoundEntry { source_id: source::Id(source_id), channels: 2, installations }
}

#[test]
fn speakers_and_their_installations() {
    let mut mixer = Mixer::new();
    assert!(mixer.insert_speaker(1, speaker(0, &[0])).is_none());
    let old = mixer.insert_speaker(1, speaker(3, &[1])).expect("replaced");
    assert_eq!(old.channel, 0);
    assert!(mixer.insert_speaker_installation(1, installation::Id(2)));
    assert!(!mixer.insert_speaker_installation(1, installation::Id(2)));
    assert!(!mixer.insert_speaker_installation(9, installation::Id(2)));
    assert!(mixer.remove_speaker_installation(1, installation::Id(1)));
    assert!(!mixer.remove_speaker_installation(1, installation::Id(1)));
    let entry = mixer.speaker(1).expect("speaker exists");
    assert_eq!(entry.channel, 3);
    assert_eq!(entry.installations, vec![installation::Id(2)]);
    assert!(mixer.remove_speaker(1).is_some());
    assert!(mixer.remove_speaker(1).is_none());
}

#[test]
fn removing_an_installation_reaches_speakers_and_sounds() {
    let mut mixer = Mixer::new();
    assert!(mixer.insert_installation(installation::Id(4), 2));
    assert!(!mixer.insert_installation(installation::Id(4), 3));
    assert!(mixer.insert_installation(installation::Id(5), 0));
    mixer.insert_speaker(1, speaker(0, &[0, 4]));
    mixer.insert_speaker(2, speaker(1, &[4]));
    mixer.insert_sound(10, sound(5, Installations::Selected(vec![installation::Id(4), installation::Id(1)])));
    mixer.insert_sound(11, sound(5, Installations::All));
    assert!(mixer.remove_installation(installation::Id(4)));
    assert!(!mixer.remove_installation(installation::Id(4)));
    assert!(!mixer.remove_installation(installation::Id(7)));
    // An installation with no speakers or sounds assigned still existed.
    assert!(mixer.remove_installation(installation::Id(5)));
    assert_eq!(mixer.installation_computers().computers(installation::Id(5)), None);
    assert_eq!(mixer.speaker(1).unwrap().installations, vec![installation::Id(0)]);
    assert!(mixer.speaker(2).unwrap().installations.is_empty());
    assert_eq!(
        mixer.sound(10).unwrap().installations,
        Installations::Selected(vec![installation::Id(1)])
    );
    assert_eq!(mixer.sound(11).unwrap().installations, Installations::All);
}

#[test]
fn sounds_by_source() {
    let mut mixer = Mixer::new();
    mixer.insert_sound(1, sound(7, Installations::All));
    mixer.insert_sound(2, sound(8, Installations::All));
    mixer.insert_sound(3, sound(7, Installations::All));
    let mut with_seven = mixer.sounds_with_source(source::Id(7));
    with_seven.sort();
    assert_eq!(with_seven, vec![1, 3]);
    let mut removed = mixer.remove_sounds_with_source(source::Id(7));
    removed.sort();
    assert_eq!(removed, vec![1, 3]);
    assert!(mixer.sound(1).is_none());
    assert!(mixer.sound(2).is_some());
    assert!(mixer.remove_sounds_with_source(source::Id(7)).is_empty());
    assert!(mixer.remove_sound(2).is_some());
    assert!(mixer.remove_sound(2).is_none());
}

#[test]
fn clearing_reports_the_playing_sounds() {
    let mut mixer = Mixer::new();
    mixer.insert_speaker(1, speaker(0, &[]));
    mixer.insert_sound(4, sound(1, Installations::All));
    mixer.insert_sound(6, sound(1, Installations::All));
    mixer.insert_installation(installation::Id(0), 1);
    let mut ended = mixer.clear();
    assert_eq!(mixer.installation_computers().computers(installation::Id(0)), None);
    ended.sort();
    assert_eq!(ended, vec![4, 6]);
    assert!(mixer.speaker(1).is_none());
    assert!(mixer.sound(4).is_none());
}

#[test]
fn render_modes_follow_playing_mute_solo_and_speakers() {
    let mut mixer = Mixer::new();
    mixer.insert_sound(1, sound(5, Installations::All));
    // No speakers: a playing sound is pulled, not rendered.
    assert_eq!(mixer.render_mode(&[], 1, true, false, 64), RenderMode::PullOnly(128));
    mixer.insert_speaker(2, speaker(0, &[0]));
    assert_eq!(mixer.render_mode(&[], 1, true, false, 64), RenderMode::Render(128));
    assert_eq!(mixer.render_mode(&[], 1, false, false, 64), RenderMode::Skip);
    assert_eq!(mixer.render_mode(&[], 1, true, true, 64), RenderMode::PullOnly(128));
    assert_eq!(mixer.render_mode(&[source::Id(6)], 1, true, false, 64), RenderMode::PullOnly(128));
    assert_eq!(mixer.render_mode(&[source::Id(6), source::Id(5)], 1, true, false, 64), RenderMode::Render(128));
    assert!(is_exhausted(RenderMode::Render(128), 100));
    assert!(!is_exhausted(RenderMode::Render(128), 128));
    assert!(is_exhausted(RenderMode::PullOnly(128), 0));
    assert!(!is_exhausted(RenderMode::Skip, 0));
}

#[test]
fn render_bookkeeping_channels_exhaustion_and_frame_count() {
    let mut mixer = Mixer::new();
    mixer.insert_speaker(1, speaker(0, &[]));
    mixer.insert_speaker(2, speaker(3, &[]));
    mixer.insert_speaker(3, speaker(1, &[]));
    let mut map = mixer.channels_to_speakers(2);
    map.sort();
    assert_eq!(map, vec![(0, 1), (1, 3)]);
    assert!(mixer.channels_to_speakers(0).is_empty());

    mixer.insert_sound(7, sound(1, Installations::All));
    mixer.insert_sound(8, sound(2, Installations::All));
    mixer.insert_sound(9, sound(3, Installations::All));
    let ended = mixer.remove_exhausted(&[9, 7]);
    assert_eq!(ended.len(), 2);
    assert_eq!(ended[0].source_id, source::Id(3));
    assert_eq!(ended[1].source_id, source::Id(1));
    assert!(mixer.sound(7).is_none());
    assert!(mixer.sound(8).is_some());
    assert!(mixer.sound(9).is_none());
    assert!(matches!(mixer.render_mode(&[], 8, false, false, 4), Mode::Skip));

    assert_eq!(advance_frame_count(10, 512), 522);
    assert_eq!(advance_frame_count(usize::MAX, 2), 1);
}
