use audio_server::detection::speakers_in_buffer;
use audio_server::detection::{BufferUse, SoundBuffers, BUFFERS_PER_SOUND, SOUND_BUFFERS_TO_PREPARE};
use audio_server::detection::InstallationComputers;
use audio_server::installation::Id;

#[test]
fn buffers_keep_up_with_sounds() {
    let mut buffers = SoundBuffers::new();
    assert_eq!(buffers.num_active_sound_buffers(), SOUND_BUFFERS_TO_PREPARE);
    assert_eq!(SOUND_BUFFERS_TO_PREPARE, 384);
    let mut added = 0;
    for id in 0..128u64 {
        added += buffers.add_sound(id, 2);
    }
    assert_eq!(added, 0);
    assert_eq!(buffers.add_sound(128, 2), BUFFERS_PER_SOUND);
    assert_eq!(buffers.num_active_sound_buffers(), 387);
    // Re-adding a known sound adds nothing.
    assert_eq!(buffers.add_sound(128, 1), 0);
    buffers.remove_sound(0);
    assert_eq!(buffers.num_active_sound_buffers(), 387);
    assert_eq!(buffers.add_sound(500, 2), 0);
}

#[test]
fn buffers_are_analysed_recycled_or_reset() {
    let mut buffers = SoundBuffers::new();
    buffers.add_sound(1, 2);
    assert_eq!(buffers.use_buffer(1, 2), BufferUse::Analyse);
    assert_eq!(buffers.use_buffer(1, 1), BufferUse::ResetChannels(1));
    assert_eq!(buffers.use_buffer(1, 1), BufferUse::Analyse);
    assert_eq!(buffers.use_buffer(2, 1), BufferUse::Recycle);
}

#[test]
fn installations_with_computers_receive_and_are_analysed() {
    let mut installations = InstallationComputers::new();
    assert!(installations.add_installation(Id(0), 2));
    assert!(installations.add_installation(Id(1), 0));
    assert!(!installations.add_installation(Id(0), 3));
    assert_eq!(installations.speaker_targets(&[Id(1), Id(0), Id(4)]), vec![Id(0)]);
    assert_eq!(installations.analysed(true), vec![Id(0)]);
    assert!(installations.analysed(false).is_empty());
    assert!(installations.add_installation(Id(2), 1));
    let mut analysed = installations.analysed(true);
    analysed.sort_by_key(|id| id.0);
    assert_eq!(analysed, vec![Id(0), Id(2)]);
    assert!(installations.remove_installation(Id(0)));
    assert!(!installations.remove_installation(Id(0)));
    assert_eq!(installations.speaker_targets(&[Id(2), Id(0)]), vec![Id(2)]);
}

#[test]
fn speakers_beyond_the_buffer_are_skipped() {
    let speakers = [(4u64, 0usize), (5, 2), (6, 1), (7, 8)];
    assert_eq!(speakers_in_buffer(&speakers, 2), vec![(4, 0), (6, 1)]);
    assert!(speakers_in_buffer(&speakers, 0).is_empty());
    assert_eq!(speakers_in_buffer(&speakers, 9), speakers.to_vec());
}
