use audio_server::installation::{self, Installation};
use audio_server::installation::computer;
use audio_server::project::first_free_project_name;
use audio_server::project::{sync_messages, SourceSync, SyncMessage};
use audio_server::project::{
    auto_name_installations_if_all_unnamed, default_beyond_perception_installations,
    default_project_name, is_missing_wav, is_wav_file_name, next_available_speaker_channel,
    next_installation_id, next_source_id, next_speaker_id, project_config_path,
    project_directory_path, project_slug, project_state_path, projects_directory,
    remove_invalid_soloed, update_path_from_relative,
};
use audio_server::{source, speaker};

#[test]
fn test_update_path_from_relative() {
    let path = "/foo/bar/baz/qux";
    let relative = "/flim/baz";
    let expected = "/flim/baz/qux";
    assert_eq!(
        update_path_from_relative(path, relative),
        Some(String::from(expected))
    );
}

#[test]
fn update_path_without_shared_component_is_none() {
    assert_eq!(update_path_from_relative("/foo/bar/qux", "/flim/baz"), None);
}

#[test]
fn update_path_keeps_the_first_match() {
    assert_eq!(
        update_path_from_relative("/a/audio/x/audio/y.wav", "/new/audio"),
        Some(String::from("/new/audio/x/audio/y.wav"))
    );
}

#[test]
fn default_project_name_and_slug() {
    assert_eq!(default_project_name(), "My Project");
    assert_eq!(project_slug(), "my-project");
}

#[test]
fn project_file_paths() {
    assert_eq!(projects_directory("assets"), "assets/projects");
    assert_eq!(
        project_directory_path("assets", "My Project"),
        "assets/projects/my-project"
    );
    assert_eq!(project_config_path("assets/projects/x"), "assets/projects/x/config.json");
    assert_eq!(project_state_path("assets/projects/x"), "assets/projects/x/state.json");
}

#[test]
fn next_ids_follow_the_greatest() {
    assert_eq!(next_installation_id(&[]), installation::Id(1));
    assert_eq!(
        next_installation_id(&[installation::Id(2), installation::Id(7), installation::Id(0)]),
        installation::Id(8)
    );
    assert_eq!(next_speaker_id(&[speaker::Id(4), speaker::Id(1)]), speaker::Id(5));
    assert_eq!(next_source_id(&[]), source::Id(1));
    assert_eq!(next_source_id(&[source::Id(9)]), source::Id(10));
}

#[test]
fn next_available_speaker_channel_is_the_least_unused() {
    assert_eq!(next_available_speaker_channel(&[]), 0);
    assert_eq!(next_available_speaker_channel(&[1, 0, 3]), 2);
    assert_eq!(next_available_speaker_channel(&[2, 5]), 0);
    assert_eq!(next_available_speaker_channel(&[0, 1, 2]), 3);
}

#[test]
fn remove_invalid_soloed_keeps_existing_sources_in_order() {
    let mut soloed = vec![source::Id(1), source::Id(2), source::Id(3), source::Id(5)];
    remove_invalid_soloed(&mut soloed, &[source::Id(3), source::Id(1)]);
    assert_eq!(soloed, vec![source::Id(1), source::Id(3)]);
}

#[test]
fn default_installations_follow_beyond_perception() {
    let installations = default_beyond_perception_installations();
    assert_eq!(installations.len(), 9);
    assert_eq!(installations[0].0, installation::Id(0));
    assert_eq!(installations[0].1.name, "Waves At Work");
    assert!(installations[0].1.computers.is_empty());
    let (id, mapping) = &installations[3];
    assert_eq!(*id, installation::Id(3));
    assert_eq!(mapping.name, "Energetic Vibrations - Projection Mapping");
    assert_eq!(mapping.computers.len(), 3);
    for (i, (computer, address)) in mapping.computers.iter().enumerate() {
        assert_eq!(computer.0, i);
        assert_eq!(address.socket.ip, [127, 0, 0, 1]);
        assert_eq!(address.socket.port, 9002);
        assert_eq!(address.osc_addr, "/energetic-vibrations-projection-mapping");
    }
    assert_eq!(installations[8].1.name, "Turret 2");
    assert_eq!(installations[8].1.soundscape.simultaneous_sounds.min, 1);
    assert_eq!(installations[8].1.soundscape.simultaneous_sounds.max, 8);
}

#[test]
fn auto_naming_applies_only_when_all_are_unnamed() {
    let mut installations = vec![
        (installation::Id(0), Installation::default()),
        (installation::Id(4), Installation::default()),
        (installation::Id(12), Installation::default()),
    ];
    assert!(auto_name_installations_if_all_unnamed(&mut installations));
    assert_eq!(installations[0].1.name, "Waves At Work");
    assert_eq!(installations[1].1.name, "Turbulent Encounters");
    assert_eq!(installations[2].1.name, "<unnamed>");

    // Nothing to rename: no name changes, so nothing is reported.
    let mut empty: Vec<(installation::Id, Installation)> = vec![];
    assert!(!auto_name_installations_if_all_unnamed(&mut empty));
    let mut unknown = vec![(installation::Id(9), Installation::default())];
    assert!(!auto_name_installations_if_all_unnamed(&mut unknown));
    assert_eq!(unknown[0].1.name, "<unnamed>");

    let mut named = vec![
        (installation::Id(0), Installation::default()),
        (installation::Id(1), Installation::default()),
    ];
    named[1].1.name = String::from("Lobby");
    assert!(!auto_name_installations_if_all_unnamed(&mut named));
    assert_eq!(named[0].1.name, "<unnamed>");
    assert_eq!(named[1].1.name, "Lobby");
}

#[test]
fn wav_file_names() {
    assert!(is_wav_file_name("rain.wav"));
    assert!(is_wav_file_name("rain.WAVE"));
    assert!(is_wav_file_name("a.b.WaV"));
    assert!(!is_wav_file_name(".hidden.wav"));
    assert!(!is_wav_file_name("song.mp3"));
    assert!(!is_wav_file_name("wav"));
    assert!(!is_wav_file_name("rain.wavs"));
    assert!(!is_wav_file_name(""));
}

#[test]
fn missing_wavs_are_new_wav_files() {
    let existing = vec![String::from("/audio/rain.wav")];
    assert!(!is_missing_wav(&existing, "rain.wav", "/audio/rain.wav"));
    assert!(is_missing_wav(&existing, "wind.wav", "/audio/wind.wav"));
    assert!(!is_missing_wav(&existing, "notes.txt", "/audio/notes.txt"));
}

#[test]
fn first_free_project_name_skips_existing_slugs() {
    assert_eq!(first_free_project_name(&vec![]), Some("My Project 1".to_string()));
    let existing = vec!["my-project-1".to_string(), "other".to_string(), "my-project-2".to_string()];
    assert_eq!(first_free_project_name(&existing), Some("My Project 3".to_string()));
    let gap = vec!["my-project-2".to_string()];
    assert_eq!(first_free_project_name(&gap), Some("My Project 1".to_string()));
    let many: Vec<String> = (1..=11).map(|i| format!("my-project-{}", i)).collect();
    assert_eq!(first_free_project_name(&many), Some("My Project 12".to_string()));
}

#[test]
fn sync_messages_follow_the_project_in_order() {
    let mut inst = Installation::default();
    inst.computers = vec![
        (computer::Id(0), address()),
        (computer::Id(3), address()),
    ];
    let installations = vec![(installation::Id(2), inst), (installation::Id(5), Installation::default())];
    let sources = [
        SourceSync { id: source::Id(1), realtime: true, soundscape: true },
        SourceSync { id: source::Id(4), realtime: false, soundscape: true },
        SourceSync { id: source::Id(6), realtime: false, soundscape: false },
    ];
    let msgs = sync_messages(&installations, &[9], &[speaker::Id(7)], &sources);
    assert_eq!(
        msgs,
        vec![
            SyncMessage::ClearSoundscape,
            SyncMessage::ClearAudioInput,
            SyncMessage::ClearAudioOutput,
            SyncMessage::ClearOscOutput,
            SyncMessage::MasterToAudioOutput,
            SyncMessage::LatencyToSoundscape,
            SyncMessage::InstallationToSoundscape(installation::Id(2)),
            SyncMessage::OscAddTarget(installation::Id(2), computer::Id(0)),
            SyncMessage::OscAddTarget(installation::Id(2), computer::Id(3)),
            SyncMessage::InstallationToAudioOutput(installation::Id(2), 2),
            SyncMessage::InstallationToSoundscape(installation::Id(5)),
            SyncMessage::InstallationToAudioOutput(installation::Id(5), 0),
            SyncMessage::GroupToSoundscape(9),
            SyncMessage::SpeakerToAudioOutput(speaker::Id(7)),
            SyncMessage::SpeakerToSoundscape(speaker::Id(7)),
            SyncMessage::RealtimeSourceToAudioInput(source::Id(1)),
            SyncMessage::SourceToSoundscape(source::Id(1)),
            SyncMessage::SourceToSoundscape(source::Id(4)),
        ]
    );
}

fn address() -> computer::Address {
    computer::Address {
        socket: computer::SocketAddrV4 { ip: [127, 0, 0, 1], port: 9002 },
        osc_addr: "/a".to_string(),
    }
}
