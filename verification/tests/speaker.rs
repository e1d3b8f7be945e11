use audio_server::installation;
use audio_server::speaker::{self, dbap_weight, sorted_speakers_vec, Installations, SourceRole, SpeakerEditor};

#[test]
fn speakers_are_listed_by_id() {
    let ids = [speaker::Id(5), speaker::Id(1), speaker::Id(3), speaker::Id(1)];
    assert_eq!(
        sorted_speakers_vec(&ids),
        vec![speaker::Id(1), speaker::Id(1), speaker::Id(3), speaker::Id(5)]
    );
    assert!(sorted_speakers_vec(&[]).is_empty());
}

#[test]
fn dbap_weights_follow_shared_installations() {
    let speaker_installations = [installation::Id(1), installation::Id(2)];
    assert_eq!(dbap_weight(&Installations::All, &speaker_installations), 1);
    assert_eq!(dbap_weight(&Installations::All, &[]), 1);
    let selected = Installations::Selected(vec![installation::Id(2)]);
    assert_eq!(dbap_weight(&selected, &speaker_installations), 1);
    let other = Installations::Selected(vec![installation::Id(7)]);
    assert_eq!(dbap_weight(&other, &speaker_installations), 0);
    assert_eq!(dbap_weight(&Installations::Selected(vec![]), &speaker_installations), 0);
}

#[test]
fn speaker_editor_starts_without_selection() {
    assert_eq!(SpeakerEditor::default().selected, None);
}

#[test]
fn soundscape_sources_play_in_their_installations() {
    let set = vec![installation::Id(3)];
    assert_eq!(
        Installations::from_role(Some(SourceRole::Soundscape(set.clone()))),
        Installations::Selected(set)
    );
    assert_eq!(Installations::from_role(Some(SourceRole::Interactive)), Installations::All);
    assert_eq!(Installations::from_role(Some(SourceRole::Scribbles)), Installations::All);
    assert_eq!(Installations::from_role(None), Installations::All);
}
