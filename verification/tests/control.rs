use audio_server::control::{apply_control, ControlAction, SourceVolumes};
use audio_server::osc::{Control, MasterVolume, SourceVolume};
use audio_server::source;

fn volumes() -> SourceVolumes {
    vec![
        (source::Id(3), "rain".to_string(), 0.6f32.to_bits()),
        (source::Id(7), "wind".to_string(), 0.6f32.to_bits()),
        (source::Id(9), "wind".to_string(), 0.6f32.to_bits()),
    ]
}

#[test]
fn master_volume_is_set() {
    let mut sources = volumes();
    let mut master = 0.5f32.to_bits();
    let control = Control::MasterVolume(MasterVolume(0.25f32.to_bits()));
    let action = apply_control(&mut sources, &mut master, &control);
    assert_eq!(action, ControlAction::SetMasterVolume(0.25f32.to_bits()));
    assert_eq!(master, 0.25f32.to_bits());
    assert_eq!(sources, volumes());
}

#[test]
fn source_volume_goes_to_the_first_source_of_that_name() {
    let mut sources = volumes();
    let mut master = 0.5f32.to_bits();
    let control = Control::SourceVolume(SourceVolume { name: "wind".to_string(), volume: 0.9f32.to_bits() });
    let action = apply_control(&mut sources, &mut master, &control);
    assert_eq!(action, ControlAction::SetSourceVolume(source::Id(7), 0.9f32.to_bits()));
    assert_eq!(sources[0].2, 0.6f32.to_bits());
    assert_eq!(sources[1], (source::Id(7), "wind".to_string(), 0.9f32.to_bits()));
    assert_eq!(sources[2].2, 0.6f32.to_bits());
    assert_eq!(master, 0.5f32.to_bits());
}

#[test]
fn source_volume_for_an_unknown_name_is_ignored() {
    let mut sources = volumes();
    let mut master = 0.5f32.to_bits();
    let control = Control::SourceVolume(SourceVolume { name: "sea".to_string(), volume: 0.1f32.to_bits() });
    assert_eq!(apply_control(&mut sources, &mut master, &control), ControlAction::Ignore);
    assert_eq!(sources, volumes());
    assert_eq!(master, 0.5f32.to_bits());
}

#[test]
fn play_and_pause_go_to_the_soundscape() {
    let mut sources = volumes();
    let mut master = 0.5f32.to_bits();
    assert_eq!(apply_control(&mut sources, &mut master, &Control::PlaySoundscape), ControlAction::PlaySoundscape);
    assert_eq!(apply_control(&mut sources, &mut master, &Control::PauseSoundscape), ControlAction::PauseSoundscape);
    assert_eq!(sources, volumes());
    assert_eq!(master, 0.5f32.to_bits());
}
