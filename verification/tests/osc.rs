use audio_server::osc::{
    parse_bp, parse_master_volume, parse_pause_soundscape, parse_play_soundscape,
    parse_source_volume, clamp_unit, Control, MasterVolume, OscArg, OscMessage, SourceVolume,
};

fn message(addr: &str, args: Option<Vec<OscArg>>) -> OscMessage {
    OscMessage { addr: String::from(addr), args }
}

#[test]
fn address_parts() {
    assert_eq!(parse_bp("/bp/master_volume"), Some("/master_volume"));
    assert_eq!(parse_bp("/xp/master_volume"), None);
    assert_eq!(parse_source_volume("/source_volume/rain"), Some("/rain"));
    assert_eq!(parse_source_volume("/volume"), None);
    assert!(parse_master_volume("/master_volume"));
    assert!(!parse_master_volume("/master_volume2"));
    assert!(parse_play_soundscape("/play_soundscape"));
    assert!(parse_pause_soundscape("/pause_soundscape"));
    assert!(!parse_pause_soundscape("/play_soundscape"));
}

#[test]
fn master_volume_control() {
    let msg = message("/bp/master_volume", Some(vec![OscArg::Float(0.5f32.to_bits())]));
    assert_eq!(
        Control::from_osc_msg(&msg),
        Some(Control::MasterVolume(MasterVolume(0.5f32.to_bits())))
    );
    let no_float = message("/bp/master_volume", Some(vec![OscArg::Int(1)]));
    assert_eq!(Control::from_osc_msg(&no_float), None);
}

#[test]
fn source_volume_control() {
    let msg = message("/bp/source_volume/rain", Some(vec![OscArg::Float(0.25f32.to_bits())]));
    assert_eq!(
        Control::from_osc_msg(&msg),
        Some(Control::SourceVolume(SourceVolume {
            name: String::from("rain"),
            volume: 0.25f32.to_bits(),
        }))
    );
    let without_args = message("/bp/source_volume/rain", None);
    assert_eq!(Control::from_osc_msg(&without_args), None);
    let without_slash = message("/bp/source_volumerain", Some(vec![OscArg::Float(0)]));
    assert_eq!(Control::from_osc_msg(&without_slash), None);
}

#[test]
fn soundscape_controls() {
    assert_eq!(
        Control::from_osc_msg(&message("/bp/play_soundscape", None)),
        Some(Control::PlaySoundscape)
    );
    assert_eq!(
        Control::from_osc_msg(&message("/bp/pause_soundscape", Some(vec![]))),
        Some(Control::PauseSoundscape)
    );
    assert_eq!(Control::from_osc_msg(&message("/play_soundscape", None)), None);
    assert_eq!(Control::from_osc_msg(&message("/bp/unknown", None)), None);
}

#[test]
fn master_volume_is_clamped_to_unit_range() {
    let master = |v: u32| {
        let msg = OscMessage { addr: "/bp/master_volume".into(), args: Some(vec![OscArg::Float(v)]) };
        match Control::from_osc_msg(&msg) {
            Some(Control::MasterVolume(MasterVolume(bits))) => f32::from_bits(bits),
            other => panic!("not a master volume: {:?}", other),
        }
    };
    assert_eq!(master(1.5f32.to_bits()), 1.0);
    assert_eq!(master((-0.25f32).to_bits()), 0.0);
    assert_eq!(master(f32::NAN.to_bits()), 1.0);
    assert_eq!(master(f32::INFINITY.to_bits()), 1.0);
    assert_eq!(master(f32::NEG_INFINITY.to_bits()), 0.0);
    assert_eq!(master(0.75f32.to_bits()), 0.75);
    assert_eq!(master(1.0f32.to_bits()), 1.0);
    assert_eq!(clamp_unit(0.0f32.to_bits()), 0);
    assert_eq!(clamp_unit((-0.0f32).to_bits()), 0);
}
