use audio_server::interaction::{from_osc, CosmicWave, Interaction, TurbulentEncounters};
use audio_server::osc::{OscArg, OscMessage};

#[test]
fn test_from_osc() {
    // Test Cosmic Wave touch.
    let a = OscMessage {
        addr: "/bp/cw".into(),
        args: Some(vec![
            OscArg::Int(2),
            OscArg::Int(4),
            OscArg::Float(0.1f32.to_bits()),
            OscArg::Float(0.2f32.to_bits()),
            OscArg::Float(0.3f32.to_bits()),
        ]),
    };
    let a_expected = Interaction::CosmicWave(CosmicWave::Touch {
        screen_id: 2,
        id: 4,
        x: 0.1f32.to_bits(),
        y: 0.2f32.to_bits(),
        z: 0.3f32.to_bits(),
    });
    assert_eq!(from_osc(&a), Some(a_expected));

    // Test invalid message == None.
    let b = OscMessage {
        addr: "/bp/cw".into(),
        args: None,
    };
    assert_eq!(from_osc(&b), None);

    // Test Turbulent Encounters Rotary Dial.
    let c = OscMessage {
        addr: "/bp/te".into(),
        args: Some(vec![OscArg::Int(0), OscArg::Float(0.66f32.to_bits())]),
    };
    let c_expected = Interaction::TurbulentEncounters(TurbulentEncounters::RotaryEncoder {
        id: 0,
        value: 0.66f32.to_bits(),
    });
    assert_eq!(from_osc(&c), Some(c_expected));
}

#[test]
fn interactions_need_the_bp_prefix_and_known_installations() {
    let a = OscMessage {
        addr: "/cw".into(),
        args: Some(vec![OscArg::Int(0), OscArg::Float(0)]),
    };
    assert_eq!(from_osc(&a), None);
    let b = OscMessage {
        addr: "/bp/xx".into(),
        args: Some(vec![OscArg::Int(0), OscArg::Float(0)]),
    };
    assert_eq!(from_osc(&b), None);
    let c = OscMessage {
        addr: "/bp/te".into(),
        args: Some(vec![OscArg::Float(0), OscArg::Int(0)]),
    };
    assert_eq!(from_osc(&c), None);
}

#[test]
fn reaction_trigger_is_not_parsed() {
    // No reaction exists to be named, so the trigger cannot be parsed.
    let msg = OscMessage { addr: "/bp/cw".into(), args: Some(vec![OscArg::Int(0)]) };
    assert_eq!(from_osc(&msg), None);
    // An address that cannot be split after "/bp/" is not parsed either.
    let short = OscMessage { addr: "/bp".into(), args: Some(vec![OscArg::Int(0)]) };
    assert_eq!(from_osc(&short), None);
}
