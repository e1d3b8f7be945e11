use audio_server::installation::{
    self, beyond_perception_default_num_computers, beyond_perception_names, name, name_string,
    osc_addr_string, parse_usize, simultaneous_sounds, Installation, Soundscape,
};

#[test]
fn beyond_perception_names_by_index() {
    assert_eq!(beyond_perception_names(0), Some("Waves At Work"));
    assert_eq!(beyond_perception_names(5), Some("Cacophony"));
    assert_eq!(beyond_perception_names(8), Some("Turret 2"));
    assert_eq!(beyond_perception_names(9), None);
}

#[test]
fn default_number_of_computers() {
    assert_eq!(
        beyond_perception_default_num_computers("Energetic Vibrations - Projection Mapping"),
        Some(3)
    );
    assert_eq!(beyond_perception_default_num_computers("Cacophony"), Some(0));
    assert_eq!(beyond_perception_default_num_computers("Somewhere Else"), None);
}

#[test]
fn osc_addresses_are_slugs() {
    assert_eq!(osc_addr_string("Waves At Work"), "/waves-at-work");
    assert_eq!(osc_addr_string("Turret 1"), "/turret-1");
}

#[test]
fn unnamed_installations() {
    assert_eq!(name(), "<unnamed>");
    assert_eq!(name_string(), "<unnamed>");
    let inst = Installation::default();
    assert_eq!(inst.name, "<unnamed>");
    assert!(inst.computers.is_empty());
    assert_eq!(simultaneous_sounds().min, 1);
    assert_eq!(simultaneous_sounds().max, 8);
    assert_eq!(Soundscape::default().simultaneous_sounds, simultaneous_sounds());
}

#[test]
fn installation_ids_from_strings() {
    assert_eq!(installation::Id::from_string("WavesAtWork"), Some(installation::Id(0)));
    assert_eq!(installation::Id::from_string("Turret2"), Some(installation::Id(8)));
    assert_eq!(installation::Id::from_string("42"), Some(installation::Id(42)));
    assert_eq!(installation::Id::from_string("+7"), Some(installation::Id(7)));
    assert_eq!(installation::Id::from_string("Lobby"), None);
    assert_eq!(installation::Id::from_string(""), None);
}

#[test]
fn decimal_parsing() {
    assert_eq!(parse_usize("0"), Some(0));
    assert_eq!(parse_usize("1234"), Some(1234));
    assert_eq!(parse_usize("+"), None);
    assert_eq!(parse_usize("-1"), None);
    assert_eq!(parse_usize("12a"), None);
    assert_eq!(parse_usize("99999999999999999999999"), None);
}
