use audio_server::text::{skip_chars, starts_with, str_eq};

#[test]
fn text_helpers() {
    assert!(str_eq("abc", "abc"));
    assert!(!str_eq("abc", "abd"));
    assert!(!str_eq("abc", "ab"));
    assert!(starts_with("/bp/cw", "/bp/"));
    assert!(!starts_with("/b", "/bp/"));
    assert_eq!(skip_chars("/bp/cw", 4), "cw");
    assert_eq!(skip_chars("héllo", 2), "llo");
}
