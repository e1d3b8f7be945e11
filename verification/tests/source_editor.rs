use audio_server::source_editor::{compare_names, source_display_order, ListedKind};
use std::cmp::Ordering;

#[test]
fn wav_sources_are_listed_before_realtime_ones() {
    assert_eq!(source_display_order(ListedKind::Wav, "b", ListedKind::Realtime, "a"), Ordering::Less);
    // Any other pair is ordered by name.
    assert_eq!(source_display_order(ListedKind::Realtime, "a", ListedKind::Wav, "b"), Ordering::Less);
    assert_eq!(source_display_order(ListedKind::Wav, "rain", ListedKind::Wav, "rain"), Ordering::Equal);
    assert_eq!(source_display_order(ListedKind::Realtime, "mic 2", ListedKind::Realtime, "mic 1"), Ordering::Greater);
}

#[test]
fn names_compare_like_strings() {
    let names = ["", "a", "ab", "abc", "b", "B", "é", "z", "Zed", "ab c"];
    for x in names.iter() {
        for y in names.iter() {
            assert_eq!(compare_names(x, y), x.cmp(y), "{} vs {}", x, y);
        }
    }
}
