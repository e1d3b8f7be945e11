use audio_server::log::Log;

#[test]
fn log_keeps_the_newest_messages() {
    let mut log: Log<u32> = Log::with_limit(3);
    assert_eq!(log.len(), 0);
    for m in 1..=5u32 {
        log.push_msg(m);
    }
    assert_eq!(log.len(), 3);
    assert_eq!(log.start_index(), 2);
    let kept: Vec<u32> = log.messages().iter().cloned().collect();
    assert_eq!(kept, vec![5, 4, 3]);
    assert_eq!(log.entry_number(0), 5);
    assert_eq!(log.entry_number(2), 3);
}

#[test]
fn log_without_room_keeps_nothing() {
    let mut log: Log<&str> = Log::with_limit(0);
    log.push_msg("a");
    log.push_msg("b");
    assert_eq!(log.len(), 0);
    assert_eq!(log.start_index(), 2);
}
