use audio_server::fast_wave::{BufferID, Registry, SampleBudget};

#[test]
fn refills_are_requested_below_three_quarters() {
    let mut budget = SampleBudget::new(8);
    // Eight samples with a threshold of six: the third sample drops below it.
    assert!(!budget.take_sample());
    assert!(!budget.take_sample());
    assert!(budget.take_sample());
    // Now eight more are on their way: thirteen are counted, seven samples until the next.
    let mut taken = 0;
    while !budget.take_sample() {
        taken += 1;
    }
    assert_eq!(taken, 7);
}

#[test]
fn registered_buffers_get_consecutive_ids() {
    let mut registry: Registry<&str> = Registry::new();
    assert_eq!(registry.register("a.wav"), BufferID(0));
    assert_eq!(registry.register("b.wav"), BufferID(1));
    assert_eq!(registry.get(BufferID(1)), Some(&"b.wav"));
    assert_eq!(registry.destroy(BufferID(0)), Some("a.wav"));
    assert_eq!(registry.destroy(BufferID(0)), None);
    assert_eq!(registry.register("c.wav"), BufferID(2));
    assert!(registry.get(BufferID(0)).is_none());
}
