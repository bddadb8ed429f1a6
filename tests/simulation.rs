use evolution_sim::simulation::{GenerationClock, GENERATION_LENGTH};

#[test]
fn clock_ends_generation_on_step_2501() {
    let mut clock = GenerationClock::new();
    for step in 1..=2500 {
        assert!(!clock.tick(), "step {}", step);
    }
    assert!(clock.tick());
    assert_eq!(clock.age(), 0);
    for _ in 0..2500 {
        assert!(!clock.tick());
    }
    assert!(clock.tick());
    assert_eq!(GENERATION_LENGTH, 2500);
}

#[test]
fn clock_counts_age() {
    let mut clock = GenerationClock::new();
    assert_eq!(clock.age(), 0);
    clock.tick();
    clock.tick();
    assert_eq!(clock.age(), 2);
}
