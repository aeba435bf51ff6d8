use dining_philosophers::{
    duration_from, report, two_forks, Diner, PhilosopherState, StateMsg, HUNGER_THRESHOLD_MILLIS,
    MAX_DURATION_MILLIS, MIN_DURATION_MILLIS, N_PHILOSOPHERS, RUN_TIME_SECONDS,
};

#[test]
fn constants_are_as_documented() {
    assert_eq!(N_PHILOSOPHERS, 5);
    assert_eq!(MAX_DURATION_MILLIS, 10);
    assert_eq!(MIN_DURATION_MILLIS, 1);
    assert_eq!(HUNGER_THRESHOLD_MILLIS, 100);
    assert_eq!(RUN_TIME_SECONDS, 10);
}

#[test]
fn thinking_ends_in_hunger() {
    assert_eq!(PhilosopherState::Thinking.think(7), PhilosopherState::Hungry(7));
    assert_eq!(PhilosopherState::Eating.think(42), PhilosopherState::Hungry(42));
}

#[test]
fn thinking_again_does_not_reset_hunger() {
    assert_eq!(PhilosopherState::Hungry(3).think(9), PhilosopherState::Hungry(3));
}

#[test]
fn the_dead_do_not_think() {
    assert_eq!(PhilosopherState::Dead.think(9), PhilosopherState::Dead);
    assert_eq!(PhilosopherState::Dead.attempt(true, 9), PhilosopherState::Dead);
    assert_eq!(PhilosopherState::Dead.rest(), PhilosopherState::Dead);
}

#[test]
fn a_meal_ends_in_thinking() {
    assert_eq!(PhilosopherState::Eating.rest(), PhilosopherState::Thinking);
    assert_eq!(PhilosopherState::Hungry(5).rest(), PhilosopherState::Hungry(5));
    assert_eq!(PhilosopherState::Thinking.rest(), PhilosopherState::Thinking);
}

#[test]
fn success_means_eating_however_late() {
    assert_eq!(PhilosopherState::Hungry(5).attempt(true, 6), PhilosopherState::Eating);
    assert_eq!(PhilosopherState::Hungry(5).attempt(true, 5_000), PhilosopherState::Eating);
}

#[test]
fn failure_within_threshold_keeps_the_timestamp() {
    assert_eq!(PhilosopherState::Hungry(5).attempt(false, 5), PhilosopherState::Hungry(5));
    assert_eq!(PhilosopherState::Hungry(5).attempt(false, 105), PhilosopherState::Hungry(5));
}

#[test]
fn failure_past_threshold_is_death() {
    assert_eq!(PhilosopherState::Hungry(5).attempt(false, 106), PhilosopherState::Dead);
}

#[test]
fn only_the_hungry_attempt() {
    assert_eq!(PhilosopherState::Thinking.attempt(true, 1), PhilosopherState::Thinking);
    assert_eq!(PhilosopherState::Eating.attempt(false, 1_000), PhilosopherState::Eating);
}

#[test]
fn starvation_is_strictly_past_the_threshold() {
    assert!(!PhilosopherState::Hungry(0).has_starved(100));
    assert!(PhilosopherState::Hungry(0).has_starved(101));
    assert!(!PhilosopherState::Hungry(50).has_starved(150));
    assert!(PhilosopherState::Hungry(50).has_starved(151));
    assert!(PhilosopherState::Hungry(u64::MAX - 101).has_starved(u64::MAX));
}

#[test]
fn a_clock_that_ran_backwards_starves_nobody() {
    assert!(!PhilosopherState::Hungry(500).has_starved(3));
}

#[test]
fn only_the_hungry_starve() {
    assert!(!PhilosopherState::Thinking.has_starved(u64::MAX));
    assert!(!PhilosopherState::Eating.has_starved(u64::MAX));
    assert!(!PhilosopherState::Dead.has_starved(u64::MAX));
}

#[test]
fn failed_attempts_never_move_the_timestamp() {
    let mut state = PhilosopherState::Thinking.think(17);
    let mut now = 17;
    while now <= 117 {
        state = state.attempt(false, now);
        assert_eq!(state, PhilosopherState::Hungry(17));
        state = state.think(now);
        assert_eq!(state, PhilosopherState::Hungry(17));
        now += 1;
    }
    assert_eq!(state.attempt(false, 118), PhilosopherState::Dead);
}

#[test]
fn a_new_hunger_has_a_new_timestamp() {
    let state = PhilosopherState::Hungry(17).attempt(true, 30).rest().think(55);
    assert_eq!(state, PhilosopherState::Hungry(55));
}

#[test]
fn reports_only_meals_and_deaths() {
    let hungry = PhilosopherState::Hungry(1);
    assert_eq!(
        report(3, hungry, PhilosopherState::Eating),
        Some(StateMsg { id: 3, state: PhilosopherState::Eating })
    );
    assert_eq!(
        report(4, hungry, PhilosopherState::Dead),
        Some(StateMsg { id: 4, state: PhilosopherState::Dead })
    );
    assert_eq!(report(3, hungry, hungry), None);
    assert_eq!(report(3, PhilosopherState::Thinking, hungry), None);
    assert_eq!(report(3, PhilosopherState::Eating, PhilosopherState::Eating), None);
    assert_eq!(report(3, PhilosopherState::Dead, PhilosopherState::Dead), None);
    assert_eq!(report(3, PhilosopherState::Eating, PhilosopherState::Thinking), None);
}

#[test]
fn fixed_durations_are_the_maximum() {
    assert_eq!(duration_from(false, 3), 10);
    assert_eq!(duration_from(false, 0), 10);
    assert_eq!(two_forks::Philosopher::generate_duration(false), 10);
}

#[test]
fn random_durations_are_what_was_drawn() {
    assert_eq!(duration_from(true, 3), 3);
    assert_eq!(duration_from(true, 9), 9);
}

#[test]
fn random_durations_lie_in_the_range_and_vary() {
    let mut seen = [false; 10];
    for _ in 0..2_000 {
        let millis = two_forks::Philosopher::generate_duration(true);
        assert!(millis >= 1, "drew {millis}");
        assert!(millis < 10, "drew {millis}");
        seen[millis as usize] = true;
    }
    let distinct = seen.iter().filter(|hit| **hit).count();
    assert!(distinct >= 2, "every draw gave the same number");
}

#[test]
fn a_philosopher_sleeps_as_its_mode_says() {
    let fixed = two_forks::Philosopher::new(1, 0, 1, false);
    assert_eq!(fixed.sleep(), 10);
    let random = two_forks::Philosopher::new(1, 0, 1, true);
    for _ in 0..200 {
        let millis = random.sleep();
        assert!((1..10).contains(&millis));
    }
}
