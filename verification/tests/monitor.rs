use dining_philosophers::monitor::{time_is_left, Inbox, Monitor, Verdict};
use dining_philosophers::{PhilosopherState, StateMsg};

#[test]
fn a_new_monitor_has_counted_nothing() {
    let monitor = Monitor::new(5);
    assert_eq!(monitor.seats(), 5);
    for id in 1..=5 {
        assert_eq!(monitor.meals_eaten(id), 0);
    }
    assert_eq!(monitor.total_meals(), 0);
    assert_eq!(Monitor::new(0).total_meals(), 0);
}

#[test]
fn meals_are_counted_by_seat() {
    let mut monitor = Monitor::new(5);
    let eats = |id| Inbox::Message(StateMsg { id, state: PhilosopherState::Eating });
    assert_eq!(monitor.record(eats(1)), Verdict::Continue);
    assert_eq!(monitor.record(eats(5)), Verdict::Continue);
    assert_eq!(monitor.record(eats(5)), Verdict::Continue);
    assert_eq!(monitor.record(eats(3)), Verdict::Continue);
    assert_eq!(monitor.meals_eaten(1), 1);
    assert_eq!(monitor.meals_eaten(2), 0);
    assert_eq!(monitor.meals_eaten(3), 1);
    assert_eq!(monitor.meals_eaten(4), 0);
    assert_eq!(monitor.meals_eaten(5), 2);
    assert_eq!(monitor.total_meals(), 4);
}

#[test]
fn a_death_ends_the_run_and_names_the_seat() {
    let mut monitor = Monitor::new(5);
    let verdict = monitor.record(Inbox::Message(StateMsg { id: 4, state: PhilosopherState::Dead }));
    assert_eq!(verdict, Verdict::Starved(4));
    assert_eq!(monitor.total_meals(), 0);
}

#[test]
fn other_states_count_for_nothing() {
    let mut monitor = Monitor::new(2);
    let thinking = Inbox::Message(StateMsg { id: 1, state: PhilosopherState::Thinking });
    let hungry = Inbox::Message(StateMsg { id: 2, state: PhilosopherState::Hungry(3) });
    assert_eq!(monitor.record(thinking), Verdict::Continue);
    assert_eq!(monitor.record(hungry), Verdict::Continue);
    assert_eq!(monitor.record(Inbox::Empty), Verdict::Continue);
    assert_eq!(monitor.total_meals(), 0);
}

#[test]
fn lost_philosophers_end_the_run() {
    let mut monitor = Monitor::new(2);
    assert_eq!(monitor.record(Inbox::Disconnected), Verdict::Disconnected);
    assert_eq!(monitor.total_meals(), 0);
}

#[test]
fn the_total_does_not_overflow_a_count() {
    let mut monitor = Monitor::new(3);
    for _ in 0..1_000 {
        for id in 1..=3 {
            monitor.record(Inbox::Message(StateMsg { id, state: PhilosopherState::Eating }));
        }
    }
    assert_eq!(monitor.meals_eaten(2), 1_000);
    assert_eq!(monitor.total_meals(), 3_000);
}

#[test]
fn the_run_lasts_ten_seconds() {
    assert!(time_is_left(0));
    assert!(time_is_left(9));
    assert!(!time_is_left(10));
    assert!(!time_is_left(11));
    assert!(!time_is_left(u64::MAX));
}
