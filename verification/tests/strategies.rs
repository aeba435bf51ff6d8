use dining_philosophers::table::{Plan, Table};
use dining_philosophers::{
    break_symmetry, resource_hierarchy, sequential, two_forks, Diner, PhilosopherState, StateMsg,
};

#[test]
fn a_new_philosopher_thinks() {
    let philosopher = two_forks::Philosopher::new(3, 2, 3, true);
    assert_eq!(philosopher.current_state(), PhilosopherState::Thinking);
    assert_eq!(philosopher.seat(), 3);
    assert!(philosopher.is_random());
    assert!(!philosopher.waits_for_forks());
    assert_eq!(
        philosopher.send_state(),
        StateMsg { id: 3, state: PhilosopherState::Thinking }
    );
}

#[test]
fn retry_both_reaches_left_then_right_without_waiting() {
    let philosopher = two_forks::Philosopher::new(5, 4, 0, false);
    assert_eq!(philosopher.forks(), Plan { seat: 5, first: 4, second: 0 });
    assert!(!philosopher.waits_for_forks());
}

#[test]
fn strict_order_reaches_for_the_lower_fork_first() {
    let last = resource_hierarchy::Philosopher::new(5, 4, 0, false);
    assert_eq!(last.forks(), Plan { seat: 5, first: 0, second: 4 });
    let first = resource_hierarchy::Philosopher::new(1, 0, 1, false);
    assert_eq!(first.forks(), Plan { seat: 1, first: 0, second: 1 });
    assert!(last.waits_for_forks());
}

#[test]
fn handedness_decides_the_first_fork() {
    let left = break_symmetry::Philosopher::new(2, 1, 2, true, false);
    assert_eq!(left.forks(), Plan { seat: 2, first: 1, second: 2 });
    let right = break_symmetry::Philosopher::new(2, 1, 2, false, false);
    assert_eq!(right.forks(), Plan { seat: 2, first: 2, second: 1 });
    assert!(left.waits_for_forks());
}

#[test]
fn centralized_turn_reaches_left_then_right_without_waiting() {
    let philosopher = sequential::Philosopher::new(2, 1, 2, false);
    assert_eq!(philosopher.forks(), Plan { seat: 2, first: 1, second: 2 });
    assert!(!philosopher.waits_for_forks());
}

#[test]
fn seating_wires_the_ring() {
    let philosophers = two_forks::seat_philosophers(5, false);
    assert_eq!(philosophers.len(), 5);
    let expected = [(0, 1), (1, 2), (2, 3), (3, 4), (4, 0)];
    for (index, philosopher) in philosophers.iter().enumerate() {
        let (left, right) = expected[index];
        assert_eq!(philosopher.seat(), index + 1);
        assert_eq!(philosopher.forks(), Plan { seat: index + 1, first: left, second: right });
        assert_eq!(philosopher.current_state(), PhilosopherState::Thinking);
        assert!(!philosopher.is_random());
    }
    assert_eq!(two_forks::seat_philosophers(0, true).len(), 0);
}

#[test]
fn strict_order_seating_turns_the_last_seat_round() {
    let philosophers = resource_hierarchy::seat_philosophers(5, true);
    let expected = [(0, 1), (1, 2), (2, 3), (3, 4), (0, 4)];
    for (index, philosopher) in philosophers.iter().enumerate() {
        let (first, second) = expected[index];
        assert_eq!(philosopher.forks(), Plan { seat: index + 1, first, second });
        assert!(philosopher.is_random());
    }
}

#[test]
fn exactly_one_seat_reaches_right_first() {
    assert_eq!(break_symmetry::RIGHT_FIRST_SEAT, 1);
    for n in 2..9 {
        let philosophers = break_symmetry::seat_philosophers(n, false);
        let mut right_first = 0;
        for (index, philosopher) in philosophers.iter().enumerate() {
            let seat = index + 1;
            let left = seat - 1;
            let right = seat % n;
            let plan = philosopher.forks();
            if plan == (Plan { seat, first: right, second: left }) {
                right_first += 1;
                assert_eq!(seat, 1);
            } else {
                assert_eq!(plan, Plan { seat, first: left, second: right });
            }
        }
        assert_eq!(right_first, 1);
    }
}

#[test]
fn sequential_seating_wires_the_ring() {
    let philosophers = sequential::seat_philosophers(5, false);
    assert_eq!(philosophers[4].forks(), Plan { seat: 5, first: 4, second: 0 });
    assert_eq!(philosophers[0].forks(), Plan { seat: 1, first: 0, second: 1 });
}

#[test]
fn eating_is_reported_once() {
    let mut philosopher = two_forks::Philosopher::new(2, 1, 2, false);
    assert_eq!(philosopher.eat(true, 0), None);
    philosopher.think(10);
    assert_eq!(philosopher.current_state(), PhilosopherState::Hungry(10));
    assert_eq!(philosopher.eat(false, 20), None);
    assert_eq!(
        philosopher.eat(true, 30),
        Some(StateMsg { id: 2, state: PhilosopherState::Eating })
    );
    assert_eq!(philosopher.eat(true, 31), None);
    assert_eq!(philosopher.current_state(), PhilosopherState::Eating);
    philosopher.rest();
    assert_eq!(philosopher.current_state(), PhilosopherState::Thinking);
}

#[test]
fn death_is_reported_once_and_is_final() {
    let mut philosopher = resource_hierarchy::Philosopher::new(4, 3, 4, false);
    philosopher.think(1_000);
    assert!(!philosopher.has_starved_to_death(1_100));
    assert_eq!(philosopher.eat(false, 1_100), None);
    assert!(philosopher.has_starved_to_death(1_101));
    assert_eq!(
        philosopher.eat(false, 1_101),
        Some(StateMsg { id: 4, state: PhilosopherState::Dead })
    );
    assert_eq!(philosopher.eat(false, 1_200), None);
    assert_eq!(philosopher.eat(true, 1_200), None);
    philosopher.think(1_300);
    philosopher.rest();
    assert_eq!(philosopher.current_state(), PhilosopherState::Dead);
    assert!(!philosopher.has_starved_to_death(9_999));
}

#[test]
fn the_cycle_ends_with_death_or_the_kill_switch() {
    let mut philosopher = break_symmetry::Philosopher::new(1, 0, 1, false, false);
    assert!(philosopher.keeps_running(false));
    assert!(!philosopher.keeps_running(true));
    philosopher.think(0);
    assert!(philosopher.keeps_running(false));
    philosopher.eat(false, 500);
    assert_eq!(philosopher.current_state(), PhilosopherState::Dead);
    assert!(!philosopher.keeps_running(false));
    assert!(!philosopher.keeps_running(true));
}

#[test]
fn a_round_at_the_table_feeds_who_finds_both_forks() {
    let mut table = Table::new(5);
    let mut first = two_forks::Philosopher::new(1, 0, 1, false);
    let mut second = two_forks::Philosopher::new(2, 1, 2, false);
    // Who is not hungry does not touch the forks.
    assert_eq!(first.dine(&mut table, 0), None);
    assert_eq!(table.holder(0), None);
    first.think(7);
    second.think(8);
    assert_eq!(
        first.dine(&mut table, 20),
        Some(StateMsg { id: 1, state: PhilosopherState::Eating })
    );
    assert_eq!(table.holder(0), Some(1));
    assert_eq!(table.holder(1), Some(1));
    assert_eq!(second.dine(&mut table, 108), None);
    assert_eq!(second.current_state(), PhilosopherState::Hungry(8));
    assert_eq!(table.holder(2), None);
    first.rise(&mut table);
    assert_eq!(first.current_state(), PhilosopherState::Thinking);
    assert_eq!(table.holder(0), None);
    assert_eq!(table.holder(1), None);
    assert_eq!(
        second.dine(&mut table, 109),
        Some(StateMsg { id: 2, state: PhilosopherState::Eating })
    );
}

#[test]
fn who_dies_waiting_lets_go_of_its_fork() {
    let mut table = Table::new(5);
    let mut fourth = resource_hierarchy::Philosopher::new(4, 3, 4, false);
    let mut fifth = resource_hierarchy::Philosopher::new(5, 4, 0, false);
    fourth.think(0);
    fifth.think(0);
    assert_eq!(fourth.dine(&mut table, 1), None);
    assert_eq!(
        fourth.dine(&mut table, 2),
        Some(StateMsg { id: 4, state: PhilosopherState::Eating })
    );
    assert_eq!(fifth.dine(&mut table, 3), None);
    assert_eq!(table.holder(0), Some(5));
    assert_eq!(fifth.dine(&mut table, 100), None);
    assert_eq!(table.holder(0), Some(5));
    assert_eq!(
        fifth.dine(&mut table, 101),
        Some(StateMsg { id: 5, state: PhilosopherState::Dead })
    );
    assert_eq!(table.holder(0), None);
    assert_eq!(table.holder(4), Some(4));
    // Rising is for those who ate.
    fifth.rise(&mut table);
    assert_eq!(table.holder(4), Some(4));
    fourth.rise(&mut table);
    assert_eq!(table.holder(4), None);
}
