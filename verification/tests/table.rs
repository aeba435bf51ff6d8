use dining_philosophers::table::{left_fork, right_fork, Fork, Plan, Table};

#[test]
fn a_new_fork_is_free() {
    assert_eq!(Fork::new().holder(), None);
}

#[test]
fn a_free_fork_can_be_taken_once() {
    let mut fork = Fork::new();
    assert!(fork.try_acquire(2));
    assert_eq!(fork.holder(), Some(2));
    assert!(!fork.try_acquire(3));
    assert_eq!(fork.holder(), Some(2));
    assert!(!fork.try_acquire(2));
    assert_eq!(fork.holder(), Some(2));
}

#[test]
fn only_the_holder_releases() {
    let mut fork = Fork::new();
    fork.acquire(4);
    assert_eq!(fork.holder(), Some(4));
    fork.release(5);
    assert_eq!(fork.holder(), Some(4));
    fork.release(4);
    assert_eq!(fork.holder(), None);
    fork.release(4);
    assert_eq!(fork.holder(), None);
}

#[test]
fn the_ring_wraps_at_the_last_seat() {
    assert_eq!(left_fork(1, 5), 0);
    assert_eq!(right_fork(1, 5), 1);
    assert_eq!(left_fork(3, 5), 2);
    assert_eq!(right_fork(3, 5), 3);
    assert_eq!(left_fork(5, 5), 4);
    assert_eq!(right_fork(5, 5), 0);
    assert_eq!(left_fork(2, 2), 1);
    assert_eq!(right_fork(2, 2), 0);
    assert_eq!(left_fork(1, 1), 0);
    assert_eq!(right_fork(1, 1), 0);
}

#[test]
fn neighbours_share_a_fork() {
    for n in 2..12 {
        for seat in 1..=n {
            let next = if seat == n { 1 } else { seat + 1 };
            assert_eq!(right_fork(seat, n), left_fork(next, n));
            assert_ne!(left_fork(seat, n), right_fork(seat, n));
        }
    }
}

#[test]
fn a_new_table_is_free() {
    let table = Table::new(5);
    assert_eq!(table.len(), 5);
    for fork in 0..5 {
        assert_eq!(table.holder(fork), None);
    }
    assert_eq!(Table::new(0).len(), 0);
}

#[test]
fn try_acquire_takes_free_forks_only() {
    let mut table = Table::new(3);
    assert!(table.try_acquire(1, 2));
    assert!(!table.try_acquire(1, 1));
    assert_eq!(table.holder(0), None);
    assert_eq!(table.holder(1), Some(2));
    assert_eq!(table.holder(2), None);
    table.release(1, 1);
    assert_eq!(table.holder(1), Some(2));
    table.release(1, 2);
    assert_eq!(table.holder(1), None);
    table.acquire(1, 3);
    assert_eq!(table.holder(1), Some(3));
}

#[test]
fn grabbing_a_pair_is_all_or_nothing() {
    let mut table = Table::new(5);
    let first = Plan { seat: 1, first: 0, second: 1 };
    let second = Plan { seat: 2, first: 1, second: 2 };
    let third = Plan { seat: 3, first: 2, second: 3 };
    assert!(table.grab_pair(&first));
    assert!(table.holds_both(&first));
    // The neighbour finds its left fork taken, and keeps nothing.
    assert!(!table.grab_pair(&second));
    assert_eq!(table.holder(2), None);
    assert!(table.grab_pair(&third));
    // Seat 2 now finds both taken.
    assert!(!table.grab_pair(&second));
    assert_eq!(table.holder(1), Some(1));
    assert_eq!(table.holder(2), Some(3));
    table.put_down(&first);
    // The left one is free now, the right one is not: nothing is kept.
    assert!(!table.grab_pair(&second));
    assert_eq!(table.holder(1), None);
    assert_eq!(table.holder(0), None);
}

#[test]
fn grabbing_one_fork_twice_gets_nothing() {
    let mut table = Table::new(1);
    let plan = Plan { seat: 1, first: 0, second: 0 };
    assert!(!table.grab_pair(&plan));
    assert_eq!(table.holder(0), None);
}

#[test]
fn reaching_takes_one_fork_at_a_time_and_holds_on() {
    let mut table = Table::new(5);
    let plan = Plan { seat: 5, first: 0, second: 4 };
    assert!(!table.reach(&plan));
    assert_eq!(table.holder(0), Some(5));
    assert_eq!(table.holder(4), None);
    assert!(table.reach(&plan));
    assert_eq!(table.holder(4), Some(5));
    // Reaching with both in hand changes nothing.
    assert!(table.reach(&plan));
    table.put_down(&plan);
    assert_eq!(table.holder(0), None);
    assert_eq!(table.holder(4), None);
}

#[test]
fn reaching_for_a_taken_fork_waits() {
    let mut table = Table::new(5);
    let fifth = Plan { seat: 5, first: 0, second: 4 };
    let first = Plan { seat: 1, first: 0, second: 1 };
    let fourth = Plan { seat: 4, first: 3, second: 4 };
    assert!(!table.reach(&first));
    // Seat 5 waits for fork 0 with nothing in hand.
    assert!(!table.reach(&fifth));
    assert_eq!(table.holder(0), Some(1));
    assert_eq!(table.holder(4), None);
    assert!(!table.reach(&fourth));
    assert!(table.reach(&fourth));
    assert!(table.reach(&first));
    table.put_down(&first);
    assert!(!table.reach(&fifth));
    // Now seat 5 waits for fork 4 with fork 0 in hand.
    assert!(!table.reach(&fifth));
    assert_eq!(table.holder(0), Some(5));
    assert_eq!(table.holder(4), Some(4));
    table.put_down(&fourth);
    assert!(table.reach(&fifth));
}

#[test]
fn putting_down_leaves_the_forks_of_others() {
    let mut table = Table::new(3);
    let first = Plan { seat: 1, first: 0, second: 1 };
    let second = Plan { seat: 2, first: 1, second: 2 };
    assert!(!table.reach(&second));
    table.put_down(&first);
    assert_eq!(table.holder(1), Some(2));
    assert!(!table.holds_both(&second));
}
