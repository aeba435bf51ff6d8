//! A strict order of the forks: every philosopher waits for the lower of its
//! two forks first and for the higher one after that. The forks are ordered
//! by their place in the ring. Since everybody climbs the same order, no ring
//! of philosophers can form in which each waits for the next.

use crate::table::{all_free, left_fork, left_fork_of, right_fork, right_fork_of, Plan};
use crate::wait_for::{
    after_moves, blocked, can_go_on, climbs, lemma_moves_keep_order, lemma_waiting_ends, orderly,
    seated, TableMove,
};
use crate::{report, Diner, PhilosopherState, StateMsg};
use vstd::prelude::*;

verus! {

/// A philosopher who takes the lower fork first.
pub struct Philosopher {
    id: usize,
    state: PhilosopherState,
    left_fork: usize,
    right_fork: usize,
    random: bool,
}

impl Philosopher {
    /// A philosopher at seat `id`, thinking, between the forks `left_fork`
    /// and `right_fork`.
    pub fn new(id: usize, left_fork: usize, right_fork: usize, random: bool) -> (philosopher:
        Philosopher)
        ensures
            philosopher.id() == id,
            philosopher.state() == PhilosopherState::Thinking,
            philosopher.plan() == ordered(id, left_fork, right_fork),
            philosopher.waits(),
            philosopher.random() == random,
    {
        Philosopher { id, state: PhilosopherState::Thinking, left_fork, right_fork, random }
    }
}

/// The forks `left` and `right` of `seat`, the lower before the higher.
pub open spec fn ordered(seat: usize, left: usize, right: usize) -> Plan {
    if left < right {
        Plan { seat, first: left, second: right }
    } else {
        Plan { seat, first: right, second: left }
    }
}

/// The forks of `seat` at a table of `n`, the lower before the higher.
pub open spec fn plan_at(seat: usize, n: usize) -> Plan {
    ordered(
        seat,
        left_fork_of(seat as int, n as int) as usize,
        right_fork_of(seat as int, n as int) as usize,
    )
}

/// Seats `n` philosophers round a table, each thinking, between the fork on
/// its left and the fork on its right. The philosopher of seat `i` stands at
/// index `i - 1`.
pub fn seat_philosophers(n: usize, random: bool) -> (philosophers: Vec<Philosopher>)
    ensures
        philosophers@.len() == n,
        forall|k: int|
            0 <= k < n ==> {
                &&& (#[trigger] philosophers@[k]).id() == k + 1
                &&& philosophers@[k].state() == PhilosopherState::Thinking
                &&& philosophers@[k].plan() == plan_at((k + 1) as usize, n)
                &&& philosophers@[k].waits()
                &&& philosophers@[k].random() == random
            },
{
    let mut philosophers: Vec<Philosopher> = Vec::new();
    let mut seated: usize = 0;
    while seated < n
        invariant
            seated <= n,
            philosophers@.len() == seated,
            forall|k: int|
                0 <= k < seated ==> {
                    &&& (#[trigger] philosophers@[k]).id() == k + 1
                    &&& philosophers@[k].state() == PhilosopherState::Thinking
                    &&& philosophers@[k].plan() == plan_at((k + 1) as usize, n)
                    &&& philosophers@[k].waits()
                    &&& philosophers@[k].random() == random
                },
        decreases n - seated,
    {
        let seat: usize = seated + 1;
        philosophers.push(
            Philosopher::new(seat, left_fork(seat, n), right_fork(seat, n), random),
        );
        seated = seat;
    }
    philosophers
}

impl Diner for Philosopher {
    closed spec fn id(&self) -> usize {
        self.id
    }

    closed spec fn state(&self) -> PhilosopherState {
        self.state
    }

    closed spec fn plan(&self) -> Plan {
        ordered(self.id, self.left_fork, self.right_fork)
    }

    closed spec fn waits(&self) -> bool {
        true
    }

    closed spec fn random(&self) -> bool {
        self.random
    }

    fn current_state(&self) -> (state: PhilosopherState) {
        self.state
    }

    fn seat(&self) -> (id: usize) {
        self.id
    }

    fn forks(&self) -> (plan: Plan) {
        if self.left_fork < self.right_fork {
            Plan { seat: self.id, first: self.left_fork, second: self.right_fork }
        } else {
            Plan { seat: self.id, first: self.right_fork, second: self.left_fork }
        }
    }

    fn waits_for_forks(&self) -> (waits: bool) {
        true
    }

    fn is_random(&self) -> (random: bool) {
        self.random
    }

    fn think(&mut self, now: u64) {
        self.state = self.state.think(now);
    }

    fn rest(&mut self) {
        self.state = self.state.rest();
    }

    fn eat(&mut self, acquired: bool, now: u64) -> (report: Option<StateMsg>) {
        let before = self.state;
        self.state = before.attempt(acquired, now);
        report(self.id, before, self.state)
    }
}

/// The plans of all seats at a table of `n`, the plan of seat `i` at index
/// `i - 1`.
pub open spec fn ring_plans(n: usize) -> Seq<Plan> {
    Seq::new(n as nat, |i: int| plan_at((i + 1) as usize, n))
}

/// The rank of a fork: its place in the ring.
pub open spec fn rank_of(fork: int) -> int {
    fork
}

/// At a table of two or more, every philosopher has two different forks and
/// reaches for the one of lower rank first.
pub proof fn lemma_ring_climbs(n: usize)
    requires
        n >= 2,
    ensures
        seated(ring_plans(n)),
        climbs(ring_plans(n), |fork: int| rank_of(fork)),
{
    let plans = ring_plans(n);
    assert forall|i: int| 0 <= i < plans.len() implies {
        &&& (#[trigger] plans[i]).seat == i + 1
        &&& plans[i].first < plans.len()
        &&& plans[i].second < plans.len()
        &&& plans[i].first != plans[i].second
        &&& rank_of(plans[i].first as int) < rank_of(plans[i].second as int)
    } by {
        assert(plans[i] == plan_at((i + 1) as usize, n));
    }
}

/// No deadlock, however the philosophers' steps fall: let the philosophers of
/// a table of two or more reach for forks and put them down in any order, any
/// number of times, from a table of free forks. Then the table is orderly,
/// and whenever a philosopher would have to wait, another one has a fork in
/// hand and nothing in its way: it holds both its forks, or it holds the
/// first and finds the second free.
pub proof fn lemma_never_deadlocked(n: usize, steps: Seq<TableMove>)
    requires
        n >= 2,
    ensures
        orderly(after_moves(all_free(n as nat), ring_plans(n), steps), ring_plans(n)),
        forall|waiting: int|
            0 <= waiting < n && blocked(
                after_moves(all_free(n as nat), ring_plans(n), steps),
                #[trigger] ring_plans(n)[waiting],
            ) ==> exists|i: int|
                0 <= i < n && i != waiting && can_go_on(
                    after_moves(all_free(n as nat), ring_plans(n), steps),
                    #[trigger] ring_plans(n)[i],
                ),
{
    let plans = ring_plans(n);
    let holders = after_moves(all_free(n as nat), plans, steps);
    lemma_ring_climbs(n);
    lemma_moves_keep_order(plans, steps);
    assert forall|waiting: int| 0 <= waiting < n && blocked(holders, #[trigger] plans[waiting])
        implies exists|i: int|
        0 <= i < n && i != waiting && can_go_on(holders, #[trigger] plans[i]) by {
        let i = lemma_waiting_ends(holders, plans, |fork: int| rank_of(fork), waiting);
        assert(can_go_on(holders, plans[i]));
    }
}

} // verus!
