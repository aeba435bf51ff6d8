//! Both forks at once, or none: the philosopher tries for the left fork and
//! then the right without waiting for either, and where it did not get both it
//! puts down at once what it got and tries again. Nobody ever waits with a
//! fork in hand; but philosophers who all try in the same instant can keep
//! each other from eating for as long as they stay in step.

use crate::lockstep::{after_giving_up, fed_at, first_wave, in_step, second_wave};
use crate::table::{
    all_free, holds_both, left_fork, left_fork_of, right_fork, right_fork_of, Plan,
};
use crate::{report, Diner, PhilosopherState, StateMsg};
use vstd::prelude::*;

verus! {

/// A philosopher who takes both forks or none.
pub struct Philosopher {
    id: usize,
    state: PhilosopherState,
    left_fork: usize,
    right_fork: usize,
    random: bool,
}

impl Philosopher {
    /// A philosopher at seat `id`, thinking, between the forks `left_fork`
    /// and `right_fork`.
    pub fn new(id: usize, left_fork: usize, right_fork: usize, random: bool) -> (philosopher:
        Philosopher)
        ensures
            philosopher.id() == id,
            philosopher.state() == PhilosopherState::Thinking,
            philosopher.plan() == (Plan { seat: id, first: left_fork, second: right_fork }),
            !philosopher.waits(),
            philosopher.random() == random,
    {
        Philosopher { id, state: PhilosopherState::Thinking, left_fork, right_fork, random }
    }
}

/// The forks of `seat` at a table of `n`, left before right.
pub open spec fn plan_at(seat: usize, n: usize) -> Plan {
    Plan {
        seat,
        first: left_fork_of(seat as int, n as int) as usize,
        second: right_fork_of(seat as int, n as int) as usize,
    }
}

/// Seats `n` philosophers round a table, each thinking, between the fork on
/// its left and the fork on its right. The philosopher of seat `i` stands at
/// index `i - 1`.
pub fn seat_philosophers(n: usize, random: bool) -> (philosophers: Vec<Philosopher>)
    ensures
        philosophers@.len() == n,
        forall|k: int|
            0 <= k < n ==> {
                &&& (#[trigger] philosophers@[k]).id() == k + 1
                &&& philosophers@[k].state() == PhilosopherState::Thinking
                &&& philosophers@[k].plan() == plan_at((k + 1) as usize, n)
                &&& !philosophers@[k].waits()
                &&& philosophers@[k].random() == random
            },
{
    let mut philosophers: Vec<Philosopher> = Vec::new();
    let mut seated: usize = 0;
    while seated < n
        invariant
            seated <= n,
            philosophers@.len() == seated,
            forall|k: int|
                0 <= k < seated ==> {
                    &&& (#[trigger] philosophers@[k]).id() == k + 1
                    &&& philosophers@[k].state() == PhilosopherState::Thinking
                    &&& philosophers@[k].plan() == plan_at((k + 1) as usize, n)
                    &&& !philosophers@[k].waits()
                    &&& philosophers@[k].random() == random
                },
        decreases n - seated,
    {
        let seat: usize = seated + 1;
        philosophers.push(
            Philosopher::new(seat, left_fork(seat, n), right_fork(seat, n), random),
        );
        seated = seat;
    }
    philosophers
}

impl Diner for Philosopher {
    closed spec fn id(&self) -> usize {
        self.id
    }

    closed spec fn state(&self) -> PhilosopherState {
        self.state
    }

    closed spec fn plan(&self) -> Plan {
        Plan { seat: self.id, first: self.left_fork, second: self.right_fork }
    }

    closed spec fn waits(&self) -> bool {
        false
    }

    closed spec fn random(&self) -> bool {
        self.random
    }

    fn current_state(&self) -> (state: PhilosopherState) {
        self.state
    }

    fn seat(&self) -> (id: usize) {
        self.id
    }

    fn forks(&self) -> (plan: Plan) {
        Plan { seat: self.id, first: self.left_fork, second: self.right_fork }
    }

    fn waits_for_forks(&self) -> (waits: bool) {
        false
    }

    fn is_random(&self) -> (random: bool) {
        self.random
    }

    fn think(&mut self, now: u64) {
        self.state = self.state.think(now);
    }

    fn rest(&mut self) {
        self.state = self.state.rest();
    }

    fn eat(&mut self, acquired: bool, now: u64) -> (report: Option<StateMsg>) {
        let before = self.state;
        self.state = before.attempt(acquired, now);
        report(self.id, before, self.state)
    }
}

/// The plans of all seats at a table of `n`, the plan of seat `i` at index
/// `i - 1`.
pub open spec fn ring_plans(n: usize) -> Seq<Plan> {
    Seq::new(n as nat, |i: int| plan_at((i + 1) as usize, n))
}

/// In step, nobody eats: let the philosophers of a table of two or more all
/// reach for their left fork in the same instant, and then for their right.
/// Everyone gets its left fork and finds its right one in the neighbour's
/// hand, so that nobody ends with both, and when all have put down what they
/// got, the table is as it was. As long as the philosophers stay in step
/// they keep each other from eating: this way with the forks has no answer
/// to that.
pub proof fn lemma_in_step_nobody_eats(n: usize, mid: Seq<Option<usize>>, after: Seq<Option<usize>>)
    requires
        n >= 2,
        first_wave(ring_plans(n), mid),
        second_wave(ring_plans(n), mid, after),
    ensures
        forall|i: int| 0 <= i < n ==> !holds_both(after, #[trigger] ring_plans(n)[i]),
        after_giving_up(ring_plans(n), after) == all_free(n as nat),
{
    let plans = ring_plans(n);
    assert forall|i: int| 0 <= i < n implies #[trigger] plans[i] == plan_at((i + 1) as usize, n) by {}
    assert forall|fork: int| 0 <= fork < n implies #[trigger] mid[fork] == Some(
        (fork + 1) as usize,
    ) by {
        assert(plans[fork].first == fork);
        if mid[fork] is Some {
            let seat = mid[fork]->0;
            assert(plans[seat - 1].first == fork);
        }
    }
    assert forall|fork: int| 0 <= fork < n implies #[trigger] after[fork] == Some(
        (fork + 1) as usize,
    ) by {
        assert(mid[fork] == Some((fork + 1) as usize));
    }
    assert forall|i: int| 0 <= i < n implies !holds_both(after, #[trigger] plans[i]) by {
        let second = plans[i].second as int;
        assert(after[second] == Some((second + 1) as usize));
    }
    assert(after_giving_up(plans, after) =~= all_free(n as nat)) by {
        assert forall|fork: int| 0 <= fork < n implies after_giving_up(plans, after)[fork]
            is None by {
            assert(after[fork] == Some((fork + 1) as usize));
            assert(!holds_both(after, plans[fork]));
        }
    }
}

/// A round in step at such a table, of philosophers who put down what they
/// got, feeds nobody and leaves every fork free: the next round begins as
/// this one did.
pub proof fn lemma_round_in_step_feeds_nobody(n: usize, last: Seq<Option<usize>>, fed: Seq<bool>)
    requires
        n >= 2,
        in_step(ring_plans(n), false, last, fed),
    ensures
        last == all_free(n as nat),
        fed.len() == n,
        forall|i: int| 0 <= i < n ==> !#[trigger] fed[i],
{
    let plans = ring_plans(n);
    let (mid, after) = choose|mid: Seq<Option<usize>>, after: Seq<Option<usize>>|
        {
            &&& #[trigger] first_wave(plans, mid)
            &&& #[trigger] second_wave(plans, mid, after)
            &&& fed_at(plans, after, fed)
            &&& last == after_giving_up(plans, after)
        };
    lemma_in_step_nobody_eats(n, mid, after);
}

} // verus!
