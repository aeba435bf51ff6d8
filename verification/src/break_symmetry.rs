//! One philosopher reaches the other way: every philosopher waits for its
//! left fork first and its right fork after that, but for one, who waits for
//! the right fork first. That one breaks the symmetry of the ring, and with it
//! the ring of philosophers in which each waits for the next.

use crate::lockstep::{fed_at, first_wave, in_step, second_wave};
use crate::table::{
    all_free, holds, holds_both, left_fork, left_fork_of, right_fork, right_fork_of, Plan,
};
use crate::wait_for::{
    after_moves, blocked, can_go_on, climbs, lemma_moves_keep_order, lemma_waiting_ends, orderly,
    seated, TableMove,
};
use crate::{report, Diner, PhilosopherState, StateMsg};
use vstd::prelude::*;

verus! {

/// A philosopher who waits for one fork and then the other, the left one
/// first if `left_handed`.
pub struct Philosopher {
    id: usize,
    state: PhilosopherState,
    left_fork: usize,
    right_fork: usize,
    left_handed: bool,
    random: bool,
}

impl Philosopher {
    /// A philosopher at seat `id`, thinking, between the forks `left_fork`
    /// and `right_fork`.
    pub fn new(
        id: usize,
        left_fork: usize,
        right_fork: usize,
        left_handed: bool,
        random: bool,
    ) -> (philosopher: Philosopher)
        ensures
            philosopher.id() == id,
            philosopher.state() == PhilosopherState::Thinking,
            philosopher.plan() == handed(id, left_fork, right_fork, left_handed),
            philosopher.waits(),
            philosopher.random() == random,
    {
        Philosopher {
            id,
            state: PhilosopherState::Thinking,
            left_fork,
            right_fork,
            left_handed,
            random,
        }
    }
}

/// The seat whose philosopher reaches for the right fork first.
pub const RIGHT_FIRST_SEAT: usize = 1;

/// The forks `left` and `right` of `seat`, the left one first if
/// `left_handed`, else the right one.
pub open spec fn handed(seat: usize, left: usize, right: usize, left_handed: bool) -> Plan {
    if left_handed {
        Plan { seat, first: left, second: right }
    } else {
        Plan { seat, first: right, second: left }
    }
}

/// The forks of `seat` at a table of `n` where the philosopher of seat
/// `right_first` is the one who reaches for the right fork first.
pub open spec fn plan_at(seat: usize, n: usize, right_first: usize) -> Plan {
    handed(
        seat,
        left_fork_of(seat as int, n as int) as usize,
        right_fork_of(seat as int, n as int) as usize,
        seat != right_first,
    )
}

/// Seats `n` philosophers round a table, each thinking, between the fork on
/// its left and the fork on its right. The philosopher of the first seat
/// reaches for the right fork first, all others for the left. The philosopher
/// of seat `i` stands at index `i - 1`.
pub fn seat_philosophers(n: usize, random: bool) -> (philosophers: Vec<Philosopher>)
    ensures
        philosophers@.len() == n,
        forall|k: int|
            0 <= k < n ==> {
                &&& (#[trigger] philosophers@[k]).id() == k + 1
                &&& philosophers@[k].state() == PhilosopherState::Thinking
                &&& philosophers@[k].plan() == plan_at((k + 1) as usize, n, RIGHT_FIRST_SEAT)
                &&& philosophers@[k].waits()
                &&& philosophers@[k].random() == random
            },
{
    let mut philosophers: Vec<Philosopher> = Vec::new();
    let mut seated: usize = 0;
    while seated < n
        invariant
            seated <= n,
            philosophers@.len() == seated,
            forall|k: int|
                0 <= k < seated ==> {
                    &&& (#[trigger] philosophers@[k]).id() == k + 1
                    &&& philosophers@[k].state() == PhilosopherState::Thinking
                    &&& philosophers@[k].plan() == plan_at((k + 1) as usize, n, RIGHT_FIRST_SEAT)
                    &&& philosophers@[k].waits()
                    &&& philosophers@[k].random() == random
                },
        decreases n - seated,
    {
        let seat: usize = seated + 1;
        philosophers.push(
            Philosopher::new(
                seat,
                left_fork(seat, n),
                right_fork(seat, n),
                seat != RIGHT_FIRST_SEAT,
                random,
            ),
        );
        seated = seat;
    }
    philosophers
}

impl Diner for Philosopher {
    closed spec fn id(&self) -> usize {
        self.id
    }

    closed spec fn state(&self) -> PhilosopherState {
        self.state
    }

    closed spec fn plan(&self) -> Plan {
        handed(self.id, self.left_fork, self.right_fork, self.left_handed)
    }

    closed spec fn waits(&self) -> bool {
        true
    }

    closed spec fn random(&self) -> bool {
        self.random
    }

    fn current_state(&self) -> (state: PhilosopherState) {
        self.state
    }

    fn seat(&self) -> (id: usize) {
        self.id
    }

    fn forks(&self) -> (plan: Plan) {
        if self.left_handed {
            Plan { seat: self.id, first: self.left_fork, second: self.right_fork }
        } else {
            Plan { seat: self.id, first: self.right_fork, second: self.left_fork }
        }
    }

    fn waits_for_forks(&self) -> (waits: bool) {
        true
    }

    fn is_random(&self) -> (random: bool) {
        self.random
    }

    fn think(&mut self, now: u64) {
        self.state = self.state.think(now);
    }

    fn rest(&mut self) {
        self.state = self.state.rest();
    }

    fn eat(&mut self, acquired: bool, now: u64) -> (report: Option<StateMsg>) {
        let before = self.state;
        self.state = before.attempt(acquired, now);
        report(self.id, before, self.state)
    }
}

/// The plans of all seats at a table of `n` where the philosopher of seat
/// `right_first` reaches for the right fork first; the plan of seat `i` at
/// index `i - 1`.
pub open spec fn ring_plans(n: usize, right_first: usize) -> Seq<Plan> {
    Seq::new(n as nat, |i: int| plan_at((i + 1) as usize, n, right_first))
}

/// The rank of a fork: its place in the ring, counted from the fork on the
/// right of seat `right_first` and on round the table.
pub open spec fn rank_of(fork: int, n: usize, right_first: usize) -> int {
    let lowest = right_fork_of(right_first as int, n as int);
    if fork >= lowest {
        fork - lowest
    } else {
        fork - lowest + n
    }
}

/// At a table of two or more, every philosopher has two different forks and
/// reaches for the one of lower rank first: the one who reaches to the right
/// makes the ring of forks into a line.
pub proof fn lemma_ring_climbs(n: usize, right_first: usize)
    requires
        n >= 2,
        1 <= right_first <= n,
    ensures
        seated(ring_plans(n, right_first)),
        climbs(ring_plans(n, right_first), |fork: int| rank_of(fork, n, right_first)),
{
    let plans = ring_plans(n, right_first);
    assert forall|i: int| 0 <= i < plans.len() implies {
        &&& (#[trigger] plans[i]).seat == i + 1
        &&& plans[i].first < plans.len()
        &&& plans[i].second < plans.len()
        &&& plans[i].first != plans[i].second
        &&& rank_of(plans[i].first as int, n, right_first) < rank_of(
            plans[i].second as int,
            n,
            right_first,
        )
    } by {
        assert(plans[i] == plan_at((i + 1) as usize, n, right_first));
    }
}

/// No deadlock, however the philosophers' steps fall: let the philosophers of
/// a table of two or more, one of whom reaches to the right first, reach for
/// forks and put them down in any order, any number of times, from a table
/// of free forks. Then the table is orderly, and whenever a philosopher would
/// have to wait, another one has a fork in hand and nothing in its way.
pub proof fn lemma_never_deadlocked(n: usize, right_first: usize, steps: Seq<TableMove>)
    requires
        n >= 2,
        1 <= right_first <= n,
    ensures
        orderly(
            after_moves(all_free(n as nat), ring_plans(n, right_first), steps),
            ring_plans(n, right_first),
        ),
        forall|waiting: int|
            0 <= waiting < n && blocked(
                after_moves(all_free(n as nat), ring_plans(n, right_first), steps),
                #[trigger] ring_plans(n, right_first)[waiting],
            ) ==> exists|i: int|
                0 <= i < n && i != waiting && can_go_on(
                    after_moves(all_free(n as nat), ring_plans(n, right_first), steps),
                    #[trigger] ring_plans(n, right_first)[i],
                ),
{
    let plans = ring_plans(n, right_first);
    let holders = after_moves(all_free(n as nat), plans, steps);
    lemma_ring_climbs(n, right_first);
    lemma_moves_keep_order(plans, steps);
    assert forall|waiting: int| 0 <= waiting < n && blocked(holders, #[trigger] plans[waiting])
        implies exists|i: int|
        0 <= i < n && i != waiting && can_go_on(holders, #[trigger] plans[i]) by {
        let i = lemma_waiting_ends(
            holders,
            plans,
            |fork: int| rank_of(fork, n, right_first),
            waiting,
        );
        assert(can_go_on(holders, plans[i]));
    }
}

/// In step, somebody eats: let the philosophers of a table of three or more,
/// one of whom reaches to the right first, all reach for their first fork in
/// the same instant, and those who got it for their second. Whoever gets the
/// forks that two reach for, one philosopher at least ends with both forks
/// in hand.
pub proof fn lemma_in_step_someone_eats(
    n: usize,
    right_first: usize,
    mid: Seq<Option<usize>>,
    after: Seq<Option<usize>>,
) -> (i: int)
    requires
        n >= 3,
        1 <= right_first <= n,
        first_wave(ring_plans(n, right_first), mid),
        second_wave(ring_plans(n, right_first), mid, after),
    ensures
        0 <= i < n,
        holds_both(after, ring_plans(n, right_first)[i]),
{
    let plans = ring_plans(n, right_first);
    assert forall|i: int| 0 <= i < n implies #[trigger] plans[i] == plan_at(
        (i + 1) as usize,
        n,
        right_first,
    ) by {}
    // The fork on the left of the one who reaches to the right is nobody's
    // first, and its left neighbour's second.
    let spare: int = right_first - 1;
    let neighbour: int = if right_first >= 2 {
        right_first - 1
    } else {
        n as int
    };
    let at = neighbour - 1;
    assert(plans[at].first == at && plans[at].second == spare);
    assert forall|i: int| 0 <= i < n implies (#[trigger] plans[i]).first != spare by {}
    assert(mid[spare] is None);
    assert forall|i: int| 0 <= i < n && i != at implies (#[trigger] plans[i]).first != at by {}
    assert(mid[at] == Some(neighbour as usize)) by {
        if mid[at] is Some {
            let seat = mid[at]->0;
            assert(plans[seat - 1].first == at);
        }
    }
    assert(holds(mid, plans[at].seat, plans[at].first as int));
    assert(after[spare] is Some);
    let winner = after[spare]->0;
    let i = winner - 1;
    assert(holds(mid, winner, plans[i].first as int));
    assert(after[plans[i].first as int] == Some(winner));
    i
}

/// A round in step at such a table, of philosophers who keep what they
/// hold, feeds somebody.
pub proof fn lemma_round_in_step_feeds_somebody(
    n: usize,
    right_first: usize,
    last: Seq<Option<usize>>,
    fed: Seq<bool>,
) -> (i: int)
    requires
        n >= 3,
        1 <= right_first <= n,
        in_step(ring_plans(n, right_first), true, last, fed),
    ensures
        0 <= i < n,
        fed[i],
        holds_both(last, ring_plans(n, right_first)[i]),
{
    let plans = ring_plans(n, right_first);
    let (mid, after) = choose|mid: Seq<Option<usize>>, after: Seq<Option<usize>>|
        {
            &&& #[trigger] first_wave(plans, mid)
            &&& #[trigger] second_wave(plans, mid, after)
            &&& fed_at(plans, after, fed)
            &&& last == after
        };
    lemma_in_step_someone_eats(n, right_first, mid, after)
}

} // verus!
