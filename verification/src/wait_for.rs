//! Who waits for whom: the tables that philosophers who wait for forks can
//! bring about, and the proof that they never come to a stand where every
//! philosopher reaches for its two forks in the order of one ranking of the
//! forks.
//!
//! The plans of a table are listed by seat: the plan of seat `i` stands at
//! index `i - 1`.

use crate::table::{
    after_put_down, after_reach, all_free, holds, holds_both, is_free, Plan,
};
use vstd::prelude::*;

verus! {

/// The plans are those of the seats 1, 2, ... in turn, each of two different
/// forks of the table.
pub open spec fn seated(plans: Seq<Plan>) -> bool {
    forall|i: int|
        0 <= i < plans.len() ==> {
            &&& (#[trigger] plans[i]).seat == i + 1
            &&& plans[i].first < plans.len()
            &&& plans[i].second < plans.len()
            &&& plans[i].first != plans[i].second
        }
}

/// A table as waiting philosophers leave it: a fork that is held is held by
/// a philosopher of the table as one of its own two, and nobody holds its
/// second fork without its first.
pub open spec fn orderly(holders: Seq<Option<usize>>, plans: Seq<Plan>) -> bool {
    &&& holders.len() == plans.len()
    &&& forall|fork: int|
        0 <= fork < holders.len() ==> (#[trigger] holders[fork] matches Some(seat) ==> 1 <= seat
            <= plans.len() && (plans[seat - 1].first == fork || plans[seat - 1].second == fork))
    &&& forall|i: int|
        0 <= i < plans.len() ==> (holds(
            holders,
            (#[trigger] plans[i]).seat,
            plans[i].second as int,
        ) ==> holds(holders, plans[i].seat, plans[i].first as int))
}

/// The philosopher of `plan` has a fork in hand and nothing in its way: it
/// holds both forks, or it holds the first and the second is free.
pub open spec fn can_go_on(holders: Seq<Option<usize>>, plan: Plan) -> bool {
    holds(holders, plan.seat, plan.first as int) && (holds(holders, plan.seat, plan.second as int)
        || is_free(holders, plan.second as int))
}

/// The philosopher of `plan` would have to wait: the fork that it needs next
/// is in another's hand.
pub open spec fn blocked(holders: Seq<Option<usize>>, plan: Plan) -> bool {
    if holds(holders, plan.seat, plan.first as int) {
        !holds(holders, plan.seat, plan.second as int) && !is_free(holders, plan.second as int)
    } else {
        !is_free(holders, plan.first as int)
    }
}

/// Every philosopher's second fork ranks above its first.
pub open spec fn climbs(plans: Seq<Plan>, rank: spec_fn(int) -> int) -> bool {
    forall|i: int|
        0 <= i < plans.len() ==> rank((#[trigger] plans[i]).first as int) < rank(
            plans[i].second as int,
        )
}

/// A step at the table: the philosopher whose plan stands at the index
/// reaches for its next fork, or puts down what it holds.
pub enum TableMove {
    Reach(int),
    PutDown(int),
}

/// The table after one step. A step of nobody changes nothing.
pub open spec fn after_move(holders: Seq<Option<usize>>, plans: Seq<Plan>, step: TableMove) -> Seq<
    Option<usize>,
> {
    match step {
        TableMove::Reach(i) => if 0 <= i < plans.len() {
            after_reach(holders, plans[i])
        } else {
            holders
        },
        TableMove::PutDown(i) => if 0 <= i < plans.len() {
            after_put_down(holders, plans[i])
        } else {
            holders
        },
    }
}

/// The table after the steps, taken one after the other.
pub open spec fn after_moves(
    holders: Seq<Option<usize>>,
    plans: Seq<Plan>,
    steps: Seq<TableMove>,
) -> Seq<Option<usize>>
    decreases steps.len(),
{
    if steps.len() == 0 {
        holders
    } else {
        after_move(after_moves(holders, plans, steps.drop_last()), plans, steps.last())
    }
}

/// A step of a seated philosopher leaves an orderly table orderly.
pub proof fn lemma_move_keeps_order(holders: Seq<Option<usize>>, plans: Seq<Plan>, step: TableMove)
    requires
        seated(plans),
        orderly(holders, plans),
    ensures
        orderly(after_move(holders, plans, step), plans),
{
    let after = after_move(holders, plans, step);
    match step {
        TableMove::Reach(i) => {
            if 0 <= i < plans.len() {
                let plan = plans[i];
                assert forall|j: int|
                    0 <= j < plans.len() && holds(
                        after,
                        (#[trigger] plans[j]).seat,
                        plans[j].second as int,
                    ) implies holds(after, plans[j].seat, plans[j].first as int) by {
                    if j != i {
                        assert(plans[j].seat != plan.seat);
                    }
                }
            }
        },
        TableMove::PutDown(i) => {
            if 0 <= i < plans.len() {
                let plan = plans[i];
                assert forall|j: int|
                    0 <= j < plans.len() && holds(
                        after,
                        (#[trigger] plans[j]).seat,
                        plans[j].second as int,
                    ) implies holds(after, plans[j].seat, plans[j].first as int) by {
                    if j != i {
                        assert(plans[j].seat != plan.seat);
                    }
                }
            }
        },
    }
}

/// Whatever steps the philosophers take from a table of free forks, and in
/// whatever order, the table stays orderly.
pub proof fn lemma_moves_keep_order(plans: Seq<Plan>, steps: Seq<TableMove>)
    requires
        seated(plans),
    ensures
        orderly(after_moves(all_free(plans.len()), plans, steps), plans),
    decreases steps.len(),
{
    if steps.len() > 0 {
        lemma_moves_keep_order(plans, steps.drop_last());
        lemma_move_keeps_order(
            after_moves(all_free(plans.len()), plans, steps.drop_last()),
            plans,
            steps.last(),
        );
    }
}

/// Among the first `upto` forks, one that is held and that no held fork
/// outranks.
proof fn lemma_highest_held(holders: Seq<Option<usize>>, rank: spec_fn(int) -> int, upto: int) -> (top:
    int)
    requires
        0 <= upto <= holders.len(),
        exists|fork: int| 0 <= fork < upto && #[trigger] holders[fork] is Some,
    ensures
        0 <= top < upto,
        holders[top] is Some,
        forall|fork: int| 0 <= fork < upto && #[trigger] holders[fork] is Some ==> rank(fork) <= rank(top),
    decreases upto,
{
    let last = upto - 1;
    if exists|fork: int| 0 <= fork < last && #[trigger] holders[fork] is Some {
        let below = lemma_highest_held(holders, rank, last);
        if holders[last] is Some && rank(last) > rank(below) {
            last
        } else {
            below
        }
    } else {
        let held = choose|fork: int| 0 <= fork < upto && #[trigger] holders[fork] is Some;
        assert(held == last);
        last
    }
}

/// Where every philosopher climbs one ranking of the forks, an orderly table
/// with a fork in somebody's hand has a philosopher who can go on: the
/// holder of the highest fork that is held. No ring of philosophers who each
/// wait for the next can close.
pub proof fn lemma_someone_can_go_on(
    holders: Seq<Option<usize>>,
    plans: Seq<Plan>,
    rank: spec_fn(int) -> int,
) -> (i: int)
    requires
        seated(plans),
        orderly(holders, plans),
        climbs(plans, rank),
        exists|fork: int| 0 <= fork < holders.len() && #[trigger] holders[fork] is Some,
    ensures
        0 <= i < plans.len(),
        can_go_on(holders, plans[i]),
{
    let top = lemma_highest_held(holders, rank, holders.len() as int);
    let seat = holders[top]->0;
    let i = seat - 1;
    let plan = plans[i];
    if plan.second == top {
        assert(holds(holders, plan.seat, plan.second as int));
    } else {
        assert(plan.first == top);
        assert(rank(plan.second as int) > rank(top));
        assert(!(holders[plan.second as int] is Some));
    }
    i
}

/// Where every philosopher climbs one ranking of the forks, no orderly table
/// has all philosophers waiting: whoever has to wait, somebody else has a
/// fork in hand and nothing in its way.
pub proof fn lemma_waiting_ends(
    holders: Seq<Option<usize>>,
    plans: Seq<Plan>,
    rank: spec_fn(int) -> int,
    waiting: int,
) -> (i: int)
    requires
        seated(plans),
        orderly(holders, plans),
        climbs(plans, rank),
        0 <= waiting < plans.len(),
        blocked(holders, plans[waiting]),
    ensures
        0 <= i < plans.len(),
        i != waiting,
        can_go_on(holders, plans[i]),
{
    let plan = plans[waiting];
    let wanted: int = if holds(holders, plan.seat, plan.first as int) {
        plan.second as int
    } else {
        plan.first as int
    };
    assert(holders[wanted] is Some);
    lemma_someone_can_go_on(holders, plans, rank)
}

} // verus!
