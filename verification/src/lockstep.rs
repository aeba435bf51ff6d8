//! Philosophers in step: all of them reach for their first fork in the same
//! instant, and all who got it reach for their second in the next. Where two
//! reach for one fork, one of them gets it; which one is open. This is the
//! worst that a scheduler can do to philosophers who never wait, and a fair
//! trial of those who do.
//!
//! The plans are listed by seat, the plan of seat `i` at index `i - 1`.

use crate::table::{all_free, holds, holds_both, Plan, Table};
use crate::wait_for::seated;
use vstd::prelude::*;

verus! {

/// `mid` is a table after all philosophers reached for their first fork in
/// the same instant, from a table of free forks: a fork that is somebody's
/// first is held by one of those whose first it is, and every other fork is
/// free.
pub open spec fn first_wave(plans: Seq<Plan>, mid: Seq<Option<usize>>) -> bool {
    &&& mid.len() == plans.len()
    &&& forall|fork: int|
        0 <= fork < mid.len() ==> match #[trigger] mid[fork] {
            Some(seat) => 1 <= seat <= plans.len() && plans[seat - 1].first == fork,
            None => forall|i: int| 0 <= i < plans.len() ==> (#[trigger] plans[i]).first != fork,
        }
}

/// `after` is a table after all philosophers who hold their first fork in
/// `mid` reached for their second in the same instant: a fork that was held
/// stays with its holder, a free fork that is the second of somebody who
/// holds its first is held by one of those, and every other fork is free.
pub open spec fn second_wave(
    plans: Seq<Plan>,
    mid: Seq<Option<usize>>,
    after: Seq<Option<usize>>,
) -> bool {
    &&& after.len() == mid.len()
    &&& mid.len() == plans.len()
    &&& forall|fork: int|
        0 <= fork < mid.len() ==> match mid[fork] {
            Some(seat) => #[trigger] after[fork] == Some(seat),
            None => match after[fork] {
                Some(seat) => 1 <= seat <= plans.len() && plans[seat - 1].second == fork && holds(
                    mid,
                    seat,
                    plans[seat - 1].first as int,
                ),
                None => forall|i: int|
                    0 <= i < plans.len() ==> !((#[trigger] plans[i]).second == fork && holds(
                        mid,
                        plans[i].seat,
                        plans[i].first as int,
                    )),
            },
        }
}

/// The table after every philosopher who does not hold both its forks has
/// put down the one it holds.
pub open spec fn after_giving_up(plans: Seq<Plan>, after: Seq<Option<usize>>) -> Seq<
    Option<usize>,
> {
    Seq::new(
        after.len(),
        |fork: int|
            match after[fork] {
                Some(seat) => if 1 <= seat <= plans.len() && holds_both(after, plans[seat - 1]) {
                    Some(seat)
                } else {
                    None
                },
                None => None,
            },
    )
}

/// `fed` says of each seat whether its philosopher holds both forks.
pub open spec fn fed_at(plans: Seq<Plan>, after: Seq<Option<usize>>, fed: Seq<bool>) -> bool {
    &&& fed.len() == plans.len()
    &&& forall|i: int| 0 <= i < plans.len() ==> #[trigger] fed[i] == holds_both(after, plans[i])
}

/// `order` names `seat`.
pub open spec fn calls(order: Seq<usize>, seat: int) -> bool {
    exists|k: int| 0 <= k < order.len() && #[trigger] order[k] == seat
}

/// `order` names seats of a table of `n`, and each of them at least once.
pub open spec fn calls_everyone(order: Seq<usize>, n: int) -> bool {
    &&& forall|k: int| 0 <= k < order.len() ==> 1 <= #[trigger] order[k] <= n
    &&& forall|seat: int| 1 <= seat <= n ==> #[trigger] calls(order, seat)
}

/// What a round in step leaves of a table of free forks, by its two waves.
pub open spec fn in_step(
    plans: Seq<Plan>,
    waits: bool,
    last: Seq<Option<usize>>,
    fed: Seq<bool>,
) -> bool {
    exists|mid: Seq<Option<usize>>, after: Seq<Option<usize>>|
        {
            &&& #[trigger] first_wave(plans, mid)
            &&& #[trigger] second_wave(plans, mid, after)
            &&& fed_at(plans, after, fed)
            &&& last == if waits {
                after
            } else {
                after_giving_up(plans, after)
            }
        }
}

/// One round in step at a table of free forks. All philosophers reach for
/// their first fork, then all who hold it for their second. Where two reach
/// for one fork, the one gets it who comes first in `order`. With `waits`
/// the philosophers keep what they hold; without, those who did not get
/// both forks put down the one they got. Says of each seat whether
/// its philosopher got both forks.
pub fn lockstep_round(table: &mut Table, plans: &Vec<Plan>, order: &Vec<usize>, waits: bool) -> (fed:
    Vec<bool>)
    requires
        old(table)@ == all_free(plans@.len()),
        seated(plans@),
        calls_everyone(order@, plans@.len() as int),
    ensures
        in_step(plans@, waits, final(table)@, fed@),
{
    let n: usize = plans.len();
    let mut k: usize = 0;
    while k < order.len()
        invariant
            k <= order@.len(),
            n == plans@.len(),
            table@.len() == n,
            seated(plans@),
            calls_everyone(order@, n as int),
            forall|fork: int|
                0 <= fork < n ==> match #[trigger] table@[fork] {
                    Some(seat) => 1 <= seat <= n && plans@[seat - 1].first == fork,
                    None => forall|j: int|
                        0 <= j < k ==> plans@[(#[trigger] order@[j]) - 1].first != fork,
                },
        decreases order@.len() - k,
    {
        let seat: usize = order[k];
        let plan: Plan = plans[seat - 1];
        table.try_acquire(plan.first, seat);
        k = k + 1;
    }
    let ghost mid = table@;
    proof {
        assert forall|fork: int| 0 <= fork < n && mid[fork] is None implies (forall|i: int|
            0 <= i < n ==> (#[trigger] plans@[i]).first != fork) by {
            assert forall|i: int| 0 <= i < n implies (#[trigger] plans@[i]).first != fork by {
                assert(calls(order@, i + 1));
                let j = choose|j: int| 0 <= j < order@.len() && #[trigger] order@[j] == i + 1;
                assert(plans@[order@[j] - 1].first != fork);
            }
        }
        assert(first_wave(plans@, mid));
    }
    k = 0;
    while k < order.len()
        invariant
            k <= order@.len(),
            n == plans@.len(),
            table@.len() == n,
            mid.len() == n,
            seated(plans@),
            calls_everyone(order@, n as int),
            first_wave(plans@, mid),
            forall|fork: int|
                0 <= fork < n ==> match mid[fork] {
                    Some(seat) => #[trigger] table@[fork] == Some(seat),
                    None => match table@[fork] {
                        Some(seat) => 1 <= seat <= n && plans@[seat - 1].second == fork && holds(
                            mid,
                            seat,
                            plans@[seat - 1].first as int,
                        ),
                        None => forall|j: int|
                            0 <= j < k ==> !(plans@[(#[trigger] order@[j]) - 1].second == fork
                                && holds(mid, order@[j], plans@[order@[j] - 1].first as int)),
                    },
                },
        decreases order@.len() - k,
    {
        let seat: usize = order[k];
        let plan: Plan = plans[seat - 1];
        if table.holder(plan.first) == Some(seat) {
            assert(holds(mid, seat, plan.first as int));
            table.try_acquire(plan.second, seat);
        }
        k = k + 1;
    }
    let ghost after = table@;
    proof {
        assert forall|fork: int|
            0 <= fork < n && mid[fork] is None && after[fork] is None implies (forall|i: int|
            0 <= i < n ==> !((#[trigger] plans@[i]).second == fork && holds(
                mid,
                plans@[i].seat,
                plans@[i].first as int,
            ))) by {
            assert forall|i: int| 0 <= i < n implies !((#[trigger] plans@[i]).second == fork
                && holds(mid, plans@[i].seat, plans@[i].first as int)) by {
                assert(calls(order@, i + 1));
                let j = choose|j: int| 0 <= j < order@.len() && #[trigger] order@[j] == i + 1;
                assert(!(plans@[order@[j] - 1].second == fork && holds(
                    mid,
                    order@[j],
                    plans@[order@[j] - 1].first as int,
                )));
            }
        }
        assert(second_wave(plans@, mid, after));
    }
    let mut fed: Vec<bool> = Vec::new();
    let mut i: usize = 0;
    while i < n
        invariant
            i <= n,
            n == plans@.len(),
            table@ == after,
            after.len() == n,
            seated(plans@),
            fed@.len() == i,
            forall|j: int| 0 <= j < i ==> #[trigger] fed@[j] == holds_both(after, plans@[j]),
        decreases n - i,
    {
        let plan: Plan = plans[i];
        fed.push(table.holds_both(&plan));
        i = i + 1;
    }
    assert(fed_at(plans@, after, fed@));
    if !waits {
        i = 0;
        while i < n
            invariant
                i <= n,
                n == plans@.len(),
                table@.len() == n,
                after.len() == n,
                seated(plans@),
                first_wave(plans@, mid),
                second_wave(plans@, mid, after),
                fed_at(plans@, after, fed@),
                forall|fork: int|
                    0 <= fork < n ==> #[trigger] table@[fork] == match after[fork] {
                        Some(seat) => if seat <= i && !holds_both(after, plans@[seat - 1]) {
                            None
                        } else {
                            Some(seat)
                        },
                        None => None,
                    },
            decreases n - i,
        {
            let plan: Plan = plans[i];
            if !fed[i] {
                table.put_down(&plan);
            }
            i = i + 1;
        }
        assert(table@ =~= after_giving_up(plans@, after));
    }
    fed
}

} // verus!
