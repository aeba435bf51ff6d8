//! The forks and the table they lie on.
//!
//! A fork is held by at most one philosopher at a time. The table is a ring:
//! with `n` seats numbered from 1, the philosopher at seat `i` has fork
//! `i - 1` on the left and fork `i mod n` on the right, so each fork lies
//! between two neighbours.
//!
//! The table is seen as the sequence of its forks' holders.

use vstd::prelude::*;

verus! {

/// One fork: free, or held by the philosopher whose seat it records.
#[derive(Eq, PartialEq, Copy, Clone, Debug, Structural)]
pub struct Fork {
    holder: Option<usize>,
}

impl View for Fork {
    type V = Option<usize>;

    closed spec fn view(&self) -> Option<usize> {
        self.holder
    }
}

impl Fork {
    /// A fork that nobody holds.
    pub fn new() -> (fork: Fork)
        ensures
            fork@ is None,
    {
        Fork { holder: None }
    }

    /// Who holds the fork, if anybody.
    pub fn holder(&self) -> (holder: Option<usize>)
        ensures
            holder == self@,
    {
        self.holder
    }

    /// Takes the fork if it is free and says whether it did. Never waits.
    pub fn try_acquire(&mut self, seat: usize) -> (acquired: bool)
        ensures
            acquired == (old(self)@ is None),
            acquired ==> final(self)@ == Some(seat),
            !acquired ==> final(self)@ == old(self)@,
    {
        match self.holder {
            None => {
                self.holder = Some(seat);
                true
            },
            Some(_) => false,
        }
    }

    /// Takes a free fork. A philosopher who waits for a fork gets here when
    /// the fork has become free, and no sooner.
    pub fn acquire(&mut self, seat: usize)
        requires
            old(self)@ is None,
        ensures
            final(self)@ == Some(seat),
    {
        self.holder = Some(seat);
    }

    /// Puts the fork down if `seat` holds it; another's fork stays as it is.
    pub fn release(&mut self, seat: usize)
        ensures
            final(self)@ == if old(self)@ == Some(seat) {
                None
            } else {
                old(self)@
            },
    {
        match self.holder {
            Some(holder) => {
                if holder == seat {
                    self.holder = None;
                }
            },
            None => {},
        }
    }
}

/// The two forks of one seat, in the order in which its philosopher reaches
/// for them.
#[derive(Eq, PartialEq, Copy, Clone, Debug, Structural)]
pub struct Plan {
    pub seat: usize,
    pub first: usize,
    pub second: usize,
}

/// The fork on the left of `seat` at a table of `n`.
pub open spec fn left_fork_of(seat: int, n: int) -> int {
    seat - 1
}

/// The fork on the right of `seat` at a table of `n`: the last seat has the
/// first fork on its right.
pub open spec fn right_fork_of(seat: int, n: int) -> int {
    if seat == n {
        0
    } else {
        seat
    }
}

/// `seat` holds fork `fork`.
pub open spec fn holds(holders: Seq<Option<usize>>, seat: usize, fork: int) -> bool {
    0 <= fork < holders.len() && holders[fork] == Some(seat)
}

/// Nobody holds fork `fork`.
pub open spec fn is_free(holders: Seq<Option<usize>>, fork: int) -> bool {
    0 <= fork < holders.len() && holders[fork] is None
}

/// The seat of `plan` holds both its forks.
pub open spec fn holds_both(holders: Seq<Option<usize>>, plan: Plan) -> bool {
    holds(holders, plan.seat, plan.first as int) && holds(holders, plan.seat, plan.second as int)
}

/// A table of `n` forks that nobody holds.
pub open spec fn all_free(n: nat) -> Seq<Option<usize>> {
    Seq::new(n, |fork: int| None::<usize>)
}

/// The table after fork `fork` was taken by `seat`, if it was free.
pub open spec fn after_try(holders: Seq<Option<usize>>, fork: int, seat: usize) -> Seq<
    Option<usize>,
> {
    if is_free(holders, fork) {
        holders.update(fork, Some(seat))
    } else {
        holders
    }
}

/// The table after `seat` put fork `fork` down, if it held it.
pub open spec fn after_release(holders: Seq<Option<usize>>, fork: int, seat: usize) -> Seq<
    Option<usize>,
> {
    if holds(holders, seat, fork) {
        holders.update(fork, None)
    } else {
        holders
    }
}

/// The table after a philosopher who waits for forks made one step of
/// `plan`: the first fork if it does not hold it yet, else the second; and
/// nothing where the fork in turn is taken.
pub open spec fn after_reach(holders: Seq<Option<usize>>, plan: Plan) -> Seq<Option<usize>> {
    if !holds(holders, plan.seat, plan.first as int) {
        after_try(holders, plan.first as int, plan.seat)
    } else {
        after_try(holders, plan.second as int, plan.seat)
    }
}

/// Both forks of `plan` are free, and they are two forks.
pub open spec fn pair_is_free(holders: Seq<Option<usize>>, plan: Plan) -> bool {
    is_free(holders, plan.first as int) && is_free(holders, plan.second as int) && plan.first
        != plan.second
}

/// The table after a philosopher who does not wait tried for both forks of
/// `plan`: both or none.
pub open spec fn after_grab(holders: Seq<Option<usize>>, plan: Plan) -> Seq<Option<usize>> {
    if pair_is_free(holders, plan) {
        holders.update(plan.first as int, Some(plan.seat)).update(
            plan.second as int,
            Some(plan.seat),
        )
    } else {
        holders
    }
}

/// The table after the seat of `plan` put down whatever it held of its two
/// forks.
pub open spec fn after_put_down(holders: Seq<Option<usize>>, plan: Plan) -> Seq<Option<usize>> {
    after_release(
        after_release(holders, plan.first as int, plan.seat),
        plan.second as int,
        plan.seat,
    )
}

/// The fork on the left of `seat`, as the ring is laid.
pub fn left_fork(seat: usize, n: usize) -> (fork: usize)
    requires
        1 <= seat <= n,
    ensures
        fork == left_fork_of(seat as int, n as int),
        fork < n,
{
    proof {
        vstd::arithmetic::div_mod::lemma_small_mod((seat - 1) as nat, n as nat);
    }
    (seat - 1) % n
}

/// The fork on the right of `seat`, as the ring is laid.
pub fn right_fork(seat: usize, n: usize) -> (fork: usize)
    requires
        1 <= seat <= n,
    ensures
        fork == right_fork_of(seat as int, n as int),
        fork < n,
{
    proof {
        if seat == n {
            vstd::arithmetic::div_mod::lemma_mod_self_0(n as int);
        } else {
            vstd::arithmetic::div_mod::lemma_small_mod(seat as nat, n as nat);
        }
    }
    seat % n
}

/// The ring of forks.
pub struct Table {
    forks: Vec<Fork>,
}

impl View for Table {
    type V = Seq<Option<usize>>;

    closed spec fn view(&self) -> Seq<Option<usize>> {
        Seq::new(self.forks@.len(), |fork: int| self.forks@[fork]@)
    }
}

impl Table {
    /// Lays a table of `n` forks, all free.
    pub fn new(n: usize) -> (table: Table)
        ensures
            table@ == all_free(n as nat),
    {
        let mut forks: Vec<Fork> = Vec::new();
        let mut laid: usize = 0;
        while laid < n
            invariant
                laid <= n,
                forks@.len() == laid,
                forall|fork: int| 0 <= fork < laid ==> (#[trigger] forks@[fork])@ is None,
            decreases n - laid,
        {
            forks.push(Fork::new());
            laid = laid + 1;
        }
        let table = Table { forks };
        assert(table@ =~= all_free(n as nat));
        table
    }

    /// How many forks lie on the table.
    pub fn len(&self) -> (n: usize)
        ensures
            n == self@.len(),
    {
        self.forks.len()
    }

    /// Who holds fork `fork`, if anybody.
    pub fn holder(&self, fork: usize) -> (holder: Option<usize>)
        requires
            fork < self@.len(),
        ensures
            holder == self@[fork as int],
    {
        self.forks[fork].holder()
    }

    /// Whether `plan`'s seat holds both its forks.
    pub fn holds_both(&self, plan: &Plan) -> (both: bool)
        requires
            plan.first < self@.len(),
            plan.second < self@.len(),
        ensures
            both == holds_both(self@, *plan),
    {
        self.holder(plan.first) == Some(plan.seat) && self.holder(plan.second) == Some(plan.seat)
    }

    /// Takes fork `fork` for `seat` if it is free and says whether it did.
    /// Never waits.
    pub fn try_acquire(&mut self, fork: usize, seat: usize) -> (acquired: bool)
        requires
            fork < old(self)@.len(),
        ensures
            acquired == is_free(old(self)@, fork as int),
            final(self)@ == after_try(old(self)@, fork as int, seat),
    {
        let mut taken: Fork = self.forks[fork];
        let acquired = taken.try_acquire(seat);
        self.forks.set(fork, taken);
        assert(self@ =~= after_try(old(self)@, fork as int, seat));
        acquired
    }

    /// Takes the free fork `fork` for `seat`.
    pub fn acquire(&mut self, fork: usize, seat: usize)
        requires
            is_free(old(self)@, fork as int),
        ensures
            final(self)@ == old(self)@.update(fork as int, Some(seat)),
    {
        let mut taken: Fork = self.forks[fork];
        taken.acquire(seat);
        self.forks.set(fork, taken);
        assert(self@ =~= old(self)@.update(fork as int, Some(seat)));
    }

    /// Puts fork `fork` down if `seat` holds it.
    pub fn release(&mut self, fork: usize, seat: usize)
        requires
            fork < old(self)@.len(),
        ensures
            final(self)@ == after_release(old(self)@, fork as int, seat),
    {
        let mut held: Fork = self.forks[fork];
        held.release(seat);
        self.forks.set(fork, held);
        assert(self@ =~= after_release(old(self)@, fork as int, seat));
    }

    /// One step of a philosopher who waits for forks: takes the next fork of
    /// `plan` if it is free. Says whether the seat now holds both.
    pub fn reach(&mut self, plan: &Plan) -> (both: bool)
        requires
            plan.first < old(self)@.len(),
            plan.second < old(self)@.len(),
        ensures
            final(self)@ == after_reach(old(self)@, *plan),
            both == holds_both(final(self)@, *plan),
    {
        if self.holder(plan.first) == Some(plan.seat) {
            self.try_acquire(plan.second, plan.seat);
        } else {
            self.try_acquire(plan.first, plan.seat);
        }
        self.holds_both(plan)
    }

    /// One attempt of a philosopher who does not wait: tries for the first
    /// fork and then the second, and puts down at once what it got unless it
    /// got both. Says whether it got both.
    pub fn grab_pair(&mut self, plan: &Plan) -> (acquired: bool)
        requires
            plan.first < old(self)@.len(),
            plan.second < old(self)@.len(),
        ensures
            acquired == pair_is_free(old(self)@, *plan),
            final(self)@ == after_grab(old(self)@, *plan),
    {
        let got_first = self.try_acquire(plan.first, plan.seat);
        let got_second = self.try_acquire(plan.second, plan.seat);
        if got_first && got_second {
            true
        } else {
            if got_first {
                self.release(plan.first, plan.seat);
            }
            if got_second {
                self.release(plan.second, plan.seat);
            }
            assert(self@ =~= old(self)@);
            false
        }
    }

    /// The seat of `plan` puts down whatever it holds of its two forks.
    pub fn put_down(&mut self, plan: &Plan)
        requires
            plan.first < old(self)@.len(),
            plan.second < old(self)@.len(),
        ensures
            final(self)@ == after_put_down(old(self)@, *plan),
    {
        self.release(plan.first, plan.seat);
        self.release(plan.second, plan.seat);
    }
}

} // verus!
