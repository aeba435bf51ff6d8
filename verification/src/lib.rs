//! Dining philosophers: the coordination logic of a table of philosophers who
//! share one fork with each neighbour, with the rules proved by Verus.
//!
//! The library decides; it never sleeps, locks or sends. A caller that owns the
//! threads, the clock and the channels hands in plain values (the time in
//! milliseconds, whether the forks were acquired, whether the kill switch is
//! on) and carries out what comes back.
//!
//! Time is a count of milliseconds on any clock that never runs backwards.

pub mod break_symmetry;
pub mod lockstep;
pub mod monitor;
pub mod resource_hierarchy;
pub mod sequential;
pub mod table;
pub mod two_forks;
pub mod wait_for;

use crate::table::{after_grab, after_put_down, after_reach, holds_both, pair_is_free, Plan, Table};
use rand::Rng;
use vstd::prelude::*;

verus! {

/// Number of philosophers at the default table.
pub const N_PHILOSOPHERS: usize = 5;

/// Maximum number of milliseconds a philosopher thinks or eats for.
pub const MAX_DURATION_MILLIS: u64 = 10;

/// Minimum number of milliseconds a philosopher thinks or eats for.
pub const MIN_DURATION_MILLIS: u64 = MAX_DURATION_MILLIS / 10;

/// A philosopher dies once hungry for longer than this many milliseconds.
pub const HUNGER_THRESHOLD_MILLIS: u64 = MAX_DURATION_MILLIS * 10;

/// How long a monitored run lasts, in seconds.
pub const RUN_TIME_SECONDS: u64 = 10;

/// What a philosopher is doing. Only `Hungry` carries a time: the moment the
/// hunger began.
#[derive(Eq, PartialEq, Copy, Clone, Debug, Structural)]
pub enum PhilosopherState {
    Eating,
    Hungry(u64),
    Thinking,
    Dead,
}

/// What a philosopher tells the monitor: who, and the state just entered.
#[derive(Eq, PartialEq, Copy, Clone, Debug, Structural)]
pub struct StateMsg {
    pub id: usize,
    pub state: PhilosopherState,
}

/// Milliseconds from `since` to `now`; zero when `now` is not later.
pub open spec fn elapsed_millis(since: u64, now: u64) -> int {
    if now >= since {
        now - since
    } else {
        0
    }
}

impl PhilosopherState {
    /// Hungry since strictly more than the threshold ago.
    pub open spec fn starved_at(self, now: u64) -> bool {
        self matches PhilosopherState::Hungry(since) && elapsed_millis(since, now)
            > HUNGER_THRESHOLD_MILLIS
    }

    /// The state once a spell of thinking ends at `now`: hunger begins, unless
    /// the philosopher is hungry already or dead.
    pub open spec fn after_think(self, now: u64) -> PhilosopherState {
        match self {
            PhilosopherState::Thinking | PhilosopherState::Eating => PhilosopherState::Hungry(now),
            PhilosopherState::Hungry(since) => PhilosopherState::Hungry(since),
            PhilosopherState::Dead => PhilosopherState::Dead,
        }
    }

    /// The state once a meal is over: back to thinking. Only who eats can
    /// have done with eating.
    pub open spec fn after_meal(self) -> PhilosopherState {
        match self {
            PhilosopherState::Eating => PhilosopherState::Thinking,
            other => other,
        }
    }

    /// The state after one attempt to get both forks, made at `now`.
    pub open spec fn after_attempt(self, acquired: bool, now: u64) -> PhilosopherState {
        match self {
            PhilosopherState::Hungry(since) => if acquired {
                PhilosopherState::Eating
            } else if self.starved_at(now) {
                PhilosopherState::Dead
            } else {
                PhilosopherState::Hungry(since)
            },
            other => other,
        }
    }

    /// Has the philosopher been hungry for longer than the threshold?
    pub fn has_starved(self, now: u64) -> (starved: bool)
        ensures
            starved == self.starved_at(now),
    {
        match self {
            PhilosopherState::Hungry(since) => now >= since && now - since
                > HUNGER_THRESHOLD_MILLIS,
            _ => false,
        }
    }

    /// A spell of thinking ends at `now`.
    pub fn think(self, now: u64) -> (next: PhilosopherState)
        ensures
            next == self.after_think(now),
    {
        match self {
            PhilosopherState::Thinking | PhilosopherState::Eating => PhilosopherState::Hungry(now),
            PhilosopherState::Hungry(since) => PhilosopherState::Hungry(since),
            PhilosopherState::Dead => PhilosopherState::Dead,
        }
    }

    /// The meal is over.
    pub fn rest(self) -> (next: PhilosopherState)
        ensures
            next == self.after_meal(),
    {
        match self {
            PhilosopherState::Eating => PhilosopherState::Thinking,
            other => other,
        }
    }

    /// One attempt to get both forks was made at `now`, and `acquired` says
    /// how it went.
    pub fn attempt(self, acquired: bool, now: u64) -> (next: PhilosopherState)
        ensures
            next == self.after_attempt(acquired, now),
    {
        match self {
            PhilosopherState::Hungry(since) => {
                if acquired {
                    PhilosopherState::Eating
                } else if self.has_starved(now) {
                    PhilosopherState::Dead
                } else {
                    PhilosopherState::Hungry(since)
                }
            },
            other => other,
        }
    }
}

/// What happens to a philosopher: a spell of thinking ends at a time, an
/// attempt at the forks is made at a time and succeeds or fails, or a meal
/// is over.
pub enum Turn {
    Thought(u64),
    Tried(bool, u64),
    Rested,
}

/// The state after one turn.
pub open spec fn after_turn(state: PhilosopherState, turn: Turn) -> PhilosopherState {
    match turn {
        Turn::Thought(now) => state.after_think(now),
        Turn::Tried(acquired, now) => state.after_attempt(acquired, now),
        Turn::Rested => state.after_meal(),
    }
}

/// The state after the turns, taken one after the other.
pub open spec fn after_turns(state: PhilosopherState, turns: Seq<Turn>) -> PhilosopherState
    decreases turns.len(),
{
    if turns.len() == 0 {
        state
    } else {
        after_turn(after_turns(state, turns.drop_last()), turns.last())
    }
}

/// No turn moves the time since which a philosopher is hungry: a philosopher
/// that is hungry before a turn and hungry after it is hungry since the same
/// moment. The time goes only when the philosopher eats or dies, and a new
/// one comes only to a philosopher that was not hungry.
pub proof fn lemma_turn_keeps_hunger(state: PhilosopherState, turn: Turn)
    ensures
        state matches PhilosopherState::Hungry(since) ==> {
            ||| after_turn(state, turn) == PhilosopherState::Hungry(since)
            ||| after_turn(state, turn) == PhilosopherState::Eating
            ||| after_turn(state, turn) == PhilosopherState::Dead
        },
        state matches PhilosopherState::Hungry(since) ==> (after_turn(state, turn)
            == PhilosopherState::Eating <==> turn matches Turn::Tried(true, _)),
        state == PhilosopherState::Dead ==> after_turn(state, turn) == PhilosopherState::Dead,
{
}

/// Through any run of failed attempts, and of calls to think in between, a
/// hungry philosopher stays hungry since the moment its hunger began, up to
/// its death: whatever the times of the attempts, none of them takes the
/// place of that moment.
pub proof fn lemma_failed_attempts_keep_hunger(since: u64, turns: Seq<Turn>)
    requires
        forall|k: int| 0 <= k < turns.len() ==> !(#[trigger] turns[k] matches Turn::Tried(true, _)),
    ensures
        after_turns(PhilosopherState::Hungry(since), turns) == PhilosopherState::Hungry(since)
            || after_turns(PhilosopherState::Hungry(since), turns) == PhilosopherState::Dead,
    decreases turns.len(),
{
    if turns.len() > 0 {
        let before = turns.drop_last();
        assert forall|k: int| 0 <= k < before.len() implies !(#[trigger] before[k] matches Turn::Tried(
            true,
            _,
        )) by {
            assert(before[k] == turns[k]);
        }
        lemma_failed_attempts_keep_hunger(since, before);
        lemma_turn_keeps_hunger(after_turns(PhilosopherState::Hungry(since), before), turns.last());
    }
}

/// A hungry philosopher dies of a failed attempt exactly when the attempt is
/// made more than the threshold after its hunger began, and it is dead for
/// good.
pub proof fn lemma_starves_past_threshold(since: u64, now: u64)
    ensures
        PhilosopherState::Hungry(since).after_attempt(false, now) == PhilosopherState::Dead <==> now
            > since + HUNGER_THRESHOLD_MILLIS,
{
}

/// What goes to the monitor when a philosopher's state changes from `before`
/// to `after`: the new state where a hungry philosopher began to eat or died,
/// and nothing otherwise.
pub open spec fn report_of(id: usize, before: PhilosopherState, after: PhilosopherState) -> Option<
    StateMsg,
> {
    if before is Hungry && (after is Eating || after is Dead) {
        Some(StateMsg { id, state: after })
    } else {
        None
    }
}

/// The report of a change from `before` to `after`, for the monitor.
pub fn report(id: usize, before: PhilosopherState, after: PhilosopherState) -> (msg: Option<
    StateMsg,
>)
    ensures
        msg == report_of(id, before, after),
{
    match (before, after) {
        (PhilosopherState::Hungry(_), PhilosopherState::Eating) => Some(
            StateMsg { id, state: after },
        ),
        (PhilosopherState::Hungry(_), PhilosopherState::Dead) => Some(
            StateMsg { id, state: after },
        ),
        _ => None,
    }
}

/// The length of a spell of thinking or eating: the maximum where durations
/// are fixed, the number drawn where they are random.
pub open spec fn duration_of(random: bool, drawn: u64) -> u64 {
    if random {
        drawn
    } else {
        MAX_DURATION_MILLIS
    }
}

/// The table after one attempt at the forks of `plan`, by a philosopher who
/// waits for a taken fork or by one who does not.
pub open spec fn after_pick_up(holders: Seq<Option<usize>>, plan: Plan, waits: bool) -> Seq<
    Option<usize>,
> {
    if waits {
        after_reach(holders, plan)
    } else {
        after_grab(holders, plan)
    }
}

/// Whether that attempt leaves the philosopher with both forks to eat with.
pub open spec fn picks_up(holders: Seq<Option<usize>>, plan: Plan, waits: bool) -> bool {
    if waits {
        holds_both(after_reach(holders, plan), plan)
    } else {
        pair_is_free(holders, plan)
    }
}

/// The table after a hungry philosopher's round, whose attempt was made on
/// `holders`: a philosopher who dies lets go of what it holds.
pub open spec fn after_round(
    holders: Seq<Option<usize>>,
    plan: Plan,
    waits: bool,
    state: PhilosopherState,
    now: u64,
) -> Seq<Option<usize>> {
    if !(state is Hungry) {
        holders
    } else if state.after_attempt(picks_up(holders, plan, waits), now) is Dead {
        after_put_down(after_pick_up(holders, plan, waits), plan)
    } else {
        after_pick_up(holders, plan, waits)
    }
}

/// `rand::Rng::gen_range` on the generator of `rand::thread_rng`, asked for a
/// number of the half-open range from `low` to `high`. The range must not be
/// empty, or the call panics. What comes back lies in the range; which number
/// it is, nothing here says. (Where the system cannot seed the generator, the
/// call panics.)
#[verifier::external_body]
fn draw_millis(low: u64, high: u64) -> (drawn: u64)
    requires
        low < high,
    ensures
        low <= drawn < high,
{
    rand::thread_rng().gen_range(low..high)
}

/// The length of a spell, given the number that was drawn for it.
pub fn duration_from(random: bool, drawn: u64) -> (millis: u64)
    ensures
        millis == duration_of(random, drawn),
{
    if random {
        drawn
    } else {
        MAX_DURATION_MILLIS
    }
}

/// A philosopher at the table, whatever its way with the forks.
///
/// A philosopher thinks, grows hungry, tries for its two forks, and eats or
/// goes on trying; one that stays hungry for too long dies. The ways differ
/// in the order of the two forks and in whether the philosopher waits for a
/// fork that is taken.
pub trait Diner: Sized {
    /// The seat, counted from 1.
    spec fn id(&self) -> usize;

    /// What the philosopher is doing.
    spec fn state(&self) -> PhilosopherState;

    /// The philosopher's two forks, in the order in which it reaches for them.
    spec fn plan(&self) -> Plan;

    /// Whether the philosopher waits for a fork that is taken, holding on to
    /// the one it has.
    spec fn waits(&self) -> bool;

    /// Whether the philosopher's spells are of random length.
    spec fn random(&self) -> bool;

    /// What the philosopher is doing.
    fn current_state(&self) -> (state: PhilosopherState)
        ensures
            state == self.state(),
    ;

    /// The seat, counted from 1.
    fn seat(&self) -> (id: usize)
        ensures
            id == self.id(),
    ;

    /// The philosopher's two forks, in the order in which it reaches for
    /// them.
    fn forks(&self) -> (plan: Plan)
        ensures
            plan == self.plan(),
    ;

    /// Whether the philosopher waits for a fork that is taken.
    fn waits_for_forks(&self) -> (waits: bool)
        ensures
            waits == self.waits(),
    ;

    /// Whether the philosopher's spells are of random length.
    fn is_random(&self) -> (random: bool)
        ensures
            random == self.random(),
    ;

    /// The spell of thinking is over at `now`: the philosopher is hungry
    /// from then on. One that is hungry already stays hungry since when it
    /// was, and the dead stay dead.
    fn think(&mut self, now: u64)
        ensures
            final(self).state() == old(self).state().after_think(now),
            final(self).id() == old(self).id(),
            final(self).plan() == old(self).plan(),
            final(self).waits() == old(self).waits(),
            final(self).random() == old(self).random(),
    ;

    /// The hungry philosopher has tried for its forks at `now`. With both
    /// forks it eats. Without them it dies if it has starved, and otherwise
    /// stays hungry since when it was. What is returned goes to the monitor.
    fn eat(&mut self, acquired: bool, now: u64) -> (report: Option<StateMsg>)
        ensures
            final(self).state() == old(self).state().after_attempt(acquired, now),
            report == report_of(old(self).id(), old(self).state(), final(self).state()),
            final(self).id() == old(self).id(),
            final(self).plan() == old(self).plan(),
            final(self).waits() == old(self).waits(),
            final(self).random() == old(self).random(),
    ;

    /// The meal is over: the philosopher who ate goes back to thinking.
    fn rest(&mut self)
        ensures
            final(self).state() == old(self).state().after_meal(),
            final(self).id() == old(self).id(),
            final(self).plan() == old(self).plan(),
            final(self).waits() == old(self).waits(),
            final(self).random() == old(self).random(),
    ;

    /// The message that tells the monitor of the present state. The sending
    /// is the caller's.
    fn send_state(&self) -> (msg: StateMsg)
        ensures
            msg == (StateMsg { id: self.id(), state: self.state() }),
    {
        StateMsg { id: self.seat(), state: self.current_state() }
    }

    /// Whether the cycle of thinking and eating goes on: it ends when the
    /// philosopher is dead or the kill switch is on.
    fn keeps_running(&self, kill_switch_active: bool) -> (running: bool)
        ensures
            running == (!(self.state() is Dead) && !kill_switch_active),
    {
        self.current_state() != PhilosopherState::Dead && !kill_switch_active
    }

    /// Has the philosopher been hungry for longer than the maximum time?
    fn has_starved_to_death(&self, now: u64) -> (starved: bool)
        ensures
            starved == self.state().starved_at(now),
    {
        self.current_state().has_starved(now)
    }

    /// How long to eat or think for, in milliseconds: the maximum, or with
    /// `random` a number from the minimum up to but not including the
    /// maximum.
    fn generate_duration(random: bool) -> (millis: u64)
        ensures
            !random ==> millis == MAX_DURATION_MILLIS,
            random ==> MIN_DURATION_MILLIS <= millis < MAX_DURATION_MILLIS,
    {
        if random {
            duration_from(random, draw_millis(MIN_DURATION_MILLIS, MAX_DURATION_MILLIS))
        } else {
            duration_from(random, MAX_DURATION_MILLIS)
        }
    }

    /// How long this philosopher's next spell of thinking or eating lasts,
    /// in milliseconds. The sleeping is the caller's.
    fn sleep(&self) -> (millis: u64)
        ensures
            !self.random() ==> millis == MAX_DURATION_MILLIS,
            self.random() ==> MIN_DURATION_MILLIS <= millis < MAX_DURATION_MILLIS,
    {
        Self::generate_duration(self.is_random())
    }

    /// One attempt at the forks on `table`, in this philosopher's way. Says
    /// whether the philosopher has both forks to eat with.
    fn pick_up(&self, table: &mut Table) -> (acquired: bool)
        requires
            self.plan().first < old(table)@.len(),
            self.plan().second < old(table)@.len(),
        ensures
            final(table)@ == after_pick_up(old(table)@, self.plan(), self.waits()),
            acquired == picks_up(old(table)@, self.plan(), self.waits()),
    {
        let plan = self.forks();
        if self.waits_for_forks() {
            table.reach(&plan)
        } else {
            table.grab_pair(&plan)
        }
    }

    /// The philosopher lays down whatever it holds of its forks.
    fn put_down(&self, table: &mut Table)
        requires
            self.plan().first < old(table)@.len(),
            self.plan().second < old(table)@.len(),
        ensures
            final(table)@ == after_put_down(old(table)@, self.plan()),
    {
        let plan = self.forks();
        table.put_down(&plan);
    }

    /// The philosopher who ate lays down its forks and goes back to
    /// thinking. Any other philosopher does nothing.
    fn rise(&mut self, table: &mut Table)
        requires
            old(self).plan().first < old(table)@.len(),
            old(self).plan().second < old(table)@.len(),
        ensures
            final(self).state() == old(self).state().after_meal(),
            final(table)@ == if old(self).state() is Eating {
                after_put_down(old(table)@, old(self).plan())
            } else {
                old(table)@
            },
            final(self).id() == old(self).id(),
            final(self).plan() == old(self).plan(),
            final(self).waits() == old(self).waits(),
            final(self).random() == old(self).random(),
    {
        if self.current_state() == PhilosopherState::Eating {
            self.put_down(table);
            self.rest();
        }
    }

    /// One round of a hungry philosopher at `table`: it tries for its forks
    /// and eats, dies or stays hungry by what it got. One that dies lets go
    /// of its forks. A philosopher that is not hungry does nothing.
    fn dine(&mut self, table: &mut Table, now: u64) -> (report: Option<StateMsg>)
        requires
            old(self).plan().first < old(table)@.len(),
            old(self).plan().second < old(table)@.len(),
        ensures
            final(self).state() == if old(self).state() is Hungry {
                old(self).state().after_attempt(
                    picks_up(old(table)@, old(self).plan(), old(self).waits()),
                    now,
                )
            } else {
                old(self).state()
            },
            report == report_of(old(self).id(), old(self).state(), final(self).state()),
            final(table)@ == after_round(
                old(table)@,
                old(self).plan(),
                old(self).waits(),
                old(self).state(),
                now,
            ),
            final(self).id() == old(self).id(),
            final(self).plan() == old(self).plan(),
            final(self).waits() == old(self).waits(),
            final(self).random() == old(self).random(),
    {
        match self.current_state() {
            PhilosopherState::Hungry(_) => {
                let acquired = self.pick_up(table);
                let report = self.eat(acquired, now);
                if self.current_state() == PhilosopherState::Dead {
                    self.put_down(table);
                }
                report
            },
            _ => None,
        }
    }
}

} // verus!
