//! The monitor of a run: it counts the meals that the philosophers report,
//! ends the run at the first death, and ends it when the time is up.
//!
//! The monitor is seen as the sequence of the meal counts, the count of seat
//! `i` at index `i - 1`.

use crate::{PhilosopherState, StateMsg, RUN_TIME_SECONDS};
use vstd::prelude::*;

verus! {

/// What the monitor found when it looked for a message.
#[derive(Eq, PartialEq, Copy, Clone, Debug, Structural)]
pub enum Inbox {
    /// A philosopher's message.
    Message(StateMsg),
    /// No message is waiting.
    Empty,
    /// No philosopher is left who could send one.
    Disconnected,
}

/// What the monitor does next.
#[derive(Eq, PartialEq, Copy, Clone, Debug, Structural)]
pub enum Verdict {
    /// The run goes on.
    Continue,
    /// The run ends: the philosopher of this seat has starved.
    Starved(usize),
    /// The run ends: the philosophers are gone.
    Disconnected,
}

/// The sum of the counts.
pub open spec fn total(meals: Seq<u64>) -> nat
    decreases meals.len(),
{
    if meals.len() == 0 {
        0
    } else {
        total(meals.drop_last()) + meals.last() as nat
    }
}

/// The counts after what was found in the inbox: a philosopher who reports
/// that it eats has one meal more, and nothing else counts.
pub open spec fn after_inbox(meals: Seq<u64>, inbox: Inbox) -> Seq<u64> {
    match inbox {
        Inbox::Message(StateMsg { id, state: PhilosopherState::Eating }) => meals.update(
            id - 1,
            (meals[id - 1] + 1) as u64,
        ),
        _ => meals,
    }
}

/// What the monitor does after what was found in the inbox: it ends the run
/// at a death and when the philosophers are gone.
pub open spec fn verdict_on(inbox: Inbox) -> Verdict {
    match inbox {
        Inbox::Message(StateMsg { id, state: PhilosopherState::Dead }) => Verdict::Starved(id),
        Inbox::Message(_) => Verdict::Continue,
        Inbox::Empty => Verdict::Continue,
        Inbox::Disconnected => Verdict::Disconnected,
    }
}

/// The run lasts while fewer seconds have passed than it is given.
pub fn time_is_left(elapsed_seconds: u64) -> (left: bool)
    ensures
        left == (elapsed_seconds < RUN_TIME_SECONDS),
{
    elapsed_seconds < RUN_TIME_SECONDS
}

/// Counts the meals of each seat.
pub struct Monitor {
    meals_eaten: Vec<u64>,
}

impl View for Monitor {
    type V = Seq<u64>;

    closed spec fn view(&self) -> Seq<u64> {
        self.meals_eaten@
    }
}

impl Monitor {
    /// A monitor for a table of `n` seats, with no meal counted yet.
    pub fn new(n: usize) -> (monitor: Monitor)
        ensures
            monitor@ == Seq::new(n as nat, |seat: int| 0u64),
    {
        let mut meals_eaten: Vec<u64> = Vec::new();
        let mut seats: usize = 0;
        while seats < n
            invariant
                seats <= n,
                meals_eaten@.len() == seats,
                forall|seat: int| 0 <= seat < seats ==> meals_eaten@[seat] == 0,
            decreases n - seats,
        {
            meals_eaten.push(0);
            seats = seats + 1;
        }
        assert(meals_eaten@ =~= Seq::new(n as nat, |seat: int| 0u64));
        Monitor { meals_eaten }
    }

    /// The number of seats.
    pub fn seats(&self) -> (n: usize)
        ensures
            n == self@.len(),
    {
        self.meals_eaten.len()
    }

    /// Takes in what was found in the inbox and says what to do next. A meal
    /// is counted for the seat that reports it, which must be a seat of the
    /// table.
    pub fn record(&mut self, inbox: Inbox) -> (verdict: Verdict)
        requires
            inbox matches Inbox::Message(StateMsg { id, state: PhilosopherState::Eating }) ==> 1
                <= id <= old(self)@.len() && old(self)@[id - 1] < u64::MAX,
        ensures
            final(self)@ == after_inbox(old(self)@, inbox),
            verdict == verdict_on(inbox),
    {
        match inbox {
            Inbox::Message(msg) => match msg.state {
                PhilosopherState::Eating => {
                    let meals: u64 = self.meals_eaten[msg.id - 1];
                    self.meals_eaten.set(msg.id - 1, meals + 1);
                    Verdict::Continue
                },
                PhilosopherState::Dead => Verdict::Starved(msg.id),
                _ => Verdict::Continue,
            },
            Inbox::Empty => Verdict::Continue,
            Inbox::Disconnected => Verdict::Disconnected,
        }
    }

    /// The meals counted for seat `id`.
    pub fn meals_eaten(&self, id: usize) -> (meals: u64)
        requires
            1 <= id <= self@.len(),
        ensures
            meals == self@[id - 1],
    {
        self.meals_eaten[id - 1]
    }

    /// The meals counted for all seats together.
    pub fn total_meals(&self) -> (meals: u128)
        ensures
            meals == total(self@),
    {
        let mut meals: u128 = 0;
        let mut seat: usize = 0;
        while seat < self.meals_eaten.len()
            invariant
                seat <= self.meals_eaten@.len(),
                meals == total(self.meals_eaten@.take(seat as int)),
                meals <= seat * u64::MAX,
            decreases self.meals_eaten@.len() - seat,
        {
            proof {
                let upto = self.meals_eaten@.take(seat as int + 1);
                assert(upto.drop_last() =~= self.meals_eaten@.take(seat as int));
                assert((seat + 1) * u64::MAX == seat * u64::MAX + u64::MAX) by (nonlinear_arith);
                assert(seat * u64::MAX <= usize::MAX * u64::MAX) by (nonlinear_arith)
                    requires
                        seat <= usize::MAX,
                ;
            }
            meals = meals + self.meals_eaten[seat] as u128;
            seat = seat + 1;
        }
        assert(self.meals_eaten@.take(seat as int) =~= self.meals_eaten@);
        meals
    }
}

} // verus!
