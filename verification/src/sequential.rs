//! One at a time: a coordinator goes round the table in a fixed order and
//! tells one philosopher after the other to eat. A philosopher who is told to
//! eat makes exactly one attempt at both forks, without waiting, and answers
//! when it is done; only then does the coordinator turn to the next. So at any
//! moment at most one philosopher is trying for forks.
//!
//! The order of the visits keeps neighbours apart: no two philosophers who
//! share a fork are visited one right after the other.

use crate::table::{left_fork, left_fork_of, right_fork, right_fork_of, Plan};
use crate::{report, report_of, Diner, PhilosopherState, StateMsg};
use vstd::prelude::*;

verus! {

/// A philosopher who tries for both forks when told to.
pub struct Philosopher {
    id: usize,
    state: PhilosopherState,
    left_fork: usize,
    right_fork: usize,
    random: bool,
}

impl Philosopher {
    /// A philosopher at seat `id`, thinking, between the forks `left_fork`
    /// and `right_fork`.
    pub fn new(id: usize, left_fork: usize, right_fork: usize, random: bool) -> (philosopher:
        Philosopher)
        ensures
            philosopher.id() == id,
            philosopher.state() == PhilosopherState::Thinking,
            philosopher.plan() == (Plan { seat: id, first: left_fork, second: right_fork }),
            !philosopher.waits(),
            philosopher.random() == random,
    {
        Philosopher { id, state: PhilosopherState::Thinking, left_fork, right_fork, random }
    }

    /// Carries out a command of the coordinator. Told to eat, the philosopher
    /// has made its one attempt at `now`, and `acquired` says whether it got
    /// both forks: it eats, dies or stays hungry as after any attempt. Told to
    /// stop, it changes nothing. The reply holds what goes to the monitor, and
    /// whether the philosopher is done: it was told to stop, or it died.
    pub fn obey(&mut self, command: PhilosopherCommand, acquired: bool, now: u64) -> (reply: Reply)
        ensures
            final(self).state() == after_command(old(self).state(), command, acquired, now),
            reply.report == report_of(old(self).id(), old(self).state(), final(self).state()),
            reply.stopped == (command == PhilosopherCommand::Stop || final(self).state() is Dead),
            final(self).id() == old(self).id(),
            final(self).plan() == old(self).plan(),
            final(self).waits() == old(self).waits(),
            final(self).random() == old(self).random(),
    {
        match command {
            PhilosopherCommand::Eat => {
                let report = self.eat(acquired, now);
                Reply { report, stopped: self.state == PhilosopherState::Dead }
            },
            PhilosopherCommand::Stop => Reply { report: None, stopped: true },
        }
    }
}

/// What the coordinator tells a philosopher.
#[derive(Eq, PartialEq, Copy, Clone, Debug, Structural)]
pub enum PhilosopherCommand {
    Eat,
    Stop,
}

/// A philosopher's answer to a command.
#[derive(Eq, PartialEq, Copy, Clone, Debug, Structural)]
pub struct Reply {
    pub report: Option<StateMsg>,
    pub stopped: bool,
}

/// The state of a philosopher after a command.
pub open spec fn after_command(
    state: PhilosopherState,
    command: PhilosopherCommand,
    acquired: bool,
    now: u64,
) -> PhilosopherState {
    match command {
        PhilosopherCommand::Eat => state.after_attempt(acquired, now),
        PhilosopherCommand::Stop => state,
    }
}

/// The forks of `seat` at a table of `n`, left before right.
pub open spec fn plan_at(seat: usize, n: usize) -> Plan {
    Plan {
        seat,
        first: left_fork_of(seat as int, n as int) as usize,
        second: right_fork_of(seat as int, n as int) as usize,
    }
}

/// Seats `n` philosophers round a table, each thinking, between the fork on
/// its left and the fork on its right. The philosopher of seat `i` stands at
/// index `i - 1`.
pub fn seat_philosophers(n: usize, random: bool) -> (philosophers: Vec<Philosopher>)
    ensures
        philosophers@.len() == n,
        forall|k: int|
            0 <= k < n ==> {
                &&& (#[trigger] philosophers@[k]).id() == k + 1
                &&& philosophers@[k].state() == PhilosopherState::Thinking
                &&& philosophers@[k].plan() == plan_at((k + 1) as usize, n)
                &&& !philosophers@[k].waits()
                &&& philosophers@[k].random() == random
            },
{
    let mut philosophers: Vec<Philosopher> = Vec::new();
    let mut seated: usize = 0;
    while seated < n
        invariant
            seated <= n,
            philosophers@.len() == seated,
            forall|k: int|
                0 <= k < seated ==> {
                    &&& (#[trigger] philosophers@[k]).id() == k + 1
                    &&& philosophers@[k].state() == PhilosopherState::Thinking
                    &&& philosophers@[k].plan() == plan_at((k + 1) as usize, n)
                    &&& !philosophers@[k].waits()
                    &&& philosophers@[k].random() == random
                },
        decreases n - seated,
    {
        let seat: usize = seated + 1;
        philosophers.push(
            Philosopher::new(seat, left_fork(seat, n), right_fork(seat, n), random),
        );
        seated = seat;
    }
    philosophers
}

impl Diner for Philosopher {
    closed spec fn id(&self) -> usize {
        self.id
    }

    closed spec fn state(&self) -> PhilosopherState {
        self.state
    }

    closed spec fn plan(&self) -> Plan {
        Plan { seat: self.id, first: self.left_fork, second: self.right_fork }
    }

    closed spec fn waits(&self) -> bool {
        false
    }

    closed spec fn random(&self) -> bool {
        self.random
    }

    fn current_state(&self) -> (state: PhilosopherState) {
        self.state
    }

    fn seat(&self) -> (id: usize) {
        self.id
    }

    fn forks(&self) -> (plan: Plan) {
        Plan { seat: self.id, first: self.left_fork, second: self.right_fork }
    }

    fn waits_for_forks(&self) -> (waits: bool) {
        false
    }

    fn is_random(&self) -> (random: bool) {
        self.random
    }

    fn think(&mut self, now: u64) {
        self.state = self.state.think(now);
    }

    fn rest(&mut self) {
        self.state = self.state.rest();
    }

    fn eat(&mut self, acquired: bool, now: u64) -> (report: Option<StateMsg>) {
        let before = self.state;
        self.state = before.attempt(acquired, now);
        report(self.id, before, self.state)
    }
}

} // verus!

verus! {

/// Where the coordinator stands.
#[derive(Eq, PartialEq, Copy, Clone, Debug, Structural)]
pub enum Phase {
    /// Going round and telling philosophers to eat.
    Serving,
    /// The kill switch was seen: going round once more, telling each to stop.
    Stopping,
    /// Everybody was told to stop.
    Finished,
    /// A command could not be delivered. Nothing is sent after that.
    Failed,
}

/// The coordinator, as contracts see it.
pub struct Round {
    /// The seats in the order of the visits.
    pub order: Seq<usize>,
    /// The place in `order` of the seat that is visited next.
    pub cursor: int,
    pub phase: Phase,
    /// The command that was sent and is not answered yet.
    pub in_flight: Option<PhilosopherCommand>,
    /// How many philosophers are at their attempt: counted up when one is
    /// told to eat, and down when it answers.
    pub attempting: nat,
    /// How many philosophers were told to stop and took it.
    pub stops_taken: nat,
}

/// What is done to a coordinator: it is asked for the next command, with the
/// kill switch as it stands, or it gets the answer to the command in flight,
/// which says whether the command was delivered.
pub enum Step {
    Ask(bool),
    Answer(bool),
}

/// The coordinator before its first command.
pub open spec fn start(order: Seq<usize>) -> Round {
    Round {
        order,
        cursor: 0,
        phase: Phase::Serving,
        in_flight: None,
        attempting: 0,
        stops_taken: 0,
    }
}

/// The place after `cursor` in a round of `len` places.
pub open spec fn place_after(cursor: int, len: int) -> int {
    if cursor + 1 >= len {
        0
    } else {
        cursor + 1
    }
}

/// The phase in which the coordinator answers a question for the next
/// command: it serves until it sees the kill switch, and it has finished
/// when nobody is left to be told anything.
pub open spec fn phase_when_asked(round: Round, kill_switch_active: bool) -> Phase {
    match round.phase {
        Phase::Serving => if round.order.len() == 0 {
            Phase::Finished
        } else if kill_switch_active {
            Phase::Stopping
        } else {
            Phase::Serving
        },
        Phase::Stopping => if round.stops_taken >= round.order.len() {
            Phase::Finished
        } else {
            Phase::Stopping
        },
        other => other,
    }
}

/// The command that a question brings, and the seat it goes to. While a
/// command is in flight there is none.
pub open spec fn command_when_asked(round: Round, kill_switch_active: bool) -> Option<
    (usize, PhilosopherCommand),
> {
    if round.in_flight is Some {
        None
    } else {
        match phase_when_asked(round, kill_switch_active) {
            Phase::Serving => Some((round.order[round.cursor], PhilosopherCommand::Eat)),
            Phase::Stopping => Some((round.order[round.cursor], PhilosopherCommand::Stop)),
            _ => None,
        }
    }
}

/// The coordinator after it was asked for the next command.
pub open spec fn after_ask(round: Round, kill_switch_active: bool) -> Round {
    if round.in_flight is Some {
        round
    } else {
        match phase_when_asked(round, kill_switch_active) {
            Phase::Serving => Round {
                in_flight: Some(PhilosopherCommand::Eat),
                attempting: round.attempting + 1,
                ..round
            },
            Phase::Stopping => Round {
                phase: Phase::Stopping,
                in_flight: Some(PhilosopherCommand::Stop),
                ..round
            },
            phase => Round { phase, ..round },
        }
    }
}

/// The coordinator after the command in flight was answered. An answer with
/// no command in flight changes nothing.
pub open spec fn after_answer(round: Round, delivered: bool) -> Round {
    match round.in_flight {
        None => round,
        Some(command) => {
            let attempting = if command == PhilosopherCommand::Eat && round.attempting > 0 {
                (round.attempting - 1) as nat
            } else {
                round.attempting
            };
            if !delivered {
                Round { phase: Phase::Failed, in_flight: None, attempting, ..round }
            } else if command == PhilosopherCommand::Stop {
                Round {
                    cursor: place_after(round.cursor, round.order.len() as int),
                    phase: if round.stops_taken + 1 >= round.order.len() {
                        Phase::Finished
                    } else {
                        Phase::Stopping
                    },
                    in_flight: None,
                    attempting,
                    stops_taken: round.stops_taken + 1,
                    ..round
                }
            } else {
                Round {
                    cursor: place_after(round.cursor, round.order.len() as int),
                    in_flight: None,
                    attempting,
                    ..round
                }
            }
        },
    }
}

/// What holds of a coordinator at every moment: its place is within the
/// order, the count of philosophers at their attempt is one while a command
/// to eat is in flight and zero otherwise, and a coordinator that has
/// finished or failed has nothing in flight.
pub open spec fn in_order(round: Round) -> bool {
    &&& 0 <= round.cursor
    &&& round.order.len() > 0 ==> round.cursor < round.order.len()
    &&& round.attempting == if round.in_flight == Some(PhilosopherCommand::Eat) {
        1nat
    } else {
        0nat
    }
    &&& round.stops_taken <= round.order.len()
    &&& round.phase == Phase::Serving ==> round.stops_taken == 0
    &&& round.in_flight is Some ==> round.order.len() > 0 && (round.phase == Phase::Serving
        || round.phase == Phase::Stopping)
    &&& round.in_flight == Some(PhilosopherCommand::Eat) ==> round.phase == Phase::Serving
    &&& round.in_flight == Some(PhilosopherCommand::Stop) ==> round.phase == Phase::Stopping
        && round.stops_taken < round.order.len()
}

/// The order of the visits at the table of five: no two neighbours one right
/// after the other.
pub fn philosopher_order() -> (order: Vec<usize>)
    ensures
        order@ == seq![1usize, 3, 5, 2, 4],
        keeps_neighbours_apart(order@, 5),
{
    proof {
        lemma_philosopher_order_keeps_apart();
    }
    let mut order: Vec<usize> = Vec::new();
    order.push(1);
    order.push(3);
    order.push(5);
    order.push(2);
    order.push(4);
    assert(order@ =~= seq![1usize, 3, 5, 2, 4]);
    order
}

/// Goes round the table and tells one philosopher at a time what to do.
pub struct Coordinator {
    order: Vec<usize>,
    cursor: usize,
    phase: Phase,
    in_flight: Option<PhilosopherCommand>,
    attempting: usize,
    stops_taken: usize,
}

impl View for Coordinator {
    type V = Round;

    closed spec fn view(&self) -> Round {
        Round {
            order: self.order@,
            cursor: self.cursor as int,
            phase: self.phase,
            in_flight: self.in_flight,
            attempting: self.attempting as nat,
            stops_taken: self.stops_taken as nat,
        }
    }
}

impl Coordinator {
    /// A coordinator that will visit the seats in the order given, again and
    /// again.
    pub fn new(order: Vec<usize>) -> (coordinator: Coordinator)
        ensures
            coordinator@ == start(order@),
            in_order(coordinator@),
    {
        Coordinator {
            order,
            cursor: 0,
            phase: Phase::Serving,
            in_flight: None,
            attempting: 0,
            stops_taken: 0,
        }
    }

    /// Where the coordinator stands.
    pub fn phase(&self) -> (phase: Phase)
        ensures
            phase == self@.phase,
    {
        self.phase
    }

    /// How many philosophers are at their attempt right now.
    pub fn attempting(&self) -> (attempting: usize)
        ensures
            attempting == self@.attempting,
    {
        self.attempting
    }

    /// The next command and the seat to send it to, or nothing where nothing
    /// is to be sent: a command is still in flight, everybody was told to
    /// stop, or a command could not be delivered. The kill switch is looked
    /// at before each command: once it is on, every philosopher is told to
    /// stop, each once, in the order of the visits.
    pub fn next_command(&mut self, kill_switch_active: bool) -> (command: Option<
        (usize, PhilosopherCommand),
    >)
        requires
            in_order(old(self)@),
        ensures
            command == command_when_asked(old(self)@, kill_switch_active),
            final(self)@ == after_ask(old(self)@, kill_switch_active),
            in_order(final(self)@),
    {
        if self.in_flight.is_some() {
            return None;
        }
        match self.phase {
            Phase::Serving => {
                if self.order.len() == 0 {
                    self.phase = Phase::Finished;
                } else if kill_switch_active {
                    self.phase = Phase::Stopping;
                }
            },
            Phase::Stopping => {
                if self.stops_taken >= self.order.len() {
                    self.phase = Phase::Finished;
                }
            },
            _ => {},
        }
        match self.phase {
            Phase::Serving => {
                self.in_flight = Some(PhilosopherCommand::Eat);
                self.attempting = self.attempting + 1;
                Some((self.order[self.cursor], PhilosopherCommand::Eat))
            },
            Phase::Stopping => {
                self.in_flight = Some(PhilosopherCommand::Stop);
                Some((self.order[self.cursor], PhilosopherCommand::Stop))
            },
            _ => None,
        }
    }

    /// The command in flight was answered: the philosopher has finished its
    /// attempt, or has taken the command to stop; or, with `delivered` false,
    /// the command did not reach it, which ends the coordinator's work.
    pub fn answered(&mut self, delivered: bool)
        requires
            in_order(old(self)@),
        ensures
            final(self)@ == after_answer(old(self)@, delivered),
            in_order(final(self)@),
    {
        match self.in_flight {
            None => {},
            Some(command) => {
                let len: usize = self.order.len();
                let next: usize = if self.cursor + 1 >= len {
                    0
                } else {
                    self.cursor + 1
                };
                self.in_flight = None;
                if command == PhilosopherCommand::Eat {
                    self.attempting = self.attempting - 1;
                }
                if !delivered {
                    self.phase = Phase::Failed;
                } else {
                    self.cursor = next;
                    if command == PhilosopherCommand::Stop {
                        self.stops_taken = self.stops_taken + 1;
                        if self.stops_taken >= len {
                            self.phase = Phase::Finished;
                        }
                    }
                }
            },
        }
    }
}

/// The coordinator after one step.
pub open spec fn after_step(round: Round, step: Step) -> Round {
    match step {
        Step::Ask(kill_switch_active) => after_ask(round, kill_switch_active),
        Step::Answer(delivered) => after_answer(round, delivered),
    }
}

/// The coordinator after the steps, taken one after the other.
pub open spec fn after_steps(round: Round, steps: Seq<Step>) -> Round
    decreases steps.len(),
{
    if steps.len() == 0 {
        round
    } else {
        after_step(after_steps(round, steps.drop_last()), steps.last())
    }
}

/// A step leaves a coordinator in order, and it tells a philosopher to eat
/// only while no philosopher is at an attempt.
pub proof fn lemma_step_keeps_order(round: Round, step: Step)
    requires
        in_order(round),
    ensures
        in_order(after_step(round, step)),
        after_step(round, step).attempting <= 1,
        after_step(round, step).order == round.order,
        step matches Step::Ask(kill_switch_active) ==> (command_when_asked(
            round,
            kill_switch_active,
        ) matches Some((_, PhilosopherCommand::Eat)) ==> round.attempting == 0),
{
}

/// One at a time: whatever is done to a coordinator, and in whatever order,
/// from before its first command on, at no moment is more than one
/// philosopher at an attempt.
pub proof fn lemma_one_attempt_at_a_time(order: Seq<usize>, steps: Seq<Step>)
    ensures
        in_order(after_steps(start(order), steps)),
        after_steps(start(order), steps).attempting <= 1,
        after_steps(start(order), steps).order == order,
    decreases steps.len(),
{
    if steps.len() > 0 {
        lemma_one_attempt_at_a_time(order, steps.drop_last());
        lemma_step_keeps_order(after_steps(start(order), steps.drop_last()), steps.last());
    }
}

/// Two seats of a table of `n` are neighbours: they share a fork.
pub open spec fn neighbours(a: int, b: int, n: int) -> bool {
    a - b == 1 || b - a == 1 || a - b == n - 1 || b - a == n - 1
}

/// The order visits every seat of a table of `n` once in a round, and never
/// two neighbours one right after the other, the last and the first of the
/// round counted as well.
pub open spec fn keeps_neighbours_apart(order: Seq<usize>, n: int) -> bool {
    &&& order.len() == n
    &&& forall|k: int| 0 <= k < n ==> 1 <= #[trigger] order[k] <= n
    &&& forall|j: int, k: int| 0 <= j < k < n ==> #[trigger] order[j] != #[trigger] order[k]
    &&& forall|k: int|
        0 <= k < n ==> !neighbours(
            #[trigger] order[k] as int,
            order[place_after(k, n)] as int,
            n,
        )
}

/// The order of the visits at the table of five keeps neighbours apart.
pub proof fn lemma_philosopher_order_keeps_apart()
    ensures
        keeps_neighbours_apart(seq![1usize, 3, 5, 2, 4], 5),
{
    let order = seq![1usize, 3, 5, 2, 4];
    assert(order[0] == 1 && order[1] == 3 && order[2] == 5 && order[3] == 2 && order[4] == 4);
}

} // verus!
