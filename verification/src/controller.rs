//! The controller of a search, as a machine that is fed events: it names
//! the next probe round, takes in what the round measured, and moves the
//! search state whenever a level's rounds are complete.

use vstd::prelude::*;

use crate::config::SearchConfig;
use crate::search::{
    adjustment_at, decision_for, lemma_direction, lemma_room_to_move, SearchState, INITIAL_LEVEL,
    INITIAL_PIVOT,
};
use crate::wire::Direction;

verus! {

/// The longest time that a round can be reported to have taken, in
/// nanoseconds: `u64::MAX` seconds and 999,999,999 nanoseconds.
pub const MAX_ELAPSED_NANOS: u128 = 18_446_744_073_709_551_615_999_999_999;

/// The one error of a search: the oracle could not be reached, written to
/// or read from.
#[derive(Clone, Copy, Debug, PartialEq, Eq, Structural)]
pub struct ConnectionFailed;

/// Where a controller stands.
#[derive(Clone, Copy, Debug, PartialEq, Eq, Structural)]
pub enum Phase {
    /// Probe rounds are still to be made.
    Probing,
    /// The last level is done; the pivot is the result.
    Finished,
    /// A probe round failed; there is no result.
    Aborted,
}

/// What the caller reports back after a probe round.
#[derive(Clone, Copy, Debug, PartialEq, Eq, Structural)]
pub enum Event {
    /// The round went through, and took this long from opening the
    /// connection to the arrival of the reply.
    Completed { elapsed_nanos: u128 },
    /// Connecting, writing or reading failed.
    Failed,
}

/// What the caller is to do next.
#[derive(Clone, Copy, Debug, PartialEq, Eq, Structural)]
pub enum Action {
    /// Make one probe round around `pivot` on the side `direction`.
    Probe { pivot: u128, direction: Direction },
    /// Stop: the search is over and `pivot` is what it found.
    Finish { pivot: u128 },
    /// Stop: the search failed.
    Abort,
}

/// The state of the search as it is reported each time a level's rounds
/// are complete.
#[derive(Clone, Copy, Debug, PartialEq, Eq, Structural)]
pub struct Progress {
    /// The level that is searched next.
    pub level: u32,
    /// The pivot after the level's decision.
    pub pivot: u128,
}

/// A search in progress.
#[derive(Clone, Copy, Debug, PartialEq, Eq, Structural)]
pub struct Controller {
    /// The configuration that the search runs on.
    pub config: SearchConfig,
    /// Pivot and level.
    pub state: SearchState,
    /// Whether the search goes on.
    pub phase: Phase,
    /// Rounds of the current level that are complete on both sides.
    pub rounds_done: u32,
    /// The side whose probe round is made next.
    pub awaiting: Direction,
    /// Total time of this level's rounds on the increasing side.
    pub sum_plus: u128,
    /// Total time of this level's rounds on the decreasing side.
    pub sum_minus: u128,
}

impl Controller {
    /// What holds of a controller at all times.
    pub open spec fn inv(&self) -> bool {
        &&& self.config.valid()
        &&& self.state.inv()
        &&& self.phase is Probing ==> self.state.level <= self.config.max_level
        &&& self.phase is Finished ==> self.state.level > self.config.max_level
        &&& self.rounds_done < self.config.rounds_per_level
        &&& self.sum_minus <= self.rounds_done * MAX_ELAPSED_NANOS
        &&& self.sum_plus <= (self.rounds_done + if self.awaiting is Decreasing {
            1int
        } else {
            0int
        }) * MAX_ELAPSED_NANOS
    }

    /// A controller at the start of a level in `state`.
    pub open spec fn at_level_start(config: SearchConfig, state: SearchState) -> Controller {
        Controller {
            config,
            state,
            phase: if state.level > config.max_level {
                Phase::Finished
            } else {
                Phase::Probing
            },
            rounds_done: 0,
            awaiting: Direction::Increasing,
            sum_plus: 0,
            sum_minus: 0,
        }
    }

    /// The controller that `event` turns this one into.
    ///
    /// While probing, a failure aborts the search. A completed round on the
    /// increasing side adds to the one total, a completed round on the
    /// decreasing side to the other; with the last round of a level the
    /// totals are compared, the search state moves as they decide, and the
    /// next level starts from empty totals. A controller that is finished
    /// or aborted stays as it is.
    pub open spec fn step(self, event: Event) -> Controller {
        match (self.phase, event) {
            (Phase::Probing, Event::Failed) => Controller { phase: Phase::Aborted, ..self },
            (Phase::Probing, Event::Completed { elapsed_nanos }) => match self.awaiting {
                Direction::Increasing => Controller {
                    sum_plus: (self.sum_plus + elapsed_nanos) as u128,
                    awaiting: Direction::Decreasing,
                    ..self
                },
                Direction::Decreasing => if self.rounds_done + 1 < self.config.rounds_per_level {
                    Controller {
                        sum_minus: (self.sum_minus + elapsed_nanos) as u128,
                        rounds_done: (self.rounds_done + 1) as u32,
                        awaiting: Direction::Increasing,
                        ..self
                    }
                } else {
                    Controller::at_level_start(
                        self.config,
                        self.state.after(
                            decision_for(
                                self.sum_plus as int,
                                self.sum_minus + elapsed_nanos,
                                self.config.decision_threshold as int,
                            ),
                        ),
                    )
                },
            },
            _ => self,
        }
    }

    /// What the controller hands back on `event`: the error once the search
    /// has failed, the new state of the search when the event completes a
    /// level, and nothing otherwise.
    pub open spec fn reply(self, event: Event) -> Result<Option<Progress>, ConnectionFailed> {
        let next = self.step(event);
        if next.phase is Aborted {
            Err(ConnectionFailed)
        } else if self.closes_level(event) {
            Ok(Some(Progress { level: next.state.level, pivot: next.state.pivot }))
        } else {
            Ok(None)
        }
    }

    /// Whether `event` is the last completed round of the current level.
    pub open spec fn closes_level(self, event: Event) -> bool {
        &&& self.phase is Probing
        &&& event is Completed
        &&& self.awaiting is Decreasing
        &&& self.rounds_done + 1 >= self.config.rounds_per_level
    }

    /// What the search has found: the pivot once the search is finished,
    /// and nothing before that or after a failure.
    pub open spec fn found(self) -> Option<u128> {
        if self.phase is Finished {
            Some(self.state.pivot)
        } else {
            None
        }
    }

    /// The controller after a sequence of events, taken in order.
    pub open spec fn run(self, events: Seq<Event>) -> Controller
        decreases events.len(),
    {
        if events.len() == 0 {
            self
        } else {
            self.step(events[0]).run(events.drop_first())
        }
    }

    /// Starts a search.
    pub fn new(config: SearchConfig) -> (controller: Controller)
        requires
            config.valid(),
        ensures
            controller == Controller::at_level_start(
                config,
                SearchState { pivot: INITIAL_PIVOT, level: INITIAL_LEVEL },
            ),
            controller.inv(),
    {
        let state = SearchState::new();
        Controller {
            config,
            state,
            phase: if state.is_finished(config.max_level) {
                Phase::Finished
            } else {
                Phase::Probing
            },
            rounds_done: 0,
            awaiting: Direction::Increasing,
            sum_plus: 0,
            sum_minus: 0,
        }
    }

    /// Names what the caller is to do next.
    pub fn next_action(&self) -> (action: Action)
        ensures
            action == match self.phase {
                Phase::Probing => Action::Probe {
                    pivot: self.state.pivot,
                    direction: self.awaiting,
                },
                Phase::Finished => Action::Finish { pivot: self.state.pivot },
                Phase::Aborted => Action::Abort,
            },
    {
        match self.phase {
            Phase::Probing => Action::Probe { pivot: self.state.pivot, direction: self.awaiting },
            Phase::Finished => Action::Finish { pivot: self.state.pivot },
            Phase::Aborted => Action::Abort,
        }
    }

    /// The result of the search, if there is one.
    pub fn final_pivot(&self) -> (found: Option<u128>)
        ensures
            found == self.found(),
    {
        match self.phase {
            Phase::Finished => Some(self.state.pivot),
            _ => None,
        }
    }

    /// Takes in the outcome of the probe round that was asked for last.
    pub fn on_event(&mut self, event: Event) -> (reply: Result<Option<Progress>, ConnectionFailed>)
        requires
            old(self).inv(),
            event matches Event::Completed { elapsed_nanos } ==> elapsed_nanos
                <= MAX_ELAPSED_NANOS,
        ensures
            *final(self) == old(self).step(event),
            reply == old(self).reply(event),
            final(self).inv(),
    {
        match self.phase {
            Phase::Probing => {},
            Phase::Finished => {
                return Ok(None);
            },
            Phase::Aborted => {
                return Err(ConnectionFailed);
            },
        }
        let elapsed_nanos = match event {
            Event::Failed => {
                self.phase = Phase::Aborted;
                return Err(ConnectionFailed);
            },
            Event::Completed { elapsed_nanos } => elapsed_nanos,
        };
        proof {
            lemma_totals_fit(self.rounds_done as int, self.config.rounds_per_level as int);
        }
        match self.awaiting {
            Direction::Increasing => {
                self.sum_plus = self.sum_plus + elapsed_nanos;
                self.awaiting = Direction::Decreasing;
                Ok(None)
            },
            Direction::Decreasing => {
                self.sum_minus = self.sum_minus + elapsed_nanos;
                self.awaiting = Direction::Increasing;
                if self.rounds_done + 1 < self.config.rounds_per_level {
                    self.rounds_done = self.rounds_done + 1;
                    return Ok(None);
                }
                self.state = self.state.refine(
                    self.sum_plus,
                    self.sum_minus,
                    self.config.decision_threshold,
                );
                self.rounds_done = 0;
                self.sum_plus = 0;
                self.sum_minus = 0;
                if self.state.is_finished(self.config.max_level) {
                    self.phase = Phase::Finished;
                }
                Ok(Some(Progress { level: self.state.level, pivot: self.state.pivot }))
            },
        }
    }
}

/// The events of a run of complete rounds, each round reporting first its
/// increasing side and then its decreasing side.
pub open spec fn round_events(plus: Seq<u128>, minus: Seq<u128>) -> Seq<Event> {
    Seq::new(
        2 * plus.len(),
        |i: int|
            Event::Completed {
                elapsed_nanos: if i % 2 == 0 {
                    plus[i / 2]
                } else {
                    minus[i / 2]
                },
            },
    )
}

/// The sum of a series of timings.
pub open spec fn total(samples: Seq<u128>) -> nat
    decreases samples.len(),
{
    if samples.len() == 0 {
        0
    } else {
        samples[0] as nat + total(samples.drop_first())
    }
}

/// Whether every timing of a series is one that a round can report.
pub open spec fn reportable(samples: Seq<u128>) -> bool {
    forall|i: int| 0 <= i < samples.len() ==> #[trigger] samples[i] <= MAX_ELAPSED_NANOS
}

/// No event breaks what holds of a controller, and while a level is under
/// way the totals are plain sums.
pub proof fn lemma_step_keeps_inv(controller: Controller, event: Event)
    requires
        controller.inv(),
        event matches Event::Completed { elapsed_nanos } ==> elapsed_nanos <= MAX_ELAPSED_NANOS,
    ensures
        controller.step(event).inv(),
        controller.step(event).config == controller.config,
        controller.phase is Probing && event is Completed && !controller.closes_level(event) ==> {
            let next = controller.step(event);
            &&& next.phase is Probing
            &&& next.state == controller.state
            &&& next.sum_plus + next.sum_minus == controller.sum_plus + controller.sum_minus
                + event->elapsed_nanos
        },
{
    lemma_totals_fit(controller.rounds_done as int, controller.config.rounds_per_level as int);
    if controller.closes_level(event) {
        lemma_room_to_move(controller.state.level as nat);
    }
}

/// Events taken in two parts lead where they lead when taken at once.
pub proof fn lemma_run_append(controller: Controller, first: Seq<Event>, second: Seq<Event>)
    ensures
        controller.run(first + second) == controller.run(first).run(second),
    decreases first.len(),
{
    if first.len() == 0 {
        assert(first + second =~= second);
    } else {
        assert((first + second).drop_first() =~= first.drop_first() + second);
        lemma_run_append(controller.step(first[0]), first.drop_first(), second);
    }
}

/// A search that is finished or aborted is moved by no event.
pub proof fn lemma_stopped_stays(controller: Controller, events: Seq<Event>)
    requires
        !(controller.phase is Probing),
    ensures
        controller.run(events) == controller,
    decreases events.len(),
{
    if events.len() > 0 {
        lemma_stopped_stays(controller, events.drop_first());
    }
}

/// A failed probe round ends the search for good: whatever was reported
/// before it and whatever is reported after it, the search is aborted and
/// has found nothing.
pub proof fn lemma_failure_is_fatal(
    controller: Controller,
    before: Seq<Event>,
    after: Seq<Event>,
)
    requires
        controller.run(before).phase is Probing,
    ensures
        controller.run(before + seq![Event::Failed] + after).phase is Aborted,
        controller.run(before + seq![Event::Failed] + after).found() is None,
        controller.run(before + seq![Event::Failed] + after).reply(Event::Failed) == Err::<
            Option<Progress>,
            ConnectionFailed,
        >(ConnectionFailed),
{
    let failed = seq![Event::Failed];
    let at_failure = controller.run(before);
    lemma_run_append(controller, before + failed, after);
    lemma_run_append(controller, before, failed);
    assert(at_failure.run(failed) == at_failure.step(Event::Failed)) by {
        assert(failed.drop_first() =~= Seq::<Event>::empty());
        assert(at_failure.step(failed[0]).run(failed.drop_first()) == at_failure.step(
            Event::Failed,
        ));
    }
    lemma_stopped_stays(at_failure.step(Event::Failed), after);
}

/// The rounds that complete a level amount to one decision on plain sums:
/// the search state moves as the two totals decide, each total being what
/// the level had gathered before plus the timings of its side, and the
/// next level starts from empty totals.
pub proof fn lemma_level_totals(controller: Controller, plus: Seq<u128>, minus: Seq<u128>)
    requires
        controller.inv(),
        controller.phase is Probing,
        controller.awaiting is Increasing,
        plus.len() == controller.config.rounds_per_level - controller.rounds_done,
        minus.len() == plus.len(),
        reportable(plus),
        reportable(minus),
    ensures
        controller.run(round_events(plus, minus)) == Controller::at_level_start(
            controller.config,
            controller.state.after(
                decision_for(
                    controller.sum_plus + total(plus),
                    controller.sum_minus + total(minus),
                    controller.config.decision_threshold as int,
                ),
            ),
        ),
    decreases plus.len(),
{
    let events = round_events(plus, minus);
    let rest = round_events(plus.drop_first(), minus.drop_first());
    let halfway = controller.step(events[0]);
    let next = halfway.step(events[1]);
    assert(events.drop_first().drop_first() =~= rest);
    assert(controller.run(events) == next.run(rest)) by {
        assert(events.drop_first()[0] == events[1]);
        assert(controller.run(events) == halfway.run(events.drop_first()));
        assert(halfway.run(events.drop_first()) == next.run(events.drop_first().drop_first()));
    }
    lemma_totals_fit(controller.rounds_done as int, controller.config.rounds_per_level as int);
    lemma_step_keeps_inv(controller, events[0]);
    lemma_step_keeps_inv(halfway, events[1]);
    if plus.len() == 1 {
        assert(total(plus.drop_first()) == 0);
        assert(total(minus.drop_first()) == 0);
        assert(rest.len() == 0);
    } else {
        assert(reportable(plus.drop_first())) by {
            let later = plus.drop_first();
            assert forall|i: int| 0 <= i < later.len() implies #[trigger] later[i]
                <= MAX_ELAPSED_NANOS by {
                assert(later[i] == plus[i + 1]);
            }
        }
        assert(reportable(minus.drop_first())) by {
            let later = minus.drop_first();
            assert forall|i: int| 0 <= i < later.len() implies #[trigger] later[i]
                <= MAX_ELAPSED_NANOS by {
                assert(later[i] == minus[i + 1]);
            }
        }
        lemma_level_totals(next, plus.drop_first(), minus.drop_first());
    }
}

/// A level whose totals end no more than the threshold apart changes
/// neither pivot nor level: the same level is measured again, from empty
/// totals.
pub proof fn lemma_inconclusive_level_repeats(
    controller: Controller,
    plus: Seq<u128>,
    minus: Seq<u128>,
)
    requires
        controller.inv(),
        controller.phase is Probing,
        controller.awaiting is Increasing,
        plus.len() == controller.config.rounds_per_level - controller.rounds_done,
        minus.len() == plus.len(),
        reportable(plus),
        reportable(minus),
        (controller.sum_plus + total(plus)) - (controller.sum_minus + total(minus))
            <= controller.config.decision_threshold,
        (controller.sum_minus + total(minus)) - (controller.sum_plus + total(plus))
            <= controller.config.decision_threshold,
    ensures
        controller.run(round_events(plus, minus)) == Controller::at_level_start(
            controller.config,
            controller.state,
        ),
{
    lemma_level_totals(controller, plus, minus);
}

/// A level whose totals end more than the threshold apart moves the pivot
/// by exactly the level's adjustment, up where the increasing side took
/// longer and down where the decreasing side did, and advances the level.
pub proof fn lemma_conclusive_level_moves(
    controller: Controller,
    plus: Seq<u128>,
    minus: Seq<u128>,
)
    requires
        controller.inv(),
        controller.phase is Probing,
        controller.awaiting is Increasing,
        plus.len() == controller.config.rounds_per_level - controller.rounds_done,
        minus.len() == plus.len(),
        reportable(plus),
        reportable(minus),
    ensures
        ({
            let end = controller.run(round_events(plus, minus));
            let sum_plus = controller.sum_plus + total(plus);
            let sum_minus = controller.sum_minus + total(minus);
            let step = adjustment_at(controller.state.level as nat);
            &&& sum_plus - sum_minus > controller.config.decision_threshold ==> {
                &&& end.state.pivot == controller.state.pivot + step
                &&& end.state.level == controller.state.level + 1
            }
            &&& sum_minus - sum_plus > controller.config.decision_threshold ==> {
                &&& end.state.pivot == controller.state.pivot - step
                &&& end.state.level == controller.state.level + 1
            }
        }),
{
    lemma_level_totals(controller, plus, minus);
    lemma_direction(
        controller.state,
        controller.sum_plus + total(plus),
        controller.sum_minus + total(minus),
        controller.config.decision_threshold as int,
    );
}

/// The totals of any number of rounds that a `u32` can count fit in 128
/// bits.
proof fn lemma_totals_fit(rounds_done: int, rounds_per_level: int)
    requires
        0 <= rounds_done < rounds_per_level <= u32::MAX,
    ensures
        (rounds_done + 1) * MAX_ELAPSED_NANOS <= u128::MAX,
        rounds_done * MAX_ELAPSED_NANOS + MAX_ELAPSED_NANOS == (rounds_done + 1)
            * MAX_ELAPSED_NANOS,
        rounds_done * MAX_ELAPSED_NANOS >= 0,
{
    assert((rounds_done + 1) * MAX_ELAPSED_NANOS <= u32::MAX * MAX_ELAPSED_NANOS)
        by (nonlinear_arith)
        requires
            0 <= rounds_done + 1 <= u32::MAX,
    ;
    assert(rounds_done * MAX_ELAPSED_NANOS + MAX_ELAPSED_NANOS == (rounds_done + 1)
        * MAX_ELAPSED_NANOS) by (nonlinear_arith);
    assert(rounds_done * MAX_ELAPSED_NANOS >= 0) by (nonlinear_arith)
        requires
            rounds_done >= 0,
    ;
}

} // verus!
