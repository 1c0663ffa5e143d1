//! A model of an oracle that leaks where its secret lies, and the proof
//! that a search against it closes in on the secret.
//!
//! Nothing here runs: the module states what the controller achieves when
//! the timings it is fed carry a signal.

use vstd::prelude::*;

use crate::config::{SearchConfig, DEFAULT_MAX_LEVEL};
use crate::controller::{
    lemma_level_totals, round_events, total, Controller, Event, MAX_ELAPSED_NANOS,
};
use crate::search::{
    adjustment_at, distance, guided, lemma_guided_step, lemma_search_converges,
    lemma_uncovered_closed_form, toward, uncovered, SearchState, INITIAL_LEVEL, INITIAL_PIVOT,
};
use crate::wire::Direction;

verus! {

/// How long the model oracle takes over a probe round: `extra` longer than
/// `base` on the side of the pivot on which its secret lies. A secret at
/// the pivot counts as lying on the decreasing side.
pub open spec fn oracle_latency(
    pivot: u128,
    direction: Direction,
    secret: u128,
    base: u128,
    extra: u128,
) -> u128 {
    let slow = match direction {
        Direction::Increasing => secret > pivot,
        Direction::Decreasing => secret <= pivot,
    };
    if slow {
        (base + extra) as u128
    } else {
        base
    }
}

/// The events of all rounds of one level against the model oracle.
pub open spec fn level_events(
    controller: Controller,
    secret: u128,
    base: u128,
    extra: u128,
) -> Seq<Event> {
    let rounds = controller.config.rounds_per_level as nat;
    let pivot = controller.state.pivot;
    let up = oracle_latency(pivot, Direction::Increasing, secret, base, extra);
    let down = oracle_latency(pivot, Direction::Decreasing, secret, base, extra);
    round_events(Seq::new(rounds, |i: int| up), Seq::new(rounds, |i: int| down))
}

/// The controller after `levels` levels measured against the model oracle,
/// each at the pivot that the levels before it led to.
pub open spec fn oracle_run(
    controller: Controller,
    secret: u128,
    base: u128,
    extra: u128,
    levels: nat,
) -> Controller
    decreases levels,
{
    if levels == 0 {
        controller
    } else {
        oracle_run(
            controller.run(level_events(controller, secret, base, extra)),
            secret,
            base,
            extra,
            (levels - 1) as nat,
        )
    }
}

/// The number of levels that a search in `state` still has to go through.
pub open spec fn levels_left(config: SearchConfig, state: SearchState) -> nat {
    if state.level <= config.max_level {
        (config.max_level + 1 - state.level) as nat
    } else {
        0
    }
}

/// Whether the model oracle's signal gets past the threshold: a round's
/// time can be reported, and the extra time of one level's rounds together
/// exceeds what the threshold asks for.
pub open spec fn signal_is_clear(config: SearchConfig, base: u128, extra: u128) -> bool {
    &&& base + extra <= MAX_ELAPSED_NANOS
    &&& config.rounds_per_level * extra > config.decision_threshold
}

/// The total of a series that repeats one timing.
pub proof fn lemma_total_of_repeated(count: nat, timing: u128)
    ensures
        total(Seq::new(count, |i: int| timing)) == count * timing,
    decreases count,
{
    let series = Seq::new(count, |i: int| timing);
    if count > 0 {
        assert(series.drop_first() =~= Seq::new((count - 1) as nat, |i: int| timing));
        lemma_total_of_repeated((count - 1) as nat, timing);
        assert(timing + (count - 1) * timing == count * timing) by (nonlinear_arith);
    } else {
        assert(0 * timing == 0) by (nonlinear_arith);
    }
}

/// One level against the model oracle ends in the decision that points at
/// the secret.
pub proof fn lemma_oracle_level(controller: Controller, secret: u128, base: u128, extra: u128)
    requires
        controller.state.inv(),
        controller.config.valid(),
        controller.state.level <= controller.config.max_level,
        controller == Controller::at_level_start(controller.config, controller.state),
        signal_is_clear(controller.config, base, extra),
    ensures
        controller.run(level_events(controller, secret, base, extra)) == Controller::at_level_start(
            controller.config,
            controller.state.after(toward(controller.state.pivot, secret)),
        ),
{
    let rounds = controller.config.rounds_per_level as nat;
    let pivot = controller.state.pivot;
    let up = oracle_latency(pivot, Direction::Increasing, secret, base, extra);
    let down = oracle_latency(pivot, Direction::Decreasing, secret, base, extra);
    let plus = Seq::new(rounds, |i: int| up);
    let minus = Seq::new(rounds, |i: int| down);
    lemma_total_of_repeated(rounds, up);
    lemma_total_of_repeated(rounds, down);
    lemma_level_totals(controller, plus, minus);
    if secret > pivot {
        assert(rounds * up - rounds * down == rounds * extra) by (nonlinear_arith)
            requires
                up == down + extra,
        ;
    } else {
        assert(rounds * down - rounds * up == rounds * extra) by (nonlinear_arith)
            requires
                down == up + extra,
        ;
    }
}

/// Running the controller against the model oracle, level after level, is
/// the search that always moves toward the secret.
pub proof fn lemma_oracle_run_is_guided(
    controller: Controller,
    secret: u128,
    base: u128,
    extra: u128,
    levels: nat,
)
    requires
        controller.state.inv(),
        controller.config.valid(),
        controller == Controller::at_level_start(controller.config, controller.state),
        signal_is_clear(controller.config, base, extra),
        levels == levels_left(controller.config, controller.state),
        distance(controller.state.pivot, secret) <= uncovered(controller.state.level as nat),
    ensures
        oracle_run(controller, secret, base, extra, levels) == Controller::at_level_start(
            controller.config,
            guided(controller.state, secret, controller.config.max_level),
        ),
    decreases levels,
{
    if levels > 0 {
        let next = controller.run(level_events(controller, secret, base, extra));
        lemma_oracle_level(controller, secret, base, extra);
        lemma_guided_step(controller.state, secret);
        lemma_oracle_run_is_guided(next, secret, base, extra, (levels - 1) as nat);
    }
}

/// Against the model oracle the search converges: started afresh and run
/// through every level of its configuration, the controller finishes, and
/// what it has found is within the adjustment of the last level of the
/// secret, that is within the size of the value space over `2^max_level`.
/// With the default last level that is a distance of four.
pub proof fn lemma_search_converges_on_oracle(
    config: SearchConfig,
    secret: u128,
    base: u128,
    extra: u128,
)
    requires
        config.valid(),
        signal_is_clear(config, base, extra),
    ensures
        ({
            let first = SearchState { pivot: INITIAL_PIVOT, level: INITIAL_LEVEL };
            let start = Controller::at_level_start(config, first);
            let end = oracle_run(start, secret, base, extra, levels_left(config, first));
            &&& end.found() is Some
            &&& config.max_level >= INITIAL_LEVEL ==> end.state.level == config.max_level + 1
            &&& distance(end.found()->Some_0, secret) <= adjustment_at(config.max_level as nat)
            &&& config.max_level == DEFAULT_MAX_LEVEL ==> distance(end.found()->Some_0, secret)
                <= 4
        }),
{
    let first = SearchState { pivot: INITIAL_PIVOT, level: INITIAL_LEVEL };
    let start = Controller::at_level_start(config, first);
    lemma_uncovered_closed_form(2);
    vstd::arithmetic::power2::lemma2_to64();
    lemma_oracle_run_is_guided(start, secret, base, extra, levels_left(config, first));
    lemma_search_converges(secret, config.max_level);
}

} // verus!
