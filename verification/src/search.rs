//! The search itself: what a level's two timing totals decide, and how a
//! decision moves the pivot.

use vstd::arithmetic::div_mod::lemma_div_denominator;
use vstd::arithmetic::power2::{
    lemma2_to64, lemma_pow2_adds, lemma_pow2_pos, lemma_pow2_subtracts, lemma_pow2_unfold, pow2,
};
use vstd::bits::lemma_u128_shr_is_div;
use vstd::prelude::*;

use crate::config::DEFAULT_MAX_LEVEL;
use crate::wire::space_size;

verus! {

/// The level at which every search starts.
pub const INITIAL_LEVEL: u32 = 2;

/// The largest level at which the pivot can still be adjusted.
pub const LEVEL_LIMIT: u32 = 127;

/// The pivot at which every search starts: the middle of the value space.
pub const INITIAL_PIVOT: u128 = 0x7fff_ffff_ffff_ffff_ffff_ffff_ffff_ffff;

/// What one level's timings say about the pivot.
#[derive(Clone, Copy, Debug, PartialEq, Eq, Structural)]
pub enum Decision {
    /// The increasing side was slower: the hidden value lies above.
    Raise,
    /// The decreasing side was slower: the hidden value lies below.
    Lower,
    /// No side stood out: the level is measured again.
    Hold,
}

/// The decision that two timing totals call for: a side wins only where its
/// total exceeds the other by more than `threshold`.
pub open spec fn decision_for(sum_plus: int, sum_minus: int, threshold: int) -> Decision {
    if sum_plus - sum_minus > threshold {
        Decision::Raise
    } else if sum_minus - sum_plus > threshold {
        Decision::Lower
    } else {
        Decision::Hold
    }
}

/// Compares the two timing totals of a level.
pub fn decide(sum_plus: u128, sum_minus: u128, threshold: u128) -> (decision: Decision)
    ensures
        decision == decision_for(sum_plus as int, sum_minus as int, threshold as int),
{
    if sum_plus > sum_minus && sum_plus - sum_minus > threshold {
        Decision::Raise
    } else if sum_minus > sum_plus && sum_minus - sum_plus > threshold {
        Decision::Lower
    } else {
        Decision::Hold
    }
}

/// Half the size of the value space: the adjustment of level one.
pub const HALF_SPACE: u128 = 0x8000_0000_0000_0000_0000_0000_0000_0000;

/// The distance by which the pivot moves at `level`: the size of the value
/// space divided by `2^level`.
pub open spec fn adjustment_at(level: nat) -> nat {
    (space_size() / pow2(level) as int) as nat
}

/// Computes the adjustment of a level.
pub fn adjustment(level: u32) -> (step: u128)
    requires
        1 <= level <= LEVEL_LIMIT,
    ensures
        step == adjustment_at(level as nat),
{
    proof {
        lemma_u128_shr_is_div(HALF_SPACE, (level - 1) as u128);
        lemma_pow2_pos((level - 1) as nat);
        lemma_pow2_unfold(level as nat);
        lemma_div_denominator(space_size(), 2, pow2((level - 1) as nat) as int);
    }
    HALF_SPACE >> ((level - 1) as u128)
}

/// The middle of the value space, where the pivot starts.
pub open spec fn midpoint() -> nat {
    u128::MAX as nat / 2
}

/// The farthest the pivot can be from the midpoint on reaching `level`:
/// the adjustments of all earlier levels together.
pub open spec fn travelled(level: nat) -> nat
    decreases level,
{
    if level <= 2 {
        0
    } else {
        travelled((level - 1) as nat) + adjustment_at((level - 1) as nat)
    }
}

/// The running state of a search: the current estimate and the level that
/// bounds its next adjustment.
#[derive(Clone, Copy, Debug, PartialEq, Eq, Structural)]
pub struct SearchState {
    /// The current best estimate of the hidden value.
    pub pivot: u128,
    /// The resolution level; it only ever grows.
    pub level: u32,
}

impl SearchState {
    /// What holds of every state that a search can reach: the level lies in
    /// range, and the pivot is no farther from the midpoint than the
    /// adjustments so far allow.
    pub open spec fn inv(&self) -> bool {
        &&& INITIAL_LEVEL <= self.level <= LEVEL_LIMIT + 1
        &&& midpoint() - travelled(self.level as nat) <= self.pivot
        &&& self.pivot <= midpoint() + travelled(self.level as nat)
    }

    /// The state that follows `self` under `decision`: a move by this
    /// level's adjustment and one level up, or no change at all.
    pub open spec fn after(self, decision: Decision) -> SearchState {
        match decision {
            Decision::Raise => SearchState {
                pivot: (self.pivot + adjustment_at(self.level as nat)) as u128,
                level: (self.level + 1) as u32,
            },
            Decision::Lower => SearchState {
                pivot: (self.pivot - adjustment_at(self.level as nat)) as u128,
                level: (self.level + 1) as u32,
            },
            Decision::Hold => self,
        }
    }

    /// The state at which a search starts.
    pub fn new() -> (state: SearchState)
        ensures
            state.pivot == midpoint(),
            state.level == INITIAL_LEVEL,
            state.inv(),
    {
        SearchState { pivot: INITIAL_PIVOT, level: INITIAL_LEVEL }
    }

    /// Whether the search is over once `max_level` is the last level to be
    /// searched.
    pub fn is_finished(&self, max_level: u32) -> (done: bool)
        ensures
            done == (self.level > max_level),
    {
        self.level > max_level
    }

    /// Applies a decision to the state.
    pub fn apply(self, decision: Decision) -> (next: SearchState)
        requires
            self.inv(),
            decision is Hold || self.level <= LEVEL_LIMIT,
        ensures
            next == self.after(decision),
            next.inv(),
            next.pivot == match decision {
                Decision::Raise => self.pivot + adjustment_at(self.level as nat),
                Decision::Lower => self.pivot - adjustment_at(self.level as nat),
                Decision::Hold => self.pivot as int,
            },
    {
        proof {
            lemma_room_to_move(self.level as nat);
        }
        match decision {
            Decision::Raise => SearchState {
                pivot: self.pivot + adjustment(self.level),
                level: self.level + 1,
            },
            Decision::Lower => SearchState {
                pivot: self.pivot - adjustment(self.level),
                level: self.level + 1,
            },
            Decision::Hold => self,
        }
    }

    /// Ends a level: compares its two timing totals and moves accordingly.
    pub fn refine(self, sum_plus: u128, sum_minus: u128, threshold: u128) -> (next: SearchState)
        requires
            self.inv(),
            decision_for(sum_plus as int, sum_minus as int, threshold as int) is Hold || self.level
                <= LEVEL_LIMIT,
        ensures
            next == self.after(decision_for(sum_plus as int, sum_minus as int, threshold as int)),
            next.inv(),
    {
        self.apply(decide(sum_plus, sum_minus, threshold))
    }
}

/// The value space holds `2^128` values.
pub proof fn lemma_space_is_power_of_two()
    ensures
        space_size() == pow2(128),
{
    lemma2_to64();
    lemma_pow2_adds(64, 64);
    let half = pow2(64);
    assert(half * half == space_size()) by (nonlinear_arith)
        requires
            half == 0x1_0000_0000_0000_0000,
    ;
}

/// The adjustment of a level in closed form: a power of two.
pub proof fn lemma_adjustment_closed_form(level: nat)
    requires
        level <= 128,
    ensures
        adjustment_at(level) == pow2((128 - level) as nat),
{
    lemma_space_is_power_of_two();
    lemma_pow2_subtracts(level, 128);
}

/// Each level's adjustment is half the one before. Down to the last unit
/// of the value space the halves are exact: nothing is rounded away.
pub proof fn lemma_adjustment_halves(level: nat)
    ensures
        adjustment_at(level + 1) == adjustment_at(level) / 2,
        level < 128 ==> adjustment_at(level) == 2 * adjustment_at(level + 1),
        level < 128 ==> 0 < adjustment_at(level + 1) < adjustment_at(level),
{
    lemma_pow2_pos(level);
    lemma_pow2_unfold(level + 1);
    lemma_div_denominator(space_size(), pow2(level) as int, 2);
    assert(pow2(level) * 2 == pow2(level + 1));
    if level < 128 {
        lemma_adjustment_closed_form(level);
        lemma_adjustment_closed_form(level + 1);
        lemma_pow2_unfold((128 - level) as nat);
        lemma_pow2_pos((128 - (level + 1)) as nat);
    }
}

/// However far the pivot has come, what lies between its farthest reach
/// and the end of the value space is twice the next adjustment, so that the
/// adjustment can be made in either direction.
pub proof fn lemma_room_to_move(level: nat)
    requires
        2 <= level <= 128,
    ensures
        travelled(level) + 2 * adjustment_at(level) == midpoint() + 1,
        travelled(level + 1) == travelled(level) + adjustment_at(level),
        adjustment_at(level) >= 1,
        level <= 127 ==> adjustment_at(level) >= 2,
        level <= 127 ==> midpoint() + travelled(level) + adjustment_at(level) <= u128::MAX,
        level <= 127 ==> travelled(level) + adjustment_at(level) <= midpoint(),
    decreases level,
{
    lemma_adjustment_halves((level - 1) as nat);
    if level < 128 {
        lemma_adjustment_halves(level);
    }
    if level == 2 {
        lemma2_to64();
    } else {
        lemma_room_to_move((level - 1) as nat);
    }
}

/// Totals that differ by no more than the threshold leave pivot and level
/// as they were.
pub proof fn lemma_threshold_gating(
    state: SearchState,
    sum_plus: int,
    sum_minus: int,
    threshold: int,
)
    requires
        sum_plus - sum_minus <= threshold,
        sum_minus - sum_plus <= threshold,
    ensures
        decision_for(sum_plus, sum_minus, threshold) == Decision::Hold,
        state.after(decision_for(sum_plus, sum_minus, threshold)) == state,
{
}

/// A total that exceeds the other by more than the threshold moves the
/// pivot by exactly this level's adjustment, upward for the increasing side
/// and downward for the decreasing side, and advances the level by one.
pub proof fn lemma_direction(state: SearchState, sum_plus: int, sum_minus: int, threshold: int)
    requires
        state.inv(),
        state.level <= LEVEL_LIMIT,
        threshold >= 0,
    ensures
        sum_plus - sum_minus > threshold ==> {
            let next = state.after(decision_for(sum_plus, sum_minus, threshold));
            &&& next.pivot == state.pivot + adjustment_at(state.level as nat)
            &&& next.pivot > state.pivot
            &&& next.level == state.level + 1
        },
        sum_minus - sum_plus > threshold ==> {
            let next = state.after(decision_for(sum_plus, sum_minus, threshold));
            &&& next.pivot == state.pivot - adjustment_at(state.level as nat)
            &&& next.pivot < state.pivot
            &&& next.level == state.level + 1
        },
{
    lemma_room_to_move(state.level as nat);
}

/// Of two moves in a row the second is half as long as the first, and
/// shorter, whichever way each of them goes: how far a move goes depends
/// on its level alone.
pub proof fn lemma_successive_moves_halve(state: SearchState, first: Decision, second: Decision)
    requires
        state.inv(),
        state.level < LEVEL_LIMIT,
        !(first is Hold),
        !(second is Hold),
    ensures
        ({
            let middle = state.after(first);
            let end = middle.after(second);
            &&& distance(middle.pivot, state.pivot) == adjustment_at(state.level as nat)
            &&& distance(end.pivot, middle.pivot) == distance(middle.pivot, state.pivot) / 2
            &&& 0 < distance(end.pivot, middle.pivot) < distance(middle.pivot, state.pivot)
        }),
{
    lemma_room_to_move(state.level as nat);
    lemma_room_to_move((state.level + 1) as nat);
    lemma_adjustment_halves(state.level as nat);
}

/// The distance between two values.
pub open spec fn distance(a: u128, b: u128) -> nat {
    if a >= b {
        (a - b) as nat
    } else {
        (b - a) as nat
    }
}

/// How far from the pivot the hidden value can still lie on reaching
/// `level`, if every decision so far pointed at it.
pub open spec fn uncovered(level: nat) -> int {
    midpoint() + 1 - travelled(level)
}

/// The decision of an oracle that never misleads: up where the hidden value
/// lies above the pivot, down otherwise.
pub open spec fn toward(pivot: u128, secret: u128) -> Decision {
    if secret > pivot {
        Decision::Raise
    } else {
        Decision::Lower
    }
}

/// The state in which a search ends that starts from `state`, runs through
/// level `max_level` and is led by an oracle that never misleads.
pub open spec fn guided(state: SearchState, secret: u128, max_level: u32) -> SearchState
    decreases LEVEL_LIMIT + 1 - state.level,
{
    if state.level > max_level || state.level > LEVEL_LIMIT {
        state
    } else {
        guided(state.after(toward(state.pivot, secret)), secret, max_level)
    }
}

/// One step toward the hidden value keeps it within reach: what was within
/// the uncovered distance of this level is within that of the next.
pub proof fn lemma_guided_step(state: SearchState, secret: u128)
    requires
        state.inv(),
        state.level <= LEVEL_LIMIT,
        distance(state.pivot, secret) <= uncovered(state.level as nat),
    ensures
        ({
            let next = state.after(toward(state.pivot, secret));
            &&& next.inv()
            &&& next.level == state.level + 1
            &&& distance(next.pivot, secret) <= uncovered(next.level as nat)
        }),
{
    lemma_room_to_move(state.level as nat);
}

/// A search led by an oracle that never misleads ends with the hidden value
/// within the uncovered distance of the level it stops at.
pub proof fn lemma_guided_closes_in(state: SearchState, secret: u128, max_level: u32)
    requires
        state.inv(),
        max_level <= LEVEL_LIMIT,
        distance(state.pivot, secret) <= uncovered(state.level as nat),
    ensures
        ({
            let end = guided(state, secret, max_level);
            &&& end.inv()
            &&& end.level == if state.level > max_level {
                state.level
            } else {
                (max_level + 1) as u32
            }
            &&& distance(end.pivot, secret) <= uncovered(end.level as nat)
        }),
    decreases LEVEL_LIMIT + 1 - state.level,
{
    if state.level <= max_level {
        lemma_guided_step(state, secret);
        lemma_guided_closes_in(state.after(toward(state.pivot, secret)), secret, max_level);
    }
}

/// The uncovered distance in closed form: on reaching a level it is the
/// adjustment of the level before.
pub proof fn lemma_uncovered_closed_form(level: nat)
    requires
        2 <= level <= 128,
    ensures
        uncovered(level) == adjustment_at((level - 1) as nat),
        uncovered(level) == 2 * adjustment_at(level),
{
    lemma_room_to_move(level);
    lemma_adjustment_halves((level - 1) as nat);
}

/// Whatever the hidden value is, a search from the start, led by an
/// oracle that never misleads, ends within the adjustment of its last level
/// of that value: within the size of the value space over `2^max_level`.
/// With the default last level that is a distance of four.
pub proof fn lemma_search_converges(secret: u128, max_level: u32)
    requires
        max_level <= LEVEL_LIMIT,
    ensures
        ({
            let start = SearchState { pivot: INITIAL_PIVOT, level: INITIAL_LEVEL };
            let end = guided(start, secret, max_level);
            &&& end.inv()
            &&& max_level >= INITIAL_LEVEL ==> end.level == max_level + 1
            &&& distance(end.pivot, secret) <= adjustment_at(max_level as nat)
            &&& max_level == DEFAULT_MAX_LEVEL ==> distance(end.pivot, secret) <= 4
        }),
{
    let start = SearchState { pivot: INITIAL_PIVOT, level: INITIAL_LEVEL };
    lemma_uncovered_closed_form(2);
    lemma_guided_closes_in(start, secret, max_level);
    if max_level >= INITIAL_LEVEL {
        lemma_uncovered_closed_form((max_level + 1) as nat);
    } else {
        lemma_adjustment_closed_form(1);
        lemma_adjustment_closed_form(max_level as nat);
        if max_level == 0 {
            lemma_pow2_unfold(128);
        }
    }
    if max_level == DEFAULT_MAX_LEVEL {
        lemma_adjustment_closed_form(126);
        lemma2_to64();
    }
}

} // verus!
