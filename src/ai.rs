use vstd::prelude::*;
use crate::game::{GameRules, GameStateTrait, Rewards};
use std::marker::PhantomData;

verus! {

/// An agent that picks moves.
pub trait GameAi<R: GameRules> {
    /// A legal action for the player to move in `gamestate`.
    fn determine_next_move(&mut self, gamestate: &R::State) -> (r: R::Action)
        requires
            !R::State::spec_is_final(gamestate@),
        ensures
            R::State::spec_actions(gamestate@).contains(r),
    ;

    /// A human-readable name, with no behavioural meaning.
    fn name(&self) -> String;
}

/// A heuristic value of states. Player Zero maximises the value, player One
/// minimises it. Values stay strictly inside the range of `i64`, whose two
/// ends stand for the infinities of the search.
pub trait Evaluator {
    type Rules: GameRules;

    spec fn spec_value(&self, s: <<Self::Rules as GameRules>::State as View>::V) -> int;

    fn value(&self, state: &<Self::Rules as GameRules>::State) -> (r: i64)
        ensures
            r == self.spec_value(state@),
            i64::MIN < r < i64::MAX,
    ;
}


/// Values final states by their outcome, player Zero's reward minus player
/// One's (in half points), and every other state as 0.
pub struct OutcomeEvaluator<R: GameRules> {
    rules: PhantomData<R>,
}

impl<R: GameRules> OutcomeEvaluator<R> {
    pub fn new() -> OutcomeEvaluator<R> {
        OutcomeEvaluator { rules: PhantomData }
    }
}

impl<R: GameRules> Clone for OutcomeEvaluator<R> {
    fn clone(&self) -> OutcomeEvaluator<R> {
        OutcomeEvaluator { rules: PhantomData }
    }
}

impl<R: GameRules> Evaluator for OutcomeEvaluator<R> {
    type Rules = R;

    open spec fn spec_value(&self, s: <R::State as View>::V) -> int {
        if R::State::spec_is_final(s) {
            R::State::spec_reward(s).player_0 - R::State::spec_reward(s).player_1
        } else {
            0
        }
    }

    fn value(&self, state: &R::State) -> (r: i64) {
        if state.is_final() {
            let rewards: Rewards = state.reward();
            rewards.player_0 as i64 - rewards.player_1 as i64
        } else {
            0
        }
    }
}

} // verus!
