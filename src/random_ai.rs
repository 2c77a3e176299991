use vstd::prelude::*;
use crate::ai::GameAi;
use crate::game::{GameRules, GameStateTrait};
use crate::random::random_below;

verus! {

/// An agent that plays a uniformly drawn legal action.
#[derive(Clone, Copy, Debug)]
pub struct RandomAi {}

impl<R: GameRules> GameAi<R> for RandomAi {
    fn determine_next_move(&mut self, gamestate: &R::State) -> (r: R::Action) {
        let mut possible_moves = gamestate.get_actions();
        let k = random_below(possible_moves.len());
        let r = possible_moves.swap_remove(k);
        assert(R::State::spec_actions(gamestate@)[k as int] == r);
        r
    }

    fn name(&self) -> String {
        "RandomAi".to_owned()
    }
}

} // verus!
