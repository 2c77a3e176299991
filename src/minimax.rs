use vstd::prelude::*;
use crate::ai::{Evaluator, GameAi};
use crate::game::{GameRules, GameStateTrait, PlayerIndex};

verus! {

/// The exact minimax value of `s` searched `depth` plies deep: the
/// evaluation at depth 0 or in a final state, else the best child value for
/// the maximiser or the minimiser.
pub open spec fn mm_value<E: Evaluator>(
    e: &E,
    s: <<E::Rules as GameRules>::State as View>::V,
    depth: nat,
    maximizing: bool,
) -> int
    decreases depth, 1nat, 0nat,
{
    if depth == 0 || <E::Rules as GameRules>::State::spec_is_final(s) {
        e.spec_value(s)
    } else {
        mm_best(e, s, depth, maximizing, <E::Rules as GameRules>::State::spec_actions(s).len())
    }
}

/// The best value among the first `n` children of `s`; the far end of the
/// `i64` range when there are none.
pub open spec fn mm_best<E: Evaluator>(
    e: &E,
    s: <<E::Rules as GameRules>::State as View>::V,
    depth: nat,
    maximizing: bool,
    n: nat,
) -> int
    decreases depth, 0nat, n,
{
    if depth == 0 {
        0
    } else if n == 0 {
        if maximizing {
            i64::MIN as int
        } else {
            i64::MAX as int
        }
    } else {
        let prev = mm_best(e, s, depth, maximizing, (n - 1) as nat);
        let a = <E::Rules as GameRules>::State::spec_actions(s)[n - 1];
        let c = mm_value(e, E::Rules::spec_play(s, a), (depth - 1) as nat, !maximizing);
        if maximizing {
            if c > prev {
                c
            } else {
                prev
            }
        } else {
            if c < prev {
                c
            } else {
                prev
            }
        }
    }
}

/// Depth-limited alpha-beta search, fail-soft: a result strictly inside the
/// window `(alpha, beta)` is the exact minimax value; one at or below
/// `alpha` bounds it from above, one at or above `beta` from below. At depth
/// 0 or in a final state it is the evaluation, whatever the window.
pub fn minimax_value<E: Evaluator>(
    state: &<E::Rules as GameRules>::State,
    depth: usize,
    alpha: i64,
    beta: i64,
    maximizing_player: bool,
    eval: &E,
) -> (r: i64)
    requires
        depth > 0 && !<E::Rules as GameRules>::State::spec_is_final(state@) ==> alpha < beta,
    ensures
        i64::MIN < r < i64::MAX,
        alpha < r < beta ==> r == mm_value(eval, state@, depth as nat, maximizing_player),
        r <= alpha ==> mm_value(eval, state@, depth as nat, maximizing_player) <= r,
        r >= beta ==> mm_value(eval, state@, depth as nat, maximizing_player) >= r,
        depth == 0 ==> r == eval.spec_value(state@),
        <E::Rules as GameRules>::State::spec_is_final(state@) ==> r == eval.spec_value(state@),
    decreases depth,
{
    if depth == 0 || state.is_final() {
        return eval.value(state);
    }
    let ghost d = depth as nat;
    let possible_moves = state.get_actions();
    let ghost n = possible_moves@.len();
    assert(mm_value(eval, state@, d, maximizing_player) == mm_best(
        eval,
        state@,
        d,
        maximizing_player,
        possible_moves@.len() as nat,
    ));
    let mut alpha = alpha;
    let mut beta = beta;
    let ghost alpha0 = alpha;
    let ghost beta0 = beta;
    if maximizing_player {
        let mut value = i64::MIN;
        let mut i: usize = 0;
        while i < possible_moves.len()
            invariant_except_break
                value < beta0,
            invariant
                maximizing_player,
                0 < depth,
                d == depth as nat,
                mm_value(eval, state@, d, maximizing_player) == mm_best(
                    eval,
                    state@,
                    d,
                    maximizing_player,
                    possible_moves@.len() as nat,
                ),
                !<E::Rules as GameRules>::State::spec_is_final(state@),
                possible_moves@ == <E::Rules as GameRules>::State::spec_actions(state@),
                possible_moves@.len() > 0,
                i <= possible_moves@.len(),
                beta == beta0,
                alpha == if value > alpha0 {
                    value
                } else {
                    alpha0
                },
                alpha0 < beta0,
                i == 0 ==> value == i64::MIN,
                i > 0 ==> i64::MIN < value < i64::MAX,
                value < beta0 ==> mm_best(eval, state@, d, true, i as nat) <= value,
                value < beta0 && value > alpha0 ==> value == mm_best(eval, state@, d, true, i as nat),
                value >= beta0 ==> mm_value(eval, state@, d, true) >= value,
            ensures
                i64::MIN < value < i64::MAX,
                value < beta0 ==> mm_value(eval, state@, d, true) <= value,
                value < beta0 && value > alpha0 ==> value == mm_value(eval, state@, d, true),
                value >= beta0 ==> mm_value(eval, state@, d, true) >= value,
            decreases possible_moves@.len() - i,
        {
            let child_state = E::Rules::play(state, &possible_moves[i]);
            let c = minimax_value(&child_state, depth - 1, alpha, beta, false, eval);
            proof {
                lemma_best_grows(eval, state@, d, true, (i + 1) as nat);
            }
            if c > value {
                value = c;
            }
            if value > alpha {
                alpha = value;
            }
            i = i + 1;
            if value >= beta {
                break;
            }
        }
        value
    } else {
        let mut value = i64::MAX;
        let mut i: usize = 0;
        while i < possible_moves.len()
            invariant_except_break
                value > alpha0,
            invariant
                !maximizing_player,
                0 < depth,
                d == depth as nat,
                mm_value(eval, state@, d, maximizing_player) == mm_best(
                    eval,
                    state@,
                    d,
                    maximizing_player,
                    possible_moves@.len() as nat,
                ),
                !<E::Rules as GameRules>::State::spec_is_final(state@),
                possible_moves@ == <E::Rules as GameRules>::State::spec_actions(state@),
                possible_moves@.len() > 0,
                i <= possible_moves@.len(),
                alpha == alpha0,
                beta == if value < beta0 {
                    value
                } else {
                    beta0
                },
                alpha0 < beta0,
                i == 0 ==> value == i64::MAX,
                i > 0 ==> i64::MIN < value < i64::MAX,
                value > alpha0 ==> mm_best(eval, state@, d, false, i as nat) >= value,
                value > alpha0 && value < beta0 ==> value == mm_best(eval, state@, d, false, i as nat),
                value <= alpha0 ==> mm_value(eval, state@, d, false) <= value,
            ensures
                i64::MIN < value < i64::MAX,
                value > alpha0 ==> mm_value(eval, state@, d, false) >= value,
                value > alpha0 && value < beta0 ==> value == mm_value(eval, state@, d, false),
                value <= alpha0 ==> mm_value(eval, state@, d, false) <= value,
            decreases possible_moves@.len() - i,
        {
            let child_state = E::Rules::play(state, &possible_moves[i]);
            let c = minimax_value(&child_state, depth - 1, alpha, beta, true, eval);
            proof {
                lemma_best_grows(eval, state@, d, false, (i + 1) as nat);
            }
            if c < value {
                value = c;
            }
            if value < beta {
                beta = value;
            }
            i = i + 1;
            if value <= alpha {
                break;
            }
        }
        value
    }
}

/// The best of more children is at least as good: for the maximiser the
/// best of all bounds the best of the first `n` from above, and for the
/// minimiser from below.
pub proof fn lemma_best_grows<E: Evaluator>(
    e: &E,
    s: <<E::Rules as GameRules>::State as View>::V,
    depth: nat,
    maximizing: bool,
    n: nat,
)
    requires
        depth > 0,
        n <= <E::Rules as GameRules>::State::spec_actions(s).len(),
    ensures
        maximizing ==> mm_best(e, s, depth, maximizing, n) <= mm_best(
            e,
            s,
            depth,
            maximizing,
            <E::Rules as GameRules>::State::spec_actions(s).len(),
        ),
        !maximizing ==> mm_best(e, s, depth, maximizing, n) >= mm_best(
            e,
            s,
            depth,
            maximizing,
            <E::Rules as GameRules>::State::spec_actions(s).len(),
        ),
    decreases <E::Rules as GameRules>::State::spec_actions(s).len() - n,
{
    if n < <E::Rules as GameRules>::State::spec_actions(s).len() {
        lemma_best_grows(e, s, depth, maximizing, n + 1);
    }
}


/// The minimax value, `depth` plies deep, of the `j`-th child of `s`, for
/// the player to move in that child.
pub open spec fn child_value<E: Evaluator>(
    e: &E,
    s: <<E::Rules as GameRules>::State as View>::V,
    depth: nat,
    j: int,
) -> int {
    let c = E::Rules::spec_play(s, <E::Rules as GameRules>::State::spec_actions(s)[j]);
    mm_value(e, c, depth, <E::Rules as GameRules>::State::spec_next_player(c) == PlayerIndex::Zero)
}

/// `k` is the first child whose value is best for the player to move in
/// `s`: the highest for player Zero, the lowest for player One.
pub open spec fn is_best_choice<E: Evaluator>(
    e: &E,
    s: <<E::Rules as GameRules>::State as View>::V,
    depth: nat,
    k: int,
) -> bool {
    let n = <E::Rules as GameRules>::State::spec_actions(s).len();
    let maximizing = <E::Rules as GameRules>::State::spec_next_player(s) == PlayerIndex::Zero;
    &&& 0 <= k < n
    &&& forall|j: int|
        0 <= j < n ==> if maximizing {
            child_value(e, s, depth, j) <= child_value(e, s, depth, k)
        } else {
            child_value(e, s, depth, j) >= child_value(e, s, depth, k)
        }
    &&& forall|j: int|
        0 <= j < k ==> if maximizing {
            child_value(e, s, depth, j) < child_value(e, s, depth, k)
        } else {
            child_value(e, s, depth, j) > child_value(e, s, depth, k)
        }
}

/// A depth-limited alpha-beta agent with the evaluator `Eval`.
#[derive(Clone)]
pub struct MiniMax<Eval: Evaluator + Clone> {
    evaluator: Eval,
    depth: usize,
}

/// Relies on std's `format!`: the agent's display name.
#[verifier::external_body]
fn depth_label(depth: usize) -> String {
    format!("MiniMax (depth {})", depth)
}

impl<Eval: Evaluator + Clone> MiniMax<Eval> {
    pub fn new(depth: usize, evaluator: Eval) -> (r: MiniMax<Eval>)
        ensures
            r.depth() == depth,
            r.evaluator() == evaluator,
    {
        MiniMax { depth, evaluator }
    }

    pub closed spec fn depth(&self) -> usize {
        self.depth
    }

    pub closed spec fn evaluator(&self) -> Eval {
        self.evaluator
    }

    /// The index, among `gamestate`'s actions, of the move to play: each
    /// child is searched `depth` plies deep, and the first best one wins.
    pub fn best_move_index(&self, gamestate: &<Eval::Rules as GameRules>::State) -> (k: usize)
        requires
            !<Eval::Rules as GameRules>::State::spec_is_final(gamestate@),
        ensures
            is_best_choice(&self.evaluator(), gamestate@, self.depth() as nat, k as int),
    {
        let possible_moves = gamestate.get_actions();
        let maximizing = gamestate.next_player().is_maximizing();
        let ghost e = &self.evaluator;
        let ghost d = self.depth as nat;
        let mut best: usize = 0;
        let mut best_value: i64 = 0;
        let mut i: usize = 0;
        while i < possible_moves.len()
            invariant
                possible_moves@ == <Eval::Rules as GameRules>::State::spec_actions(gamestate@),
                possible_moves@.len() > 0,
                maximizing == (<Eval::Rules as GameRules>::State::spec_next_player(gamestate@)
                    == PlayerIndex::Zero),
                e == &self.evaluator,
                d == self.depth as nat,
                i <= possible_moves@.len(),
                i > 0 ==> best < i,
                i > 0 ==> best_value == child_value(e, gamestate@, d, best as int),
                forall|j: int|
                    0 <= j < i ==> if maximizing {
                        child_value(e, gamestate@, d, j) <= best_value
                    } else {
                        child_value(e, gamestate@, d, j) >= best_value
                    },
                forall|j: int|
                    0 <= j < best ==> if maximizing {
                        child_value(e, gamestate@, d, j) < best_value
                    } else {
                        child_value(e, gamestate@, d, j) > best_value
                    },
            decreases possible_moves@.len() - i,
        {
            let next_state = Eval::Rules::play(gamestate, &possible_moves[i]);
            let value = minimax_value(
                &next_state,
                self.depth,
                i64::MIN,
                i64::MAX,
                next_state.next_player().is_maximizing(),
                &self.evaluator,
            );
            if i == 0 || (maximizing && value > best_value) || (!maximizing && value < best_value) {
                best = i;
                best_value = value;
            }
            i = i + 1;
        }
        best
    }
}

impl<Eval: Evaluator + Clone> GameAi<Eval::Rules> for MiniMax<Eval> {
    /// The first action whose child is best for the player to move, each
    /// child searched `depth` plies deep.
    fn determine_next_move(&mut self, gamestate: &<Eval::Rules as GameRules>::State) -> (r: <Eval::Rules as GameRules>::Action)
        ensures
            exists|k: int|
                is_best_choice(&old(self).evaluator(), gamestate@, old(self).depth() as nat, k)
                    && r == <Eval::Rules as GameRules>::State::spec_actions(gamestate@)[k],
    {
        let k = self.best_move_index(gamestate);
        let mut possible_moves = gamestate.get_actions();
        let r = possible_moves.swap_remove(k);
        assert(<Eval::Rules as GameRules>::State::spec_actions(gamestate@)[k as int] == r);
        r
    }

    fn name(&self) -> String {
        depth_label(self.depth)
    }
}

} // verus!
