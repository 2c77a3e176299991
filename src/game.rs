use vstd::prelude::*;
use crate::random::random_below;

verus! {

/// The two seats of a two-player game. `Zero` maximises evaluator values,
/// `One` minimises them.
#[derive(Clone, Copy, Debug, PartialEq, Eq, Structural)]
pub enum PlayerIndex {
    Zero,
    One,
}

impl PlayerIndex {
    pub open spec fn spec_opponent(self) -> PlayerIndex {
        match self {
            PlayerIndex::Zero => PlayerIndex::One,
            PlayerIndex::One => PlayerIndex::Zero,
        }
    }

    pub fn opponent(&self) -> (r: PlayerIndex)
        ensures
            r == self.spec_opponent(),
            r != *self,
    {
        match self {
            PlayerIndex::Zero => PlayerIndex::One,
            PlayerIndex::One => PlayerIndex::Zero,
        }
    }

    pub fn is_maximizing(&self) -> (r: bool)
        ensures
            r == (*self == PlayerIndex::Zero),
    {
        match self {
            PlayerIndex::Zero => true,
            PlayerIndex::One => false,
        }
    }
}

impl From<PlayerIndex> for usize {
    fn from(val: PlayerIndex) -> (r: usize) {
        match val {
            PlayerIndex::Zero => 0,
            PlayerIndex::One => 1,
        }
    }
}

impl vstd::std_specs::convert::FromSpecImpl<PlayerIndex> for usize {
    open spec fn obeys_from_spec() -> bool {
        true
    }

    open spec fn from_spec(v: PlayerIndex) -> usize {
        match v {
            PlayerIndex::Zero => 0,
            PlayerIndex::One => 1,
        }
    }
}

/// Taking the opponent twice gives back the player.
pub proof fn lemma_opponent_involutive(p: PlayerIndex)
    ensures
        p.spec_opponent().spec_opponent() == p,
{
}


/// Rewards of both players, counted in half points: a win is worth 2, a tie
/// 1 and a loss 0, so a single finished game hands out 2 in total. Sums over
/// many games accumulate in the same unit.
#[derive(Clone, Copy, Debug, PartialEq, Eq, Structural)]
pub struct Rewards {
    pub player_0: u64,
    pub player_1: u64,
}

/// Half points of a win.
pub const WIN_POINTS: u64 = 2;

/// Half points of a tie.
pub const TIE_POINTS: u64 = 1;

impl Rewards {
    pub open spec fn spec_for_player(self, p: PlayerIndex) -> u64 {
        match p {
            PlayerIndex::Zero => self.player_0,
            PlayerIndex::One => self.player_1,
        }
    }

    /// A single game's outcome: the two rewards share one win's worth.
    pub open spec fn is_outcome(self) -> bool {
        self.player_0 + self.player_1 == WIN_POINTS
    }

    pub open spec fn spec_win(p: PlayerIndex) -> Rewards {
        match p {
            PlayerIndex::Zero => Rewards { player_0: WIN_POINTS, player_1: 0 },
            PlayerIndex::One => Rewards { player_0: 0, player_1: WIN_POINTS },
        }
    }

    pub open spec fn spec_tie() -> Rewards {
        Rewards { player_0: TIE_POINTS, player_1: TIE_POINTS }
    }

    pub fn for_player(&self, p: &PlayerIndex) -> (r: u64)
        ensures
            r == self.spec_for_player(*p),
    {
        match p {
            PlayerIndex::Zero => self.player_0,
            PlayerIndex::One => self.player_1,
        }
    }

    /// The outcome in which `p` won.
    pub fn win(p: PlayerIndex) -> (r: Rewards)
        ensures
            r == Rewards::spec_win(p),
            r.is_outcome(),
    {
        match p {
            PlayerIndex::Zero => Rewards { player_0: WIN_POINTS, player_1: 0 },
            PlayerIndex::One => Rewards { player_0: 0, player_1: WIN_POINTS },
        }
    }

    /// The outcome of a tie.
    pub fn tie() -> (r: Rewards)
        ensures
            r == Rewards::spec_tie(),
            r.is_outcome(),
    {
        Rewards { player_0: TIE_POINTS, player_1: TIE_POINTS }
    }

    pub open spec fn zero_spec() -> Rewards {
        Rewards { player_0: 0, player_1: 0 }
    }

    /// No reward for either player.
    pub fn zero() -> (r: Rewards)
        ensures
            r == Rewards::zero_spec(),
    {
        Rewards { player_0: 0, player_1: 0 }
    }

    /// Adds `rhs` to both players' sums.
    pub fn add_assign(&mut self, rhs: &Rewards)
        requires
            old(self).player_0 + rhs.player_0 <= u64::MAX,
            old(self).player_1 + rhs.player_1 <= u64::MAX,
        ensures
            final(self).player_0 == old(self).player_0 + rhs.player_0,
            final(self).player_1 == old(self).player_1 + rhs.player_1,
    {
        self.player_0 = self.player_0 + rhs.player_0;
        self.player_1 = self.player_1 + rhs.player_1;
    }
}

/// A position of a game whose moves are of type `Action`. Its mathematical
/// model is its view; every query is stated over the view.
pub trait GameStateTrait<Action>: View + Sized {
    spec fn spec_is_final(s: Self::V) -> bool;

    spec fn spec_actions(s: Self::V) -> Seq<Action>;

    spec fn spec_reward(s: Self::V) -> Rewards;

    spec fn spec_next_player(s: Self::V) -> PlayerIndex;

    fn is_final(&self) -> (r: bool)
        ensures
            r == Self::spec_is_final(self@),
    ;

    /// All possible actions for the next player from this state; never empty
    /// while the game goes on.
    fn get_actions(&self) -> (r: Vec<Action>)
        ensures
            r@ == Self::spec_actions(self@),
            !Self::spec_is_final(self@) ==> r@.len() > 0,
    ;

    /// Reward of each player in a final state.
    fn reward(&self) -> (r: Rewards)
        requires
            Self::spec_is_final(self@),
        ensures
            r == Self::spec_reward(self@),
            r.is_outcome(),
    ;

    fn next_player(&self) -> (r: PlayerIndex)
        ensures
            r == Self::spec_next_player(self@),
    ;

    /// The player who made the move that led to this state.
    fn incoming_player(&self) -> (r: PlayerIndex)
        ensures
            r == Self::spec_next_player(self@).spec_opponent(),
    {
        self.next_player().opponent()
    }
}

/// The rules of a two-player game: its state and action types and the
/// transition between states.
pub trait GameRules: Sized {
    type Action: Copy;

    type State: GameStateTrait<Self::Action>;

    /// The number of players, always 2.
    const N_PLAYERS: u32;

    spec fn spec_play(
        s: <Self::State as View>::V,
        a: Self::Action,
    ) -> <Self::State as View>::V;

    /// The state reached from `initial_state` by `action`, which must be one of
    /// its actions.
    fn play(initial_state: &Self::State, action: &Self::Action) -> (r: Self::State)
        requires
            Self::State::spec_actions(initial_state@).contains(*action),
        ensures
            r@ == Self::spec_play(initial_state@, *action),
            Self::State::spec_next_player(r@) == Self::State::spec_next_player(
                initial_state@,
            ).spec_opponent(),
    ;
}

/// Longest random playout.
pub const MAX_ROLLOUT_PLIES: u64 = 0xffff_ffff_ffff_ffff;

/// `path` is a play of `acts`: each action is listed in the position before
/// it, which is not final, and leads to the position after it.
pub open spec fn is_play<R: GameRules>(path: Seq<<R::State as View>::V>, acts: Seq<R::Action>) -> bool {
    &&& path.len() == acts.len() + 1
    &&& forall|i: int| 0 <= i < acts.len() ==> #[trigger] is_ply::<R>(path[i], acts[i], path[i + 1])
}

/// Action `a`, listed in the unfinished position `before`, leads to `after`.
pub open spec fn is_ply<R: GameRules>(
    before: <R::State as View>::V,
    a: R::Action,
    after: <R::State as View>::V,
) -> bool {
    &&& !R::State::spec_is_final(before)
    &&& R::State::spec_actions(before).contains(a)
    &&& after == R::spec_play(before, a)
}

/// What a playout from `s` may return: the rewards of the final state that a
/// play from `s` reached, or a tie once it has played `MAX_ROLLOUT_PLIES`
/// plies without reaching one.
pub open spec fn is_playout_result<R: GameRules>(s: <R::State as View>::V, r: Rewards) -> bool {
    exists|path: Seq<<R::State as View>::V>, acts: Seq<R::Action>|
        #[trigger] is_play::<R>(path, acts) && path[0] == s && if R::State::spec_is_final(path.last()) {
            r == R::State::spec_reward(path.last())
        } else {
            acts.len() == MAX_ROLLOUT_PLIES && r == Rewards::spec_tie()
        }
}

/// A play extended by one listed action of its last, unfinished position.
pub proof fn lemma_play_push<R: GameRules>(
    path: Seq<<R::State as View>::V>,
    acts: Seq<R::Action>,
    a: R::Action,
)
    requires
        is_play::<R>(path, acts),
        !R::State::spec_is_final(path.last()),
        R::State::spec_actions(path.last()).contains(a),
    ensures
        is_play::<R>(path.push(R::spec_play(path.last(), a)), acts.push(a)),
{
    let path2 = path.push(R::spec_play(path.last(), a));
    let acts2 = acts.push(a);
    assert forall|i: int| 0 <= i < acts2.len() implies #[trigger] is_ply::<R>(path2[i], acts2[i], path2[i + 1]) by {
        if i < acts.len() {
            assert(acts2[i] == acts[i]);
            assert(path2[i] == path[i]);
            assert(path2[i + 1] == path[i + 1]);
        }
    }
    assert(path2.len() == acts2.len() + 1);
    assert(is_play::<R>(path2, acts2));
}

/// Plays uniformly drawn legal actions from `initial_state` until the game is
/// over and returns the final state's rewards; a playout cut off after
/// `MAX_ROLLOUT_PLIES` plies scores as a tie.
pub fn uniform_rollout<R: GameRules>(initial_state: &R::State) -> (r: Rewards)
    ensures
        r.is_outcome(),
        is_playout_result::<R>(initial_state@, r),
        R::State::spec_is_final(initial_state@) ==> r == R::State::spec_reward(initial_state@),
{
    let ghost mut path: Seq<<R::State as View>::V> = seq![initial_state@];
    let ghost mut acts: Seq<R::Action> = Seq::empty();
    assert(is_play::<R>(path, acts));
    if initial_state.is_final() {
        return initial_state.reward();
    }
    let actions = initial_state.get_actions();
    let pick = random_below(actions.len());
    let mut state = R::play(initial_state, &actions[pick]);
    proof {
        lemma_play_push::<R>(path, acts, actions@[pick as int]);
        path = path.push(state@);
        acts = acts.push(actions@[pick as int]);
    }
    let mut plies: u64 = 1;
    while plies < MAX_ROLLOUT_PLIES && !state.is_final()
        invariant
            is_play::<R>(path, acts),
            path[0] == initial_state@,
            path.last() == state@,
            acts.len() == plies,
        decreases MAX_ROLLOUT_PLIES - plies,
    {
        let actions = state.get_actions();
        let pick = random_below(actions.len());
        state = R::play(&state, &actions[pick]);
        proof {
            lemma_play_push::<R>(path, acts, actions@[pick as int]);
            path = path.push(state@);
            acts = acts.push(actions@[pick as int]);
        }
        plies = plies + 1;
    }
    if state.is_final() {
        state.reward()
    } else {
        Rewards::tie()
    }
}

/// `play` is a function of its arguments: two plays of one action from one
/// state reach the same position.
pub proof fn lemma_play_deterministic<R: GameRules>(
    s: R::State,
    a: R::Action,
    first: R::State,
    second: R::State,
)
    requires
        first@ == R::spec_play(s@, a),
        second@ == R::spec_play(s@, a),
    ensures
        first@ == second@,
{
}

} // verus!
