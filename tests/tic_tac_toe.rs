use game_ai::ai::{GameAi, OutcomeEvaluator, Evaluator};
use game_ai::game::{GameRules, GameStateTrait, PlayerIndex, Rewards};
use game_ai::minimax::{minimax_value, MiniMax};
use game_ai::random_ai::RandomAi;
use game_ai::tic_tac_toe::{GridCell, TTTAction, TTTPlayer, TTTRules, TTTState};

const E: GridCell = GridCell::Empty;
const X: GridCell = GridCell::Occupied(TTTPlayer::X);
const O: GridCell = GridCell::Occupied(TTTPlayer::O);

fn at(row: usize, col: usize) -> TTTAction {
    TTTAction { row, col }
}

#[test]
fn empty_board_has_nine_moves() {
    let s = TTTState::default();
    assert_eq!(s.get_actions().len(), 9);
    assert!(!s.is_final());
    assert_eq!(s.next_player(), PlayerIndex::Zero);
    assert_eq!(s.get_actions()[4], at(1, 1));
}

#[test]
fn play_marks_and_alternates() {
    let s = TTTState::default();
    let t = TTTRules::play(&s, &at(1, 2));
    assert_eq!(t.get_cell(1, 2), X);
    assert_eq!(t.next_mark(), TTTPlayer::O);
    assert_eq!(GameStateTrait::next_player(&t), PlayerIndex::One);
    assert_eq!(t.incoming_player(), PlayerIndex::Zero);
    assert_eq!(t.get_actions().len(), 8);
    assert!(!t.get_actions().contains(&at(1, 2)));
    let u = TTTRules::play(&s, &at(1, 2));
    for r in 0..3 {
        for c in 0..3 {
            assert_eq!(t.get_cell(r, c), u.get_cell(r, c));
        }
    }
}

#[test]
fn rows_columns_and_diagonals_win() {
    let row = TTTState::from_cells([[E, E, E], [O, O, O], [X, X, E]], TTTPlayer::X);
    assert_eq!(row.winner(), Some(TTTPlayer::O));
    let col = TTTState::from_cells([[X, O, E], [X, O, E], [X, E, E]], TTTPlayer::O);
    assert_eq!(col.winner(), Some(TTTPlayer::X));
    let diag = TTTState::from_cells([[X, O, E], [O, X, E], [E, E, X]], TTTPlayer::O);
    assert_eq!(diag.winner(), Some(TTTPlayer::X));
    let anti = TTTState::from_cells([[X, X, O], [E, O, E], [O, X, E]], TTTPlayer::X);
    assert_eq!(anti.winner(), Some(TTTPlayer::O));
    assert!(anti.is_final());
    assert_eq!(anti.reward(), Rewards { player_0: 0, player_1: 2 });
    assert_eq!(col.reward(), Rewards { player_0: 2, player_1: 0 });
}

#[test]
fn full_board_without_line_is_a_tie() {
    let s = TTTState::from_cells([[X, O, X], [X, O, O], [O, X, X]], TTTPlayer::O);
    assert_eq!(s.winner(), None);
    assert!(s.is_final());
    assert!(s.get_actions().is_empty());
    assert_eq!(s.reward(), Rewards { player_0: 1, player_1: 1 });
}

#[test]
fn won_board_with_empty_cells_is_final() {
    let s = TTTState::from_cells([[X, X, X], [O, O, E], [E, E, E]], TTTPlayer::O);
    assert!(s.is_final());
    assert_eq!(s.get_actions().len(), 4);
}

#[test]
fn player_letters_and_seats() {
    assert_eq!(TTTPlayer::X.index(), PlayerIndex::Zero);
    assert_eq!(TTTPlayer::O.index(), PlayerIndex::One);
    assert_eq!(TTTPlayer::O.winner_to_reward(), Rewards { player_0: 0, player_1: 2 });
}

#[test]
fn minimax_depth_one_takes_the_win() {
    let s = TTTState::from_cells([[X, O, E], [O, X, E], [E, E, E]], TTTPlayer::X);
    let mut ai = MiniMax::new(1, OutcomeEvaluator::<TTTRules>::new());
    let m = ai.determine_next_move(&s);
    assert_eq!(m, at(2, 2));
    let s2 = TTTState::from_cells([[X, X, E], [O, O, E], [E, E, E]], TTTPlayer::X);
    assert_eq!(ai.determine_next_move(&s2), at(0, 2));
    assert_eq!(GameAi::<TTTRules>::name(&ai), "MiniMax (depth 1)");
}

#[test]
fn minimax_blocks_as_o() {
    let s = TTTState::from_cells([[X, X, E], [E, E, E], [E, E, E]], TTTPlayer::O);
    let mut ai = MiniMax::new(1, OutcomeEvaluator::<TTTRules>::new());
    assert_eq!(ai.determine_next_move(&s), at(0, 2));
}

#[test]
fn minimax_depth_zero_is_the_evaluation() {
    let e = OutcomeEvaluator::<TTTRules>::new();
    let won = TTTState::from_cells([[X, X, X], [O, O, E], [E, E, E]], TTTPlayer::O);
    let open = TTTState::from_cells([[X, O, E], [E, E, E], [E, E, E]], TTTPlayer::X);
    assert_eq!(minimax_value(&won, 0, i64::MIN, i64::MAX, false, &e), 2);
    assert_eq!(minimax_value(&open, 0, i64::MIN, i64::MAX, true, &e), 0);
    assert_eq!(e.value(&won), 2);
}

#[test]
fn minimax_full_depth_values() {
    let e = OutcomeEvaluator::<TTTRules>::new();
    // X to move wins at once
    let s = TTTState::from_cells([[X, O, E], [O, X, E], [E, E, E]], TTTPlayer::X);
    assert_eq!(minimax_value(&s, 9, i64::MIN, i64::MAX, true, &e), 2);
    // the empty board is a draw with best play
    let empty = TTTState::default();
    assert_eq!(minimax_value(&empty, 9, i64::MIN, i64::MAX, true, &e), 0);
}

#[test]
fn random_agent_plays_legal_moves() {
    let s = TTTState::from_cells([[X, O, E], [O, X, E], [E, E, E]], TTTPlayer::X);
    let mut ai = RandomAi {};
    for _ in 0..30 {
        let m = GameAi::<TTTRules>::determine_next_move(&mut ai, &s);
        assert!(s.get_actions().contains(&m));
    }
    assert_eq!(GameAi::<TTTRules>::name(&ai), "RandomAi");
}

#[test]
fn rollouts_end_in_outcomes() {
    let s = TTTState::default();
    for _ in 0..50 {
        let r = game_ai::game::uniform_rollout::<TTTRules>(&s);
        assert_eq!(r.player_0 + r.player_1, 2);
    }
    let won = TTTState::from_cells([[O, O, O], [X, X, E], [X, E, E]], TTTPlayer::X);
    assert_eq!(game_ai::game::uniform_rollout::<TTTRules>(&won), Rewards { player_0: 0, player_1: 2 });
}
