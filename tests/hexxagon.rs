use game_ai::ai::Evaluator;
use game_ai::game::{GameRules, GameStateTrait, PlayerIndex};
use game_ai::hexgrid::AxialVector;
use game_ai::hexxagon::{
    CellState, GameResult, GameState, HexxagonEvaluator, HexxagonRules, MoveResult, Player,
};
use game_ai::move_generation::{all_moves, sample_valid_move, HexxagonMove};

fn mv(src: (i32, i32), dst: (i32, i32)) -> HexxagonMove {
    HexxagonMove { src: src.into(), dst: dst.into() }
}

#[test]
fn initialize() {
    let state = GameState::initialize();
    let score = state.scores();
    assert_eq!(score.pearls, 3);
    assert_eq!(score.rubies, 3);
    assert_eq!(state.result(), None);
}

#[test]
fn initial_position_cells() {
    let state = GameState::initialize();
    let field = state.get_field();
    assert_eq!(field.get((0, -1).into()), Some(CellState::Blocked));
    assert_eq!(field.get((1, 0).into()), Some(CellState::Blocked));
    assert_eq!(field.get((-1, 1).into()), Some(CellState::Blocked));
    assert_eq!(field.get((-4, 0).into()), Some(CellState::Occupied(Player::Rubies)));
    assert_eq!(field.get((4, -4).into()), Some(CellState::Occupied(Player::Rubies)));
    assert_eq!(field.get((0, 4).into()), Some(CellState::Occupied(Player::Rubies)));
    assert_eq!(field.get((0, -4).into()), Some(CellState::Occupied(Player::Pearls)));
    assert_eq!(field.get((-4, 4).into()), Some(CellState::Occupied(Player::Pearls)));
    assert_eq!(field.get((4, 0).into()), Some(CellState::Occupied(Player::Pearls)));
    assert_eq!(field.get((0, 0).into()), Some(CellState::Empty));
    assert_eq!(field.tile_iter().len(), 61);
    assert_eq!(state.next_player(), Player::Rubies);
}

#[test]
fn initial_moves_are_all_steps_and_jumps() {
    let state = GameState::default();
    let moves = state.get_actions();
    assert_eq!(moves.len(), 24);
    assert!(!state.is_final());
    for (i, m) in moves.iter().enumerate() {
        let d = (m.dst - m.src).length();
        assert!(d == 1 || d == 2);
        assert!(!moves[i + 1..].contains(m));
    }
    assert_eq!(moves, all_moves(&state));
}

#[test]
fn every_listed_move_succeeds() {
    let state = GameState::initialize();
    for m in state.get_actions() {
        let mut copy = state.clone();
        assert_eq!(copy.player_move(m.src, m.dst), MoveResult::Success);
        assert_eq!(copy.next_player(), Player::Pearls);
    }
}

#[test]
fn illegal_moves_fail_and_change_nothing() {
    let mut state = GameState::initialize();
    // too far
    assert_eq!(state.player_move((-4, 0).into(), (-1, 0).into()), MoveResult::Fail);
    // not the mover's piece
    assert_eq!(state.player_move((0, -4).into(), (0, -3).into()), MoveResult::Fail);
    // target occupied
    assert_eq!(state.player_move((0, 4).into(), (0, 4).into()), MoveResult::Fail);
    let mut state2 = GameState::initialize();
    assert_eq!(state2.player_move((-4, 0).into(), (-4, 0).into()), MoveResult::Fail);
    // off the board
    assert_eq!(state2.player_move((-4, 0).into(), (-5, 0).into()), MoveResult::Fail);
    // empty source
    assert_eq!(state2.player_move((0, 0).into(), (0, 1).into()), MoveResult::Fail);
    assert_eq!(state2.next_player(), Player::Rubies);
    assert_eq!(state2.scores().rubies, 3);
}

#[test]
fn step_adds_a_piece_and_jump_moves_it() {
    let mut state = GameState::initialize();
    assert_eq!(state.player_move((4, -4).into(), (4, -3).into()), MoveResult::Success);
    assert_eq!(state.scores().rubies, 4);
    assert_eq!(state.get_field().get((4, -4).into()), Some(CellState::Occupied(Player::Rubies)));
    assert_eq!(state.player_move((0, -4).into(), (-2, -2).into()), MoveResult::Success);
    assert_eq!(state.scores().pearls, 3);
    assert_eq!(state.get_field().get((0, -4).into()), Some(CellState::Empty));
}

#[test]
fn jump_next_to_pearls_captures() {
    let mut state = GameState::initialize();
    assert_eq!(state.player_move((4, -4).into(), (4, -3).into()), MoveResult::Success);
    assert_eq!(state.player_move((0, -4).into(), (0, -3).into()), MoveResult::Success);
    let before = state.scores();
    assert_eq!(state.player_move((4, -3).into(), (4, -1).into()), MoveResult::Success);
    let after = state.scores();
    assert_eq!(state.get_field().get((4, 0).into()), Some(CellState::Occupied(Player::Rubies)));
    assert_eq!(after.rubies, before.rubies + 1);
    assert_eq!(after.pearls, before.pearls - 1);
}

#[test]
fn step_next_to_pearls_captures() {
    let mut state = GameState::initialize();
    assert_eq!(state.player_move((4, -4).into(), (4, -2).into()), MoveResult::Success);
    assert_eq!(state.player_move((0, -4).into(), (0, -3).into()), MoveResult::Success);
    let before = state.scores();
    assert_eq!(state.player_move((4, -2).into(), (4, -1).into()), MoveResult::Success);
    let after = state.scores();
    assert_eq!(state.get_field().get((4, 0).into()), Some(CellState::Occupied(Player::Rubies)));
    assert_eq!(after.rubies, before.rubies + 2);
    assert_eq!(after.pearls, before.pearls - 1);
}

#[test]
fn play_matches_player_move_and_is_repeatable() {
    let state = GameState::initialize();
    let a = mv((-4, 0), (-3, 0));
    let one = HexxagonRules::play(&state, &a);
    let two = HexxagonRules::play(&state, &a);
    let mut by_hand = state.clone();
    assert_eq!(by_hand.player_move(a.src, a.dst), MoveResult::Success);
    for (pos, cell) in one.get_field().tile_iter() {
        assert_eq!(two.get_field().get(pos), Some(cell));
        assert_eq!(by_hand.get_field().get(pos), Some(cell));
    }
    assert_eq!(GameStateTrait::next_player(&one), PlayerIndex::One);
    assert_eq!(one.incoming_player(), PlayerIndex::Zero);
}

#[test]
fn game_ends_when_mover_has_no_reachable_cell() {
    let mut state = GameState::initialize();
    let mut plies = 0;
    while state.result().is_none() && plies < 10_000 {
        let m = sample_valid_move(&state);
        assert_eq!(state.player_move(m.src, m.dst), MoveResult::Success);
        plies += 1;
    }
    let result = state.result().expect("random game ended");
    let scores = state.scores();
    assert!(state.get_actions().is_empty());
    let rewards = state.reward();
    assert_eq!(rewards.player_0 + rewards.player_1, 2);
    match result {
        GameResult::Tie => assert_eq!(scores.rubies, scores.pearls),
        GameResult::Win(Player::Rubies) => assert!(scores.rubies > scores.pearls),
        GameResult::Win(Player::Pearls) => assert!(scores.rubies < scores.pearls),
    }
    assert_eq!(result.winner().is_none(), result == GameResult::Tie);
}

#[test]
fn rollout_gives_an_outcome() {
    let state = GameState::initialize();
    for _ in 0..5 {
        let r = HexxagonRules::random_rollout(&state);
        assert_eq!(r.player_0 + r.player_1, 2);
    }
}

#[test]
fn sampled_moves_are_legal() {
    let state = GameState::initialize();
    let moves = state.get_actions();
    for _ in 0..50 {
        let m = sample_valid_move(&state);
        assert!(moves.contains(&m));
    }
}

#[test]
fn evaluator_is_piece_difference() {
    let mut state = GameState::initialize();
    let e = HexxagonEvaluator {};
    assert_eq!(e.value(&state), 0);
    assert_eq!(state.player_move((4, -4).into(), (4, -3).into()), MoveResult::Success);
    assert_eq!(e.value(&state), 1);
}

#[test]
fn players_alternate() {
    assert_eq!(Player::Rubies.opponent(), Player::Pearls);
    assert_eq!(Player::Pearls.opponent().opponent(), Player::Pearls);
    assert_eq!(PlayerIndex::Zero.opponent().opponent(), PlayerIndex::Zero);
    assert!(PlayerIndex::Zero.is_maximizing());
    assert!(!PlayerIndex::One.is_maximizing());
    assert_eq!(usize::from(PlayerIndex::Zero), 0);
    assert_eq!(usize::from(PlayerIndex::One), 1);
    assert_eq!(<HexxagonRules as GameRules>::N_PLAYERS, 2);
    let _ = AxialVector::new(0, 0);
}
