use game_ai::ai::GameAi;
use game_ai::game::{GameRules, GameStateTrait, PlayerIndex, Rewards};
use game_ai::hexxagon::HexxagonRules;
use game_ai::mcts::{search_tree, ChildScore, GenericMonteCarloTreeSearchAi, StopCondition, Tree, TreePolicy};
use game_ai::tic_tac_toe::{GridCell, TTTAction, TTTPlayer, TTTRules, TTTState};
use rand::seq::SliceRandom;
use rand::Rng;
use std::time::Duration;

/// UCB1 with exploration constant 1, ties broken at random; with
/// `final_by_visits` the final move is the most visited child instead.
struct Ucb1 {
    final_by_visits: bool,
}

fn ucb1_pick(parent_visits: u64, children: &Vec<ChildScore>) -> usize {
    let log_parent = 2.0 * (parent_visits as f32).ln();
    let mut best = f32::NEG_INFINITY;
    let mut picked = 0;
    let mut ties = 0;
    for (i, child) in children.iter().enumerate() {
        let n = child.visits as f32;
        let score = (child.reward as f32 / 2.0) / n + (log_parent / n).sqrt();
        if score > best {
            best = score;
            picked = i;
            ties = 1;
        } else if score == best {
            ties += 1;
            if rand::thread_rng().gen_range(0..ties) == 0 {
                picked = i;
            }
        }
    }
    picked
}

impl TreePolicy for Ucb1 {
    fn pick_child(&mut self, parent_visits: u64, children: &Vec<ChildScore>) -> usize {
        ucb1_pick(parent_visits, children)
    }

    fn pick_move(&mut self, parent_visits: u64, children: &Vec<ChildScore>) -> usize {
        if self.final_by_visits {
            let mut picked = 0;
            for (i, child) in children.iter().enumerate() {
                if child.visits > children[picked].visits {
                    picked = i;
                }
            }
            picked
        } else {
            ucb1_pick(parent_visits, children)
        }
    }
}

const UCB1: Ucb1 = Ucb1 { final_by_visits: false };
const MOST_VISITED: Ucb1 = Ucb1 { final_by_visits: true };

const E: GridCell = GridCell::Empty;
const X: GridCell = GridCell::Occupied(TTTPlayer::X);
const O: GridCell = GridCell::Occupied(TTTPlayer::O);

fn play_against_random() -> Rewards {
    let mut game_state = TTTState::default();
    let mut ai = GenericMonteCarloTreeSearchAi::<TTTRules, Ucb1>::new(StopCondition::Iterations(10000), UCB1);
    while !game_state.is_final() {
        if game_state.next_player() == TTTPlayer::X.index() {
            let ai_move = ai.determine_next_move(&game_state);
            game_state = TTTRules::play(&game_state, &ai_move);
        } else {
            let possible_moves = game_state.get_actions();
            let random_move = possible_moves.choose(&mut rand::thread_rng()).unwrap();
            game_state = TTTRules::play(&game_state, random_move);
        }
    }
    game_state.reward()
}

#[test]
fn test_generic_mcts_tic_tac_toe() {
    for _ in 0..100 {
        assert_ne!(
            play_against_random(),
            Rewards {
                player_0: 0,
                player_1: 2
            },
            "MCTS must not loose against random opponent in tic tac toe"
        )
    }
}

#[test]
fn test_hexxagon() {
    let initial_state = <HexxagonRules as GameRules>::State::default();
    let mut ai = GenericMonteCarloTreeSearchAi::<HexxagonRules, Ucb1>::new(StopCondition::Iterations(100), UCB1);
    let resulting_move = ai.determine_next_move(&initial_state);
    assert!(initial_state.get_actions().contains(&resulting_move));
}

#[test]
fn mcts_completes_the_diagonal() {
    let s = TTTState::from_cells([[X, O, E], [O, X, E], [E, E, E]], TTTPlayer::X);
    let mut ai = GenericMonteCarloTreeSearchAi::<TTTRules, Ucb1>::new(StopCondition::Iterations(1000), MOST_VISITED);
    assert_eq!(ai.determine_next_move(&s), TTTAction { row: 2, col: 2 });
}

#[test]
fn mcts_blocks_the_row() {
    let s = TTTState::from_cells([[X, X, E], [E, E, E], [E, E, E]], TTTPlayer::O);
    let mut ai = GenericMonteCarloTreeSearchAi::<TTTRules, Ucb1>::new(StopCondition::Iterations(1000), MOST_VISITED);
    assert_eq!(ai.determine_next_move(&s), TTTAction { row: 0, col: 2 });
}

#[test]
fn one_iteration_makes_one_child_with_one_visit() {
    let s = TTTState::default();
    let tree: Tree<TTTRules> = search_tree(&s, &StopCondition::Iterations(1), &mut UCB1);
    assert_eq!(tree.root_visits(), 1);
    let children = tree.child_scores(0);
    assert_eq!(children.len(), 1);
    assert_eq!(children[0].visits, 1);
}

#[test]
fn root_visits_count_iterations() {
    let s = TTTState::default();
    for k in [1usize, 2, 9, 10, 57] {
        let tree: Tree<TTTRules> = search_tree(&s, &StopCondition::Iterations(k), &mut UCB1);
        assert_eq!(tree.root_visits(), k as u64);
        let children = tree.child_scores(0);
        let sum: u64 = children.iter().map(|c| c.visits).sum();
        assert!(sum <= k as u64);
        assert!(children.iter().all(|c| c.visits >= 1));
        assert!(children.iter().all(|c| c.reward <= 2 * c.visits));
    }
}

#[test]
fn time_budget_stops_the_search() {
    let s = TTTState::default();
    let tree: Tree<TTTRules> = search_tree(&s, &StopCondition::Time(Duration::from_millis(20)), &mut UCB1);
    assert!(tree.root_visits() >= 1);
    let mut ai = GenericMonteCarloTreeSearchAi::<TTTRules, Ucb1>::new(StopCondition::Time(Duration::from_millis(20)), UCB1);
    let m = ai.determine_next_move(&s);
    assert!(s.get_actions().contains(&m));
    assert_eq!(GameAi::<TTTRules>::name(&ai), "Generic Monte Carlo tree search");
}

#[test]
fn final_root_is_backed_up_without_children() {
    let won = TTTState::from_cells([[X, X, X], [O, O, E], [E, E, E]], TTTPlayer::O);
    let tree: Tree<TTTRules> = search_tree(&won, &StopCondition::Iterations(5), &mut UCB1);
    assert_eq!(tree.root_visits(), 5);
    assert_eq!(tree.child_scores(0).len(), 0);
    assert_eq!(won.next_player(), PlayerIndex::One);
}

#[test]
fn agent_keeps_the_tree_of_its_decision() {
    let s = TTTState::default();
    let mut ai = GenericMonteCarloTreeSearchAi::<TTTRules, Ucb1>::new(StopCondition::Iterations(1), UCB1);
    assert!(ai.last_tree().is_none());
    let m = ai.determine_next_move(&s);
    let tree = ai.last_tree().unwrap();
    assert_eq!(tree.root_visits(), 1);
    let children = tree.children_of(0);
    assert_eq!(children.len(), 1);
    assert_eq!(tree.visit_count(children[0]), 1);
    assert_eq!(*tree.child_action_of(0, 0), m);
    let child_state = tree.node_state(children[0]).unwrap();
    let played = TTTRules::play(&s, &m);
    for r in 0..3 {
        for c in 0..3 {
            assert_eq!(child_state.get_cell(r, c), played.get_cell(r, c));
        }
    }
}
