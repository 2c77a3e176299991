//! A generic two-player game-search library: rules abstraction, Monte Carlo
//! tree search, depth-limited alpha-beta minimax, and two concrete games.
pub mod game;
pub mod hexgrid;
pub mod hexxagon;
pub mod move_generation;
pub mod ai;
mod clock;
mod random;
pub mod mcts;
pub mod minimax;
pub mod random_ai;
pub mod tic_tac_toe;
