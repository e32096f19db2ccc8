//! A 3x3 two-player board game with an exhaustive game-tree search engine.
//!
//! The `game` module holds the board: a 3x3 grid of cells with placement,
//! removal, occupancy queries and winner detection. The `search` module holds
//! the move-search engine: a plain exhaustive minimax evaluation that picks an
//! optimal move for the automated player, exploring the game tree by
//! speculative placements that it always undoes before returning.

pub mod game;
pub mod search;
