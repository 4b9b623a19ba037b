//! A solver for Skat played with open cards. Given the three hands, the
//! skat, the player who plays alone and the kind of game, it finds the
//! points that this player is sure of against the best play of the two
//! others: a search through the tree of the game with alpha-beta windows
//! and a table of the states already met.
//!
//! `bits` and `bitboard` hold cards and hands as words of 32 bits,
//! `cards` and `game` cards by suit and rank, `solver::rules` the game as
//! it is played, move by move, and the value of a state, `solver::laws`
//! what holds of every game, and the other modules of `solver` and
//! `solverv2` the searches.
pub mod bitboard;
pub mod bits;
pub mod cards;
pub mod game;
pub mod solver;
pub mod solverv2;
