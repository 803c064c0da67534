//! Move-selection engine for a 19x19 five-in-a-row variant with a
//! pair-capture rule and a capture-count win condition.
//!
//! The crate is organised leaves first: `zobrist` produces the position
//! fingerprint, `board` holds the game state whose hash is proved to stay in
//! sync with a from-scratch recomputation, `rules` applies moves (captures,
//! win verification, double free-three rejection), `evaluator` scores a
//! position, `move_ordering` generates and ranks candidate moves,
//! `transposition_table` caches search results keyed by the fingerprint,
//! `ai` drives the iterative-deepening alpha-beta search, and
//! `reference_search` proves that pruning never changes the root score a
//! full-window search would report.

pub mod ai;
pub mod board;
pub mod evaluator;
pub mod move_ordering;
pub mod reference_search;
pub mod rules;
pub mod transposition_table;
pub mod zobrist;
