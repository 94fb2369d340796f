//! Rule engine for a turn-based tile-placement card game.
//!
//! Players draw cards from a pre-shuffled sequence and place them on a
//! square grid of tiles, stacking on top of existing cards, until one
//! color forms a run of four in a straight line. The engine owns the
//! board, the draw sequence, the placement-legality rules, the win
//! detection and the move history with exact undo.

pub mod board;
pub mod card;
pub mod direction;
pub mod engine;
pub mod history;
pub mod laws;
pub mod rules;
pub mod sequence;
pub mod win;
