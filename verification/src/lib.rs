//! The core of a tile-based puzzle game: the playfield grid, the level-pack
//! decoder, and the per-frame input decisions.

pub mod board;
mod clock;
pub mod document;
pub mod game;
pub mod keyset;
pub mod level;
pub mod pack;
pub mod xml;

pub use crate::game::{Action, GameState};
