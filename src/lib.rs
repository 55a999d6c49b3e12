//! Deduction and hint engine for a hidden-information deduction game played
//! on a hexagonal map: clue evaluation, per-player clue filtering, the
//! possibility overlay and question selection.

pub mod catalog;
pub mod deduce;
pub mod describe;
pub mod hex;
pub mod hints;
pub mod map;
pub mod model;
pub mod overlay;
pub mod pieces;
pub mod placing;
pub mod players;
pub mod session;
