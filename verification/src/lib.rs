//! Board-state and move-legality engine for a two-player organism-growth
//! game on a small rectangular grid. Each player grows a tree of connected
//! organs rooted at one or more root cells, spending harvested proteins to
//! place new organs that can block, attack, or starve the opponent.

pub mod action;
pub mod action_type;
pub mod action_validator;
pub mod binary_map;
pub mod cell;
pub mod coord;
pub mod grid;
pub mod organ;
pub mod organ_direction;
pub mod organ_owner;
pub mod organ_type;
pub mod play;
pub mod player;
pub mod protein;
pub mod protein_summary;
pub mod protein_wallet;
pub mod reach;

pub use coord::Coord;
