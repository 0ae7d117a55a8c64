//! Simulation core of a turn-based, grid-based tactical combat game.
//!
//! The crate owns the generic identifier/arena substrate, the static content
//! definitions (classes, skills, effects, maps), the weighted-grid pathfinding
//! used for movement legality, the skill range/targeting rules, the damage
//! formula, and the per-turn action state machine that ties them together.

mod id_map;

pub use id_map::{Id, IdMap, IdMapBuilder};

pub mod character;
pub mod class;
pub mod damage;
pub mod effect;
pub mod error;
pub mod game_definition;
pub mod game_state;
pub mod map;
pub mod skill;
pub mod wire;
