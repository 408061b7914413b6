//! Simulation core of a 2D tile-based platformer: a tile grid, an animation
//! player, a collision resolver and the behaviour table that drives each
//! entity.
pub mod animation;
pub mod audio;
pub mod behavior;
pub mod collision;
pub mod graphics;
pub mod resources;
pub mod snapshot;
pub mod state;
pub mod texture;
pub mod tiles;
pub mod types;
pub mod world;
