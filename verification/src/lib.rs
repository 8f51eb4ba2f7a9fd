//! Simulation core of a tower-defense game: the tile grid and the enemy path
//! carved through it, spawners, tower targeting, projectile hits, and the
//! reaping of dead enemies that fills the player's purse.
//!
//! Everything here works on plain values. Positions, rendering, assets and
//! the entity storage of a game engine live outside this crate: it is told
//! the time in whole milliseconds and squared distances in whole square
//! units, and answers with what to create, what to destroy and what to show.

pub mod enemy;
pub mod projectile;
mod random;
pub mod simulation;
pub mod spawner;
pub mod tile_map;
pub mod tower;
