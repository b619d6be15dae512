//! Turn-based simulation core of a small roguelike: procedural dungeon
//! generation, an entity model with combat and a simple AI, and the
//! turn-resolution operations that tie player actions to world state.
//!
//! Rendering, input mapping and field-of-view computation are outside this
//! crate; the engine consumes visibility as plain data and exposes read
//! access to the map, the entities and the message log.

pub mod color;
pub mod config;
pub mod death;
pub mod decimal;
pub mod fighter;
pub mod game;
pub mod map;
pub mod messages;
pub mod object;
pub mod rect;
pub mod rng;
pub mod tile;
pub mod vis;
