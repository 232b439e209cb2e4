//! Simulation core of a grid-based block-pushing puzzle game: tiles,
//! entities, the move-resolution engine, level text parsing and random
//! level generation.

pub mod assets;
pub mod direction;
pub mod entity;
pub mod events;
pub mod laws;
pub mod level;
pub mod navigation;
pub mod parse;
pub mod random;
pub mod resolve;
pub mod sounds;
pub mod tile;
pub mod tilemap;
