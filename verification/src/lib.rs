//! The rules of a small turn-based dungeon game: a grid of tiles, enemies,
//! items that react to the phases of a day, and the effects they produce.

pub mod geom;
pub mod posset;
pub mod lights;
pub mod grid;
pub mod item;
pub mod arena;
pub mod random;
pub mod entity;
pub mod player;
pub mod effect;
pub mod animation;
pub mod model;
