//! Procedural 2-D dungeon generation: a layout generator that places
//! non-overlapping rooms, connects them with corridors and populates doors
//! and items, and a rasterizer that carves the layout into a tile grid.

pub mod corridor;
pub mod door;
pub mod dungeon;
pub mod dungeonmap;
pub mod item;
pub mod rng;
pub mod room;
