//! Grid-based puzzle game logic: the entity grid, movement, game events,
//! level loading fix-ups and the state of the menu, editor and gameplay screens.
pub mod geometry;

pub use geometry::{Direction, GridPos};
pub mod grid;
pub use grid::{EntityId, Grid};
pub mod resources;
pub mod components;
pub mod ecs;
pub mod serialize;
pub mod world_grid;
pub use world_grid::WorldGrid;
pub mod utils;
pub mod events;
pub mod systems;
pub mod states;
pub mod gameplay;
pub mod menu;
pub mod editor;
