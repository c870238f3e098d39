//! Maze tiles.
//!
//! A maze is assembled from small rectangular tiles, each carrying a grid of
//! field values (background, ground or walkable path) anchored at a grid
//! coordinate. The library places tiles into a maze, rotates their field
//! grids, decides whether two placed tiles connect along a shared walkable
//! edge, and flattens all placed tiles into one maze-wide field array.

pub mod direction;
pub mod field;
pub mod maze;
pub mod position;
pub mod rotation;
pub mod size;
pub mod tile;
pub mod tile_group;
