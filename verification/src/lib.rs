//! Many-layer 2D cellular maps.
//!
//! This crate provides the [`CellMap`] type, a two-dimensional grid of cells
//! with many layers, where each layer stores one value per cell. Cell indices
//! live in a rectangular, half-open [`Bounds`] range that may include negative
//! indices. The map supports bounds-checked access, resizing that preserves
//! the overlapping region, merging data from a finer map, and a composable
//! iteration engine over cells and windows.
//!
//! All coordinate arithmetic on cell indices is verified. The continuous
//! parent-frame placement of a map (cell size, rotation, translation) is the
//! business of a host layer built on top of this crate; the core works purely
//! in cell-index space.

pub mod bounds;
pub mod error;
pub mod iterators;
pub mod layer;

mod cell_map;

pub use crate::bounds::Bounds;
pub use crate::cell_map::CellMap;
pub use crate::error::Error;
pub use crate::layer::Layer;
