//! The error type shared by all fallible operations of the crate.

use vstd::prelude::*;

use crate::bounds::Bounds;

verus! {

/// Everything that can go wrong when building or using a [`CellMap`].
///
/// Each variant carries the offending values so that a host layer can report
/// them. Failures that only the continuous-coordinate host layer can detect
/// (such as a parent-frame position falling outside the map) are reported by
/// that layer with its own error type.
///
/// [`CellMap`]: crate::CellMap
#[derive(Debug, Clone, Copy, PartialEq, Eq)]
pub enum Error {
    /// A windowed iterator was requested whose window size (first value, as
    /// `(x, y)`) exceeds the size of the map (second value).
    WindowLargerThanMap((usize, usize), (usize, usize)),
    /// A map was built from per-layer data with the wrong number of layers:
    /// expected (first value), found (second value).
    WrongNumberOfLayers(usize, usize),
    /// A map was built from per-layer data in which some layer holds the
    /// wrong number of cells: expected (first value, the cell count of the
    /// bounds), found (second value).
    LayerWrongShape(usize, usize),
    /// Bounds were requested whose minimum exceeds the maximum on some axis.
    InvalidBounds(Bounds),
    /// A cell was addressed with an index (as `(x, y)`) outside the map.
    IndexOutsideMap((usize, usize)),
}

} // verus!
