//! Provides layerer types which are used in combination with [`Slicer`]
//! types to determine which layers of a [`CellMap`] an iteration visits, and
//! in what order.
//!
//! [`CellMap`]: crate::CellMap
//! [`Slicer`]: crate::iterators::slicers::Slicer

use std::collections::VecDeque;

use vstd::prelude::*;

use crate::layer::Layer;

verus! {

/// [`Layerer`] controls how an iterator over a [`CellMap`] walks the map's
/// layers.
///
/// [`CellMap`]: crate::CellMap
pub trait Layerer<L> where L: Layer {
    /// The layer the iteration currently reads, if any.
    spec fn spec_current(&self) -> Option<L>;

    /// Returns the current layer.
    fn current(&self) -> (r: Option<L>)
        ensures
            r == self.spec_current(),
    ;
}

/// Produces data from a single layer of a [`CellMap`].
///
/// [`CellMap`]: crate::CellMap
#[derive(Debug, Clone, Copy)]
pub struct Single<L> where L: Layer {
    pub layer: L,
}

/// Produces data from many layers of a [`CellMap`], front of the queue
/// first. The default queue holds every layer in [`Layer::to_index`] order.
///
/// [`CellMap`]: crate::CellMap
#[derive(Debug, Clone)]
pub struct Many<L> where L: Layer {
    pub layers: VecDeque<L>,
}

/// Produces data from two layers of a [`CellMap`] in pairs, allowing data to
/// be mapped from the `from` layer into the `to` layer in one pass.
///
/// [`CellMap`]: crate::CellMap
#[derive(Debug, Clone, Copy)]
pub struct MapLayers<L> where L: Layer {
    pub from: L,
    pub to: L,
}

impl<L> Layerer<L> for Single<L> where L: Layer {
    open spec fn spec_current(&self) -> Option<L> {
        Some(self.layer)
    }

    fn current(&self) -> (r: Option<L>) {
        Some(self.layer)
    }
}

impl<L> Layerer<L> for Many<L> where L: Layer {
    open spec fn spec_current(&self) -> Option<L> {
        if self.layers@.len() > 0 {
            Some(self.layers@[0])
        } else {
            None
        }
    }

    fn current(&self) -> (r: Option<L>) {
        if self.layers.len() > 0 {
            Some(self.layers[0])
        } else {
            None
        }
    }
}

impl<L> Layerer<L> for MapLayers<L> where L: Layer {
    open spec fn spec_current(&self) -> Option<L> {
        Some(self.from)
    }

    fn current(&self) -> (r: Option<L>) {
        Some(self.from)
    }
}

/// Builds the default layer queue: every layer of `L`, in index order.
pub fn all_layers_queue<L>() -> (r: VecDeque<L>) where L: Layer
    ensures
        r@.len() == L::NUM_LAYERS,
        forall|i: int| 0 <= i < r@.len() ==> (#[trigger] r@[i].to_index_spec()) == i,
{
    let all = L::all();
    let mut queue: VecDeque<L> = VecDeque::new();
    let mut i: usize = 0;
    while i < all.len()
        invariant
            i <= all.len(),
            all@.len() == L::NUM_LAYERS,
            forall|k: int| 0 <= k < all@.len() ==> (#[trigger] all@[k].to_index_spec()) == k,
            queue@.len() == i,
            forall|k: int| 0 <= k < i ==> (#[trigger] queue@[k].to_index_spec()) == k,
        decreases all.len() - i,
    {
        queue.push_back(all[i]);
        i += 1;
    }
    queue
}

} // verus!
