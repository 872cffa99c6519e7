//! Provides the definition of the [`Layer`] trait.

use vstd::prelude::*;

verus! {

/// Trait which defines the type of the layer index.
///
/// Layer indices should be small `enum`s (or similar finite types) for which
/// `to_index` and `from_index` are mutual inverses over `[0, NUM_LAYERS)` and
/// `all()` enumerates every value exactly once in index order. A map stores
/// one 2D array of cells per value of its layer type, and trusts these
/// obligations when it hands out data addressed by a layer.
///
/// An implementation written outside of this crate is not checked by the
/// verifier; the contracts below are what every implementation must honour.
pub trait Layer: Sized + Copy {
    /// The total number of layers possible with this [`Layer`].
    const NUM_LAYERS: usize;

    /// The first layer, i.e. the layer with index `0`.
    const FIRST: Self;

    /// The index this layer value stands for.
    ///
    /// An implementation inside the verifier overrides this with its real
    /// mapping and proves `to_index` against it. One outside the verifier
    /// cannot override a ghost function; it inherits this default, and what
    /// binds it is the executable contract of `to_index` alone.
    open spec fn to_index_spec(&self) -> int {
        0
    }

    /// Maps each value of the type to a unique layer index, which can be used
    /// to address that layer inside the map.
    fn to_index(&self) -> (i: usize)
        ensures
            i == self.to_index_spec(),
            0 <= i < Self::NUM_LAYERS,
    ;

    /// Maps each layer index back to a value of the layer type. Callers must
    /// only pass an index smaller than `NUM_LAYERS`.
    fn from_index(index: usize) -> (r: Self)
        requires
            index < Self::NUM_LAYERS,
        ensures
            r.to_index_spec() == index,
    ;

    /// Returns a vector of all layers in index order.
    fn all() -> (r: Vec<Self>)
        ensures
            r.len() == Self::NUM_LAYERS,
            forall|i: int|
                0 <= i < r.len() ==> (#[trigger] r[i].to_index_spec()) == i,
    ;
}

} // verus!
