//! The [`CellMap`] type: per-layer cell storage with bounds-checked access.

use core::marker::PhantomData;

use vstd::prelude::*;

use crate::bounds::Bounds;
use crate::error::Error;
use crate::layer::Layer;

verus! {

/// Provides a many-layer 2D map of cellular data.
///
/// Each layer stores one value of type `T` per cell, all layers sharing the
/// shape given by the map's [`Bounds`]. A cell is addressed by a layer value
/// of type `L` and an `(x, y)` index pair, where `x` counts columns and `y`
/// counts rows from the minimum corner of the bounds.
///
/// Internally a layer is kept as one flat, row-major array: the cell at
/// `(x, y)` lives at offset `y * width + x` of its layer.
#[derive(Debug)]
pub struct CellMap<L, T> where L: Layer {
    /// Stores each layer of the map as a flat row-major array.
    data: Vec<Vec<T>>,

    /// The cell bounds of the map.
    cell_bounds: Bounds,

    layer_type: PhantomData<L>,
}

impl<L, T> CellMap<L, T> where L: Layer {
    /// The bounds of the map, as seen by specifications.
    pub closed spec fn spec_bounds(self) -> Bounds {
        self.cell_bounds
    }

    /// The cell contents of the map: one flat row-major sequence per layer.
    pub closed spec fn layers(self) -> Seq<Seq<T>> {
        self.data@.map_values(|v: Vec<T>| v@)
    }

    /// Number of cells on the x axis.
    pub open spec fn nx(self) -> int {
        self.spec_bounds().width()
    }

    /// Number of cells on the y axis.
    pub open spec fn ny(self) -> int {
        self.spec_bounds().height()
    }

    /// Total number of cells of one layer.
    pub open spec fn area(self) -> int {
        self.spec_bounds().area()
    }

    /// Whether an `(x, y)` pair addresses a cell of the map.
    pub open spec fn in_shape(self, x: int, y: int) -> bool {
        &&& 0 <= x < self.nx()
        &&& 0 <= y < self.ny()
    }

    /// The value of the cell at index `(x, y)` of the layer with index `l`.
    pub open spec fn cell(self, l: int, x: int, y: int) -> T {
        self.layers()[l][y * self.nx() + x]
    }

    /// Well-formedness: the bounds are valid, there is one layer per value of
    /// `L`, every layer has exactly one value per cell, and the cell count
    /// fits the machine.
    pub open spec fn wf(self) -> bool {
        &&& self.spec_bounds().valid()
        &&& self.layers().len() == L::NUM_LAYERS
        &&& forall|l: int|
            0 <= l < self.layers().len() ==> (#[trigger] self.layers()[l]).len() == self.area()
        &&& self.area() <= usize::MAX
    }

    /// Whether two maps have the same bounds and per-layer lengths.
    pub open spec fn same_shape(self, other: Self) -> bool {
        &&& other.spec_bounds() == self.spec_bounds()
        &&& other.layers().len() == self.layers().len()
        &&& forall|l: int|
            0 <= l < self.layers().len() ==> (#[trigger] other.layers()[l]).len()
                == self.layers()[l].len()
    }

    /// Whether `new` is `old` with the single cell `(l, x, y)` set to `v`.
    pub open spec fn updated_at(old_m: Self, new_m: Self, l: int, x: int, y: int, v: T) -> bool {
        &&& new_m.spec_bounds() == old_m.spec_bounds()
        &&& new_m.layers().len() == old_m.layers().len()
        &&& forall|l2: int|
            0 <= l2 < old_m.layers().len() && l2 != l ==> (#[trigger] new_m.layers()[l2])
                == old_m.layers()[l2]
        &&& new_m.layers()[l] == old_m.layers()[l].update(y * old_m.nx() + x, v)
    }

    /// Returns the bounds of this map.
    pub fn cell_bounds(&self) -> (r: Bounds)
        ensures
            r == self.spec_bounds(),
    {
        self.cell_bounds
    }

    /// Returns the number of cells in each direction of the map, as `(x, y)`.
    pub fn num_cells(&self) -> (r: (usize, usize))
        requires
            self.wf(),
        ensures
            r.0 == self.nx(),
            r.1 == self.ny(),
    {
        self.cell_bounds.get_num_cells()
    }

    /// Returns whether or not the given index is inside the map.
    pub fn index_in_map(&self, index: (usize, usize)) -> (r: bool)
        requires
            self.wf(),
        ensures
            r == self.in_shape(index.0 as int, index.1 as int),
    {
        let num = self.cell_bounds.get_num_cells();
        index.0 < num.0 && index.1 < num.1
    }

    /// Get a reference to the value at the given layer and index. Returns
    /// `None` if the index is outside the bounds of the map.
    pub fn get(&self, layer: L, index: (usize, usize)) -> (r: Option<&T>)
        requires
            self.wf(),
        ensures
            r is Some <==> self.in_shape(index.0 as int, index.1 as int),
            r is Some ==> *r.unwrap() == self.cell(
                layer.to_index_spec(),
                index.0 as int,
                index.1 as int,
            ),
    {
        if self.index_in_map(index) {
            Some(self.get_unchecked(layer, index))
        } else {
            None
        }
    }

    /// Get a reference to the value at the given layer and index, without
    /// checking the bounds of the map: callers must only pass an index that
    /// lies inside them.
    pub fn get_unchecked(&self, layer: L, index: (usize, usize)) -> (r: &T)
        requires
            self.wf(),
            self.in_shape(index.0 as int, index.1 as int),
        ensures
            *r == self.cell(layer.to_index_spec(), index.0 as int, index.1 as int),
    {
        let num = self.cell_bounds.get_num_cells();
        let l = layer.to_index();
        proof {
            lemma_flat_index_bound(index.0 as int, index.1 as int, self.nx(), self.ny());
            assert(self.layers()[l as int] == self.data@[l as int]@);
            assert(self.layers()[l as int].len() == self.area());
        }
        &self.data[l][index.1 * num.0 + index.0]
    }

    /// Get a mutable reference to the value at the given layer and index.
    /// Returns `None`, and leaves the map unchanged, if the index is outside
    /// the bounds of the map.
    pub fn get_mut(&mut self, layer: L, index: (usize, usize)) -> (r: Option<&mut T>)
        requires
            old(self).wf(),
        ensures
            r is Some <==> old(self).in_shape(index.0 as int, index.1 as int),
            r is Some ==> {
                &&& *r.unwrap() == old(self).cell(
                    layer.to_index_spec(),
                    index.0 as int,
                    index.1 as int,
                )
                &&& Self::updated_at(
                    *old(self),
                    *final(self),
                    layer.to_index_spec(),
                    index.0 as int,
                    index.1 as int,
                    *final(r.unwrap()),
                )
            },
            r is None ==> *final(self) == *old(self),
    {
        if self.index_in_map(index) {
            Some(self.get_mut_unchecked(layer, index))
        } else {
            None
        }
    }

    /// Get a mutable reference to the value at the given layer and index,
    /// without checking the bounds of the map: callers must only pass an
    /// index that lies inside them.
    pub fn get_mut_unchecked(&mut self, layer: L, index: (usize, usize)) -> (r: &mut T)
        requires
            old(self).wf(),
            old(self).in_shape(index.0 as int, index.1 as int),
        ensures
            0 <= layer.to_index_spec() < L::NUM_LAYERS,
            *r == old(self).cell(layer.to_index_spec(), index.0 as int, index.1 as int),
            Self::updated_at(
                *old(self),
                *final(self),
                layer.to_index_spec(),
                index.0 as int,
                index.1 as int,
                *final(r),
            ),
    {
        let num = self.cell_bounds.get_num_cells();
        let l = layer.to_index();
        proof {
            lemma_flat_index_bound(index.0 as int, index.1 as int, self.nx(), self.ny());
            assert(self.layers()[l as int] == self.data@[l as int]@);
            assert(self.layers()[l as int].len() == self.area());
        }
        let k = index.1 * num.0 + index.0;
        &mut self.data[l][k]
    }

    /// Set the given layer and index in the map to the given value. Returns
    /// an error, and leaves the map unchanged, if the index is outside the
    /// map.
    pub fn set(&mut self, layer: L, index: (usize, usize), value: T) -> (r: Result<(), Error>)
        requires
            old(self).wf(),
        ensures
            r is Ok <==> old(self).in_shape(index.0 as int, index.1 as int),
            r is Ok ==> Self::updated_at(
                *old(self),
                *final(self),
                layer.to_index_spec(),
                index.0 as int,
                index.1 as int,
                value,
            ) && final(self).wf(),
            r is Err ==> r == Err::<(), Error>(Error::IndexOutsideMap(index)) && *final(self)
                == *old(self),
    {
        if self.index_in_map(index) {
            self.set_unchecked(layer, index, value);
            Ok(())
        } else {
            Err(Error::IndexOutsideMap(index))
        }
    }

    /// Set the given layer and index in the map to the given value, without
    /// checking the bounds of the map: callers must only pass an index that
    /// lies inside them.
    pub fn set_unchecked(&mut self, layer: L, index: (usize, usize), value: T)
        requires
            old(self).wf(),
            old(self).in_shape(index.0 as int, index.1 as int),
        ensures
            Self::updated_at(
                *old(self),
                *final(self),
                layer.to_index_spec(),
                index.0 as int,
                index.1 as int,
                value,
            ),
            final(self).wf(),
    {
        let target = self.get_mut_unchecked(layer, index);
        *target = value;
        proof {
            lemma_updated_at_cells(
                *old(self),
                *self,
                layer.to_index_spec(),
                index.0 as int,
                index.1 as int,
                value,
            );
        }
    }
}

impl<L, T> CellMap<L, T> where L: Layer {
    /// Creates a new map from the given bounds and per-layer data, one flat
    /// row-major array per layer.
    ///
    /// If the data has the wrong number of layers, or some layer does not
    /// hold exactly one value per cell of the bounds, an error is returned.
    pub fn new_from_data(cell_bounds: Bounds, data: Vec<Vec<T>>) -> (r: Result<Self, Error>)
        requires
            cell_bounds.valid(),
            cell_bounds.area() <= usize::MAX,
        ensures
            (r is Ok) <==> (data@.len() == L::NUM_LAYERS && forall|l: int|
                0 <= l < data@.len() ==> (#[trigger] data@[l]@.len()) == cell_bounds.area()),
            r is Ok ==> {
                let m = r.unwrap();
                &&& m.wf()
                &&& m.spec_bounds() == cell_bounds
                &&& m.layers().len() == data@.len()
                &&& forall|l: int| 0 <= l < data@.len() ==> #[trigger] m.layers()[l] == data@[l]@
            },
            data@.len() != L::NUM_LAYERS ==> r == Err::<Self, Error>(
                Error::WrongNumberOfLayers(L::NUM_LAYERS, data@.len() as usize),
            ),
            r is Err && data@.len() == L::NUM_LAYERS ==> exists|l: int|
                {
                    &&& 0 <= l < data@.len()
                    &&& (#[trigger] data@[l]@.len()) != cell_bounds.area()
                    &&& forall|k: int| 0 <= k < l ==> (#[trigger] data@[k]@.len())
                        == cell_bounds.area()
                    &&& r == Err::<Self, Error>(
                        Error::LayerWrongShape(
                            cell_bounds.area() as usize,
                            data@[l]@.len() as usize,
                        ),
                    )
                },
    {
        let n = L::NUM_LAYERS;
        if data.len() != n {
            return Err(Error::WrongNumberOfLayers(n, data.len()));
        }
        let shape = cell_bounds.get_shape();
        let total = shape.1 * shape.0;
        let mut l: usize = 0;
        while l < data.len()
            invariant
                l <= data.len(),
                data@.len() == L::NUM_LAYERS,
                total == cell_bounds.area(),
                forall|k: int| 0 <= k < l ==> (#[trigger] data@[k]@.len()) == total,
            decreases data.len() - l,
        {
            if data[l].len() != total {
                return Err(Error::LayerWrongShape(total, data[l].len()));
            }
            l += 1;
        }
        let r = Self { data, cell_bounds, layer_type: PhantomData };
        proof {
            assert forall|i: int| 0 <= i < r.data@.len() implies #[trigger] r.layers()[i]
                == r.data@[i]@ by {}
        }
        Ok(r)
    }
}

impl<L, T> CellMap<L, T> where L: Layer, T: Copy {
    /// Creates a new map covering the given bounds, filling each cell of
    /// every layer with `elem`.
    pub fn new_from_elem(cell_bounds: Bounds, elem: T) -> (r: Self)
        requires
            cell_bounds.valid(),
            cell_bounds.area() <= usize::MAX,
        ensures
            r.wf(),
            r.spec_bounds() == cell_bounds,
            forall|l: int, x: int, y: int|
                0 <= l < L::NUM_LAYERS && r.in_shape(x, y) ==> #[trigger] r.cell(l, x, y) == elem,
    {
        let shape = cell_bounds.get_shape();
        let total = shape.1 * shape.0;
        let n = L::NUM_LAYERS;
        let mut data: Vec<Vec<T>> = Vec::new();
        while data.len() < n
            invariant
                data@.len() <= n,
                total == cell_bounds.area(),
                forall|l: int| 0 <= l < data@.len() ==> (#[trigger] data@[l]@.len()) == total,
                forall|l: int, k: int|
                    0 <= l < data@.len() && 0 <= k < total ==> (#[trigger] data@[l]@[k]) == elem,
            decreases n - data.len(),
        {
            data.push(filled_vec(total, elem));
        }
        let r = Self { data, cell_bounds, layer_type: PhantomData };
        proof {
            assert forall|l: int, x: int, y: int|
                0 <= l < L::NUM_LAYERS && r.in_shape(x, y) implies #[trigger] r.cell(l, x, y)
                == elem by {
                lemma_flat_index_bound(x, y, r.nx(), r.ny());
                assert(r.layers()[l] == r.data@[l]@);
            }
        }
        r
    }
}

impl<L, T> CellMap<L, T> where L: Layer, T: Copy {
    /// Copies the window of half-width `semi_width` centred on cell
    /// `centre` out of the given layer.
    ///
    /// The window spans `2 * semi_width + 1` cells on each axis, the centre
    /// cell included, and must lie fully inside the map. The copy is
    /// returned as one flat row-major vector: rows of the map appear one
    /// after the other, lowest `y` first.
    #[verifier::loop_isolation(false)]
    pub fn window_cells(&self, layer: L, centre: (usize, usize), semi_width: (usize, usize)) -> (r:
        Vec<T>)
        requires
            self.wf(),
            semi_width.0 <= centre.0 && centre.0 + semi_width.0 < self.nx(),
            semi_width.1 <= centre.1 && centre.1 + semi_width.1 < self.ny(),
        ensures
            r@.len() == (2 * semi_width.0 + 1) * (2 * semi_width.1 + 1),
            forall|i: int, j: int|
                0 <= i < 2 * semi_width.0 + 1 && 0 <= j < 2 * semi_width.1 + 1 ==> (#[trigger] r@[
                    j * (2 * semi_width.0 + 1) + i
                ]) == self.cell(
                    layer.to_index_spec(),
                    centre.0 - semi_width.0 + i,
                    centre.1 - semi_width.1 + j,
                ),
    {
        let x0 = centre.0 - semi_width.0;
        let y0 = centre.1 - semi_width.1;
        let ww = 2 * semi_width.0 + 1;
        let wh = 2 * semi_width.1 + 1;
        let mut cells: Vec<T> = Vec::new();
        let mut j: usize = 0;
        while j < wh
            invariant
                j <= wh,
                cells@.len() == j * ww,
                forall|i2: int, j2: int|
                    0 <= i2 < ww && 0 <= j2 < j ==> (#[trigger] cells@[j2 * ww + i2])
                        == self.cell(layer.to_index_spec(), x0 + i2, y0 + j2),
            decreases wh - j,
        {
            let mut i: usize = 0;
            while i < ww
                invariant
                    i <= ww,
                    cells@.len() == j * ww + i,
                    forall|i2: int, j2: int|
                        0 <= i2 < ww && 0 <= j2 < wh && (j2 < j || (j2 == j && i2 < i)) ==> (
                        #[trigger] cells@[j2 * ww + i2]) == self.cell(
                            layer.to_index_spec(),
                            x0 + i2,
                            y0 + j2,
                        ),
                decreases ww - i,
            {
                let v = *self.get_unchecked(layer, (x0 + i, y0 + j));
                cells.push(v);
                proof {
                    assert forall|i2: int, j2: int|
                        0 <= i2 < ww && 0 <= j2 < wh && (j2 < j || (j2 == j && i2 < i + 1))
                            implies (#[trigger] cells@[j2 * ww + i2]) == self.cell(
                        layer.to_index_spec(),
                        x0 + i2,
                        y0 + j2,
                    ) by {
                        if j2 < j || i2 < i {
                            lemma_raster_lt(i2, j2, i as int, j as int, ww as int);
                        }
                    }
                }
                i += 1;
            }
            proof {
                assert((j + 1) * ww == j * ww + ww) by (nonlinear_arith);
            }
            j += 1;
        }
        proof {
            assert(wh * ww == ww * wh) by (nonlinear_arith);
        }
        cells
    }
}

impl<L, T> CellMap<L, T> where L: Layer, T: core::default::Default + Copy {
    /// Creates a new map covering the given bounds, filling each cell of
    /// every layer with the default value of `T`.
    pub fn new(cell_bounds: Bounds) -> (r: Self)
        requires
            cell_bounds.valid(),
            cell_bounds.area() <= usize::MAX,
        ensures
            r.wf(),
            r.spec_bounds() == cell_bounds,
            forall|l: int, x: int, y: int|
                0 <= l < L::NUM_LAYERS && r.in_shape(x, y) ==> is_default_value(
                    #[trigger] r.cell(l, x, y),
                ),
    {
        let d = T::default();
        Self::new_from_elem(cell_bounds, d)
    }
}

impl<L, T> CellMap<L, T> where L: Layer, T: core::default::Default + Copy {
    /// The value a map resized from `old_m` to `new_b` holds at the cell
    /// `(x, y)` (relative to the new bounds) of layer `l`, when newly added
    /// cells are filled with `d`: the old value where the absolute cell index
    /// was already covered, and `d` everywhere else.
    pub open spec fn resize_source(old_m: Self, new_b: Bounds, d: T, l: int, x: int, y: int) -> T {
        let ax = new_b.x.0 + x;
        let ay = new_b.y.0 + y;
        if old_m.spec_bounds().covers(ax, ay) {
            old_m.cell(l, ax - old_m.spec_bounds().x.0, ay - old_m.spec_bounds().y.0)
        } else {
            d
        }
    }

    /// Resizes the map to the new bounds. Cells whose absolute index is
    /// covered by both the old and the new bounds keep their value; any
    /// newly added cell is filled with the default value of `T`; cells of
    /// the old map outside the new bounds are discarded.
    #[verifier::loop_isolation(false)]
    pub fn resize(&mut self, new_bounds: Bounds)
        requires
            old(self).wf(),
            new_bounds.valid(),
            new_bounds.area() <= usize::MAX,
        ensures
            final(self).wf(),
            final(self).spec_bounds() == new_bounds,
            exists|d: T|
                #[trigger] is_default_value(d) && forall|l: int, x: int, y: int|
                    0 <= l < L::NUM_LAYERS && final(self).in_shape(x, y)
                        ==> #[trigger] final(self).cell(l, x, y) == Self::resize_source(
                        *old(self),
                        new_bounds,
                        d,
                        l,
                        x,
                        y,
                    ),
    {
        let d = T::default();
        let shape = new_bounds.get_shape();
        let h = shape.0;
        let w = shape.1;
        let old_b = self.cell_bounds;
        let old_shape = old_b.get_shape();
        let old_w = old_shape.1;
        let n = L::NUM_LAYERS;

        let mut data: Vec<Vec<T>> = Vec::new();
        let mut l: usize = 0;
        while l < n
            invariant
                l <= n,
                data@.len() == l,
                forall|li: int| 0 <= li < l ==> (#[trigger] data@[li]@.len()) == w * h,
                forall|li: int, x2: int, y2: int|
                    0 <= li < l && 0 <= x2 < w && 0 <= y2 < h ==> (#[trigger] data@[li]@[y2 * w
                        + x2]) == Self::resize_source(*self, new_bounds, d, li, x2, y2),
            decreases n - l,
        {
            let mut layer_data: Vec<T> = Vec::new();
            let mut y: usize = 0;
            while y < h
                invariant
                    y <= h,
                    layer_data@.len() == y * w,
                    forall|x2: int, y2: int|
                        0 <= x2 < w && 0 <= y2 < y ==> (#[trigger] layer_data@[y2 * w + x2])
                            == Self::resize_source(*self, new_bounds, d, l as int, x2, y2),
                decreases h - y,
            {
                let mut x: usize = 0;
                while x < w
                    invariant
                        x <= w,
                        layer_data@.len() == y * w + x,
                        forall|x2: int, y2: int|
                            0 <= x2 < w && 0 <= y2 < h && (y2 < y || (y2 == y && x2 < x)) ==> (
                            #[trigger] layer_data@[y2 * w + x2]) == Self::resize_source(
                                *self,
                                new_bounds,
                                d,
                                l as int,
                                x2,
                                y2,
                            ),
                    decreases w - x,
                {
                    let ax: i128 = new_bounds.x.0 as i128 + x as i128;
                    let ay: i128 = new_bounds.y.0 as i128 + y as i128;
                    let inside = ax >= old_b.x.0 as i128 && ax < old_b.x.1 as i128 && ay
                        >= old_b.y.0 as i128 && ay < old_b.y.1 as i128;
                    let v = if inside {
                        let ox = (ax - old_b.x.0 as i128) as usize;
                        let oy = (ay - old_b.y.0 as i128) as usize;
                        proof {
                            lemma_flat_index_bound(ox as int, oy as int, self.nx(), self.ny());
                            assert(self.layers()[l as int] == self.data@[l as int]@);
                        }
                        self.data[l][oy * old_w + ox]
                    } else {
                        d
                    };
                    layer_data.push(v);
                    proof {
                        assert forall|x2: int, y2: int|
                            0 <= x2 < w && 0 <= y2 < h && (y2 < y || (y2 == y && x2 < x + 1))
                                implies (#[trigger] layer_data@[y2 * w + x2])
                            == Self::resize_source(*self, new_bounds, d, l as int, x2, y2) by {
                            if y2 < y || x2 < x {
                                lemma_raster_lt(x2, y2, x as int, y as int, w as int);
                            }
                        }
                    }
                    x += 1;
                }
                proof {
                    assert(layer_data@.len() == y * w + w);
                    assert((y + 1) * w == y * w + w) by (nonlinear_arith);
                }
                y += 1;
            }
            proof {
                assert(layer_data@.len() == h * w);
                assert(h * w == w * h) by (nonlinear_arith);
            }
            data.push(layer_data);
            l += 1;
        }

        self.data = data;
        self.cell_bounds = new_bounds;

        proof {
            assert(self.area() == w * h) by (nonlinear_arith)
                requires
                    self.nx() == w as int,
                    self.ny() == h as int,
                    self.area() == self.nx() * self.ny(),
            ;
            assert forall|li: int| 0 <= li < L::NUM_LAYERS implies (#[trigger] self.layers()[li])
                == self.data@[li]@ by {}
            assert(is_default_value(d) && forall|li: int, x: int, y: int|
                0 <= li < L::NUM_LAYERS && self.in_shape(x, y) ==> #[trigger] self.cell(li, x, y)
                    == Self::resize_source(*old(self), new_bounds, d, li, x, y)) by {
                assert forall|li: int, x: int, y: int|
                    0 <= li < L::NUM_LAYERS && self.in_shape(x, y) implies #[trigger] self.cell(
                    li,
                    x,
                    y,
                ) == Self::resize_source(*old(self), new_bounds, d, li, x, y) by {
                    lemma_flat_index_bound(x, y, self.nx(), self.ny());
                }
            }
        }
    }
}

/// A cell that comes strictly earlier in raster order has a strictly smaller
/// flat row-major index.
pub(crate) proof fn lemma_raster_lt(x1: int, y1: int, x2: int, y2: int, nx: int)
    requires
        0 <= x1 < nx,
        0 <= x2,
        (y1 < y2 || (y1 == y2 && x1 < x2)),
    ensures
        y1 * nx + x1 < y2 * nx + x2,
{
    assert(y1 * nx + x1 < y2 * nx + x2) by (nonlinear_arith)
        requires
            0 <= x1 < nx,
            0 <= x2,
            (y1 < y2 || (y1 == y2 && x1 < x2)),
    ;
}

/// The values among the first `upto` entries of `values` (one entry per
/// source cell, in raster order) whose destination, looked up in `dest`, is
/// the store cell `(sx, sy)`, kept in raster order of the source.
pub open spec fn bucket_values<T>(
    values: Seq<T>,
    dest: Seq<(usize, usize)>,
    sx: int,
    sy: int,
    upto: int,
) -> Seq<T>
    decreases upto,
{
    if upto <= 0 {
        Seq::empty()
    } else {
        let prev = bucket_values(values, dest, sx, sy, upto - 1);
        if dest[upto - 1].0 == sx && dest[upto - 1].1 == sy {
            prev.push(values[upto - 1])
        } else {
            prev
        }
    }
}

/// Whether `post` is a value the reduction function `func` can return when
/// handed the destination cell's current value `pre` and the source values
/// `vals` that fell into that cell.
pub open spec fn merged_cell<T, F: Fn(&T, &[T]) -> T>(
    func: F,
    pre: T,
    vals: Seq<T>,
    post: T,
) -> bool {
    exists|a: &T, b: &[T]| *a == pre && b@ == vals && call_ensures(func, (a, b), post)
}

/// The cells already reduced while merging: every region cell of a layer
/// before `l`, and the region cells of layer `l` that come before `(rx, ry)`
/// in raster order. The region sits at `(off_x, off_y)` in the map and is
/// `rw` by `rh` cells; `(x, y)` are map coordinates, `(rx, ry)` region
/// coordinates.
spec fn merge_processed(
    off_x: int,
    off_y: int,
    rw: int,
    rh: int,
    l: int,
    ry: int,
    rx: int,
    li: int,
    x: int,
    y: int,
) -> bool {
    &&& off_x <= x < off_x + rw
    &&& off_y <= y < off_y + rh
    &&& (li < l || (li == l && (y - off_y < ry || (y - off_y == ry && x - off_x < rx))))
}

/// Loop bookkeeping for [`CellMap::merge`]: cells reduced so far hold a
/// value the reduction function can produce from the post-resize value and
/// their bucket, and every other cell still holds its post-resize value.
spec fn merge_progress<L: Layer, T, F: Fn(&T, &[T]) -> T>(
    cur: CellMap<L, T>,
    base: CellMap<L, T>,
    other_layers: Seq<Seq<T>>,
    func: F,
    dest: Seq<(usize, usize)>,
    off_x: int,
    off_y: int,
    rw: int,
    rh: int,
    l: int,
    ry: int,
    rx: int,
    ototal: int,
) -> bool {
    &&& forall|li: int, x: int, y: int|
        0 <= li < cur.layers().len() && cur.in_shape(x, y) && !merge_processed(
            off_x,
            off_y,
            rw,
            rh,
            l,
            ry,
            rx,
            li,
            x,
            y,
        ) ==> #[trigger] cur.cell(li, x, y) == base.cell(li, x, y)
    &&& forall|li: int, x: int, y: int|
        0 <= li < cur.layers().len() && cur.in_shape(x, y) && merge_processed(
            off_x,
            off_y,
            rw,
            rh,
            l,
            ry,
            rx,
            li,
            x,
            y,
        ) ==> merged_cell(
            func,
            base.cell(li, x, y),
            bucket_values(other_layers[li], dest, x - off_x, y - off_y, ototal),
            #[trigger] cur.cell(li, x, y),
        )
}

impl<L, T> CellMap<L, T> where L: Layer, T: core::default::Default + Copy {
    /// Merge `other` into `self`, resizing `self` so that the projection of
    /// `other` onto `self`'s cell-index space is fully included in the map.
    ///
    /// The caller supplies that projection: `other_in_self` is the bounding
    /// rectangle of `other` expressed in `self`'s cell-index space, and
    /// `dest_cells` gives, for each cell of `other` in raster order, the
    /// index (relative to the minimum corner of `other_in_self`) of the cell
    /// of `self` that its centre falls into. A host layer that places both
    /// maps in a common parent frame computes these from the maps' affine
    /// transforms.
    ///
    /// `func` reduces data into the map: for every cell of `self` inside
    /// `other_in_self` it receives `self`'s current value and a slice of all
    /// values of `other` (of the same layer) that fell into that cell, in
    /// raster order of `other`, and returns the value to store. Cells of
    /// `self` outside `other_in_self` are untouched.
    #[verifier::loop_isolation(false)]
    pub fn merge<F: Fn(&T, &[T]) -> T>(
        &mut self,
        other: &CellMap<L, T>,
        other_in_self: Bounds,
        dest_cells: &Vec<(usize, usize)>,
        func: F,
    )
        requires
            old(self).wf(),
            other.wf(),
            other_in_self.valid(),
            old(self).spec_bounds().spec_union(other_in_self).area() <= usize::MAX,
            dest_cells@.len() == other.area(),
            forall|k: int|
                0 <= k < dest_cells@.len() ==> (#[trigger] dest_cells@[k]).0
                    < other_in_self.width() && dest_cells@[k].1 < other_in_self.height(),
            forall|a: &T, b: &[T]| #[trigger] call_requires(func, (a, b)),
        ensures
            final(self).wf(),
            final(self).spec_bounds() == old(self).spec_bounds().spec_union(other_in_self),
            exists|d: T|
                #[trigger] is_default_value(d) && ({
                    let new_b = old(self).spec_bounds().spec_union(other_in_self);
                    &&& (forall|l: int, x: int, y: int|
                        0 <= l < L::NUM_LAYERS && final(self).in_shape(x, y)
                            && !other_in_self.covers(new_b.x.0 + x, new_b.y.0 + y)
                            ==> #[trigger] final(self).cell(l, x, y) == Self::resize_source(
                            *old(self),
                            new_b,
                            d,
                            l,
                            x,
                            y,
                        ))
                    &&& (forall|l: int, x: int, y: int|
                        0 <= l < L::NUM_LAYERS && final(self).in_shape(x, y)
                            && other_in_self.covers(new_b.x.0 + x, new_b.y.0 + y) ==> merged_cell(
                            func,
                            Self::resize_source(*old(self), new_b, d, l, x, y),
                            bucket_values(
                                other.layers()[l],
                                dest_cells@,
                                new_b.x.0 + x - other_in_self.x.0,
                                new_b.y.0 + y - other_in_self.y.0,
                                other.area(),
                            ),
                            #[trigger] final(self).cell(l, x, y),
                        ))
                }),
    {
        let new_bounds = self.cell_bounds.union(&other_in_self);
        self.resize(new_bounds);
        let ghost d = choose|dd: T|
            is_default_value(dd) && forall|li: int, x: int, y: int|
                0 <= li < L::NUM_LAYERS && self.in_shape(x, y) ==> #[trigger] self.cell(li, x, y)
                    == Self::resize_source(*old(self), new_bounds, dd, li, x, y);
        let ghost base = *self;
        proof {
            assert(is_default_value(d) && forall|li: int, x: int, y: int|
                0 <= li < L::NUM_LAYERS && base.in_shape(x, y) ==> #[trigger] base.cell(li, x, y)
                    == Self::resize_source(*old(self), new_bounds, d, li, x, y));
            assert(new_bounds.spec_intersect(other_in_self) == other_in_self);
        }

        let region = new_bounds.get_slice_of_other(&other_in_self).unwrap();
        let off_x = region.0.0;
        let off_y = region.1.0;
        let nshape = new_bounds.get_shape();
        let nh = nshape.0;
        let nw = nshape.1;
        let rshape = other_in_self.get_shape();
        let rh = rshape.0;
        let rw = rshape.1;
        proof {
            lemma_area_monotone(rw as int, rh as int, nw as int, nh as int);
        }
        let rtotal = rw * rh;
        let oshape = other.cell_bounds.get_shape();
        let oh = oshape.0;
        let ow = oshape.1;
        let ototal = ow * oh;

        let n = L::NUM_LAYERS;
        let mut l: usize = 0;
        while l < n
            invariant
                l <= n,
                self.wf(),
                self.spec_bounds() == new_bounds,
                merge_progress(
                    *self,
                    base,
                    other.layers(),
                    func,
                    dest_cells@,
                    off_x as int,
                    off_y as int,
                    rw as int,
                    rh as int,
                    l as int,
                    0,
                    0,
                    ototal as int,
                ),
            decreases n - l,
        {
            let mut buckets: Vec<Vec<T>> = Vec::new();
            while buckets.len() < rtotal
                invariant
                    buckets@.len() <= rtotal,
                    forall|i: int|
                        0 <= i < buckets@.len() ==> (#[trigger] buckets@[i])@ == Seq::<T>::empty(),
                decreases rtotal - buckets.len(),
            {
                buckets.push(Vec::new());
            }
            proof {
                assert forall|sx: int, sy: int| 0 <= sx < rw && 0 <= sy < rh implies (
                #[trigger] buckets@[sy * rw + sx])@ == bucket_values(
                    other.layers()[l as int],
                    dest_cells@,
                    sx,
                    sy,
                    0,
                ) by {
                    lemma_flat_index_bound(sx, sy, rw as int, rh as int);
                }
            }

            let mut k: usize = 0;
            while k < ototal
                invariant
                    k <= ototal,
                    buckets@.len() == rtotal,
                    forall|sx: int, sy: int|
                        0 <= sx < rw && 0 <= sy < rh ==> (#[trigger] buckets@[sy * rw + sx])@
                            == bucket_values(
                            other.layers()[l as int],
                            dest_cells@,
                            sx,
                            sy,
                            k as int,
                        ),
                decreases ototal - k,
            {
                let s = dest_cells[k];
                proof {
                    lemma_flat_index_bound(s.0 as int, s.1 as int, rw as int, rh as int);
                    assert(other.layers()[l as int] == other.data@[l as int]@);
                }
                let val = other.data[l][k];
                let bucket = &mut buckets[s.1 * rw + s.0];
                bucket.push(val);
                proof {
                    assert forall|sx: int, sy: int| 0 <= sx < rw && 0 <= sy < rh implies (
                    #[trigger] buckets@[sy * rw + sx])@ == bucket_values(
                        other.layers()[l as int],
                        dest_cells@,
                        sx,
                        sy,
                        k as int + 1,
                    ) by {
                        lemma_flat_index_bound(sx, sy, rw as int, rh as int);
                        if sx != s.0 as int || sy != s.1 as int {
                            lemma_flat_index_distinct(sx, sy, s.0 as int, s.1 as int, rw as int);
                        }
                    }
                }
                k += 1;
            }

            let mut ry: usize = 0;
            while ry < rh
                invariant
                    ry <= rh,
                    self.wf(),
                    self.spec_bounds() == new_bounds,
                    merge_progress(
                        *self,
                        base,
                        other.layers(),
                        func,
                        dest_cells@,
                        off_x as int,
                        off_y as int,
                        rw as int,
                        rh as int,
                        l as int,
                        ry as int,
                        0,
                        ototal as int,
                    ),
                decreases rh - ry,
            {
                let mut rx: usize = 0;
                while rx < rw
                    invariant
                        rx <= rw,
                        self.wf(),
                        self.spec_bounds() == new_bounds,
                        merge_progress(
                            *self,
                            base,
                            other.layers(),
                            func,
                            dest_cells@,
                            off_x as int,
                            off_y as int,
                            rw as int,
                            rh as int,
                            l as int,
                            ry as int,
                            rx as int,
                            ototal as int,
                        ),
                    decreases rw - rx,
                {
                    let tx = off_x + rx;
                    let ty = off_y + ry;
                    proof {
                        lemma_flat_index_bound(tx as int, ty as int, nw as int, nh as int);
                        assert(self.layers()[l as int] == self.data@[l as int]@);
                        lemma_flat_index_bound(rx as int, ry as int, rw as int, rh as int);
                    }
                    let kk = ty * nw + tx;
                    let pre = self.data[l][kk];
                    let bslice: &[T] = buckets[ry * rw + rx].as_slice();
                    let newv = func(&pre, bslice);
                    let ghost before = *self;
                    let slot = &mut self.data[l][kk];
                    *slot = newv;
                    proof {
                        assert(CellMap::<L, T>::updated_at(
                            before,
                            *self,
                            l as int,
                            tx as int,
                            ty as int,
                            newv,
                        ));
                        lemma_updated_at_cells(before, *self, l as int, tx as int, ty as int, newv);
                        assert(before.layers()[l as int] == before.data@[l as int]@);
                        assert(pre == before.cell(l as int, tx as int, ty as int));
                        assert(pre == base.cell(l as int, tx as int, ty as int));
                        assert(call_ensures(func, (&pre, bslice), newv));
                        assert(merged_cell(
                            func,
                            base.cell(l as int, tx as int, ty as int),
                            bucket_values(
                                other.layers()[l as int],
                                dest_cells@,
                                rx as int,
                                ry as int,
                                ototal as int,
                            ),
                            newv,
                        ));
                    }
                    rx += 1;
                }
                ry += 1;
            }
            l += 1;
        }
    }
}

/// A smaller rectangle covers no more cells than a larger one.
pub(crate) proof fn lemma_area_monotone(w1: int, h1: int, w2: int, h2: int)
    requires
        0 <= w1 <= w2,
        0 <= h1 <= h2,
    ensures
        w1 * h1 <= w2 * h2,
{
    assert(w1 * h1 <= w2 * h2) by (nonlinear_arith)
        requires
            0 <= w1 <= w2,
            0 <= h1 <= h2,
    ;
}

/// Whether `v` is a value the `Default` implementation of its type can
/// return.
pub open spec fn is_default_value<T: core::default::Default>(v: T) -> bool {
    call_ensures(T::default, (), v)
}

/// Builds a vector of `n` copies of `elem`.
fn filled_vec<T: Copy>(n: usize, elem: T) -> (r: Vec<T>)
    ensures
        r@.len() == n,
        forall|i: int| 0 <= i < n ==> r@[i] == elem,
{
    let mut v: Vec<T> = Vec::new();
    while v.len() < n
        invariant
            v@.len() <= n,
            forall|i: int| 0 <= i < v@.len() ==> v@[i] == elem,
        decreases n - v.len(),
    {
        v.push(elem);
    }
    v
}

/// A flat row-major index stays within the area of its rectangle.
pub(crate) proof fn lemma_flat_index_bound(x: int, y: int, nx: int, ny: int)
    requires
        0 <= x < nx,
        0 <= y < ny,
    ensures
        0 <= y * nx + x < nx * ny,
{
    assert(0 <= y * nx + x < nx * ny) by (nonlinear_arith)
        requires
            0 <= x < nx,
            0 <= y < ny,
    ;
}

/// Setting one cell changes that cell to the new value and leaves every
/// other cell of the map untouched.
pub proof fn lemma_updated_at_cells<L: Layer, T>(
    old_m: CellMap<L, T>,
    new_m: CellMap<L, T>,
    l: int,
    x: int,
    y: int,
    v: T,
)
    requires
        old_m.wf(),
        0 <= l < old_m.layers().len(),
        old_m.in_shape(x, y),
        CellMap::<L, T>::updated_at(old_m, new_m, l, x, y, v),
    ensures
        new_m.wf(),
        old_m.same_shape(new_m),
        new_m.cell(l, x, y) == v,
        forall|l2: int, x2: int, y2: int|
            0 <= l2 < old_m.layers().len() && old_m.in_shape(x2, y2) && (l2 != l || x2 != x || y2
                != y) ==> #[trigger] new_m.cell(l2, x2, y2) == old_m.cell(l2, x2, y2),
{
    lemma_flat_index_bound(x, y, old_m.nx(), old_m.ny());
    assert forall|l2: int, x2: int, y2: int|
        0 <= l2 < old_m.layers().len() && old_m.in_shape(x2, y2) && (l2 != l || x2 != x || y2
            != y) implies #[trigger] new_m.cell(l2, x2, y2) == old_m.cell(l2, x2, y2) by {
        if l2 == l {
            lemma_flat_index_distinct(x, y, x2, y2, old_m.nx());
        }
        lemma_flat_index_bound(x2, y2, old_m.nx(), old_m.ny());
    }
}

/// Two distinct cells of one rectangle have distinct flat row-major indices.
pub(crate) proof fn lemma_flat_index_distinct(x1: int, y1: int, x2: int, y2: int, nx: int)
    requires
        0 <= x1 < nx,
        0 <= x2 < nx,
        (x1 != x2 || y1 != y2),
    ensures
        y1 * nx + x1 != y2 * nx + x2,
{
    assert(y1 * nx + x1 != y2 * nx + x2) by (nonlinear_arith)
        requires
            0 <= x1 < nx,
            0 <= x2 < nx,
            (x1 != x2 || y1 != y2),
    ;
}

} // verus!
