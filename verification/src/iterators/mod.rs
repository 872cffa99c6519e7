//! Provides iterators over [`CellMap`]s.
//!
//! Iterators are built with the `iter` family of functions on [`CellMap`],
//! such as [`CellMap::iter()`] and [`CellMap::window_iter()`]. Which
//! function is used determines the [`Slicer`]: the order and shape in which
//! cells are visited. The [`Layerer`] then controls which layers the
//! iteration walks; it can be changed with [`CellMapIter::layer()`],
//! [`CellMapIter::layers()`] and [`CellMapIterMut::map_layers()`].
//!
//! An iterator here is a verified cursor over cell addresses: each step of
//! [`CellMapIter::next_index()`] yields the layer and `(x, y)` index of one
//! cell, never repeating an address within a traversal, and the `next` /
//! `next_mut` variants resolve the address into a reference into a map that
//! is passed to each call. A mutable reference handed out by `next_mut`
//! lives only until the next call, so no two live references ever alias the
//! same cell.
//!
//! [`CellMap`]: crate::CellMap

pub mod layerers;
pub mod slicers;

use core::marker::PhantomData;
use std::collections::VecDeque;

use vstd::prelude::*;

use crate::cell_map::CellMap;
use crate::error::Error;
use crate::layer::Layer;
use crate::iterators::layerers::{all_layers_queue, Layerer, Many, MapLayers, Single};
use crate::iterators::slicers::{
    in_rect, lemma_remaining_decreases, lemma_remaining_initial, raster_next, rect_remaining,
    lemma_start_in_rect, rect_total, rect_valid, Cells, Rect, Slicer, Windows,
};

verus! {

/// A non-mutable iterator over the cells of a [`CellMap`]; see [`Slicer`]
/// and [`layerers`] for how its parts compose.
///
/// The iterator holds no reference into the map: it yields cell addresses,
/// and [`CellMapIter::next()`] reads the addressed cell of a map passed to
/// the call.
#[derive(Debug)]
pub struct CellMapIter<L, T, R, S> where L: Layer, R: Layerer<L>, S: Slicer {
    pub layerer: R,
    pub slicer: S,
    pub item_type: PhantomData<(L, T)>,
}

/// A mutable iterator over the cells of a [`CellMap`]; see [`Slicer`] and
/// [`layerers`] for how its parts compose.
///
/// Like [`CellMapIter`] it yields cell addresses;
/// [`CellMapIterMut::next_mut()`] resolves each address into a mutable
/// reference into a map passed to the call. The reference lives only until
/// the next call, and no address repeats within a traversal, so at most one
/// mutable reference to any cell is live at a time.
#[derive(Debug)]
pub struct CellMapIterMut<L, T, R, S> where L: Layer, R: Layerer<L>, S: Slicer {
    pub layerer: R,
    pub slicer: S,
    pub item_type: PhantomData<(L, T)>,
}

/// How many cells a traversal of the layer queue `layers` has left, with
/// the slicer over rectangle `b` standing at `c` on the front layer.
pub open spec fn many_remaining<L>(layers: Seq<L>, b: Rect, c: (usize, usize)) -> int {
    if layers.len() == 0 {
        0
    } else {
        rect_remaining(b, c) + (layers.len() - 1) * rect_total(b)
    }
}

/// The invariant of a layered traversal: while layers remain, the cursor
/// stands on a cell, except over an empty rectangle, which has no cells to
/// stand on.
pub open spec fn many_inv<L, S: Slicer>(layers: Seq<L>, slicer: S) -> bool {
    &&& slicer.inv()
    &&& layers.len() > 0 ==> in_rect(slicer.sbounds(), slicer.cursor()) || rect_total(
        slicer.sbounds(),
    ) == 0
}

/// One step of a layered traversal: yield the cell the slicer stands on in
/// the front layer, advance the slicer, and when it leaves its rectangle
/// pop the front layer and reset the slicer for the next one.
fn many_next<L, S>(layers: &mut VecDeque<L>, slicer: &mut S) -> (r: Option<(L, (usize, usize))>)
    where L: Layer, S: Slicer
    requires
        many_inv(old(layers)@, *old(slicer)),
    ensures
        many_inv(final(layers)@, *final(slicer)),
        final(slicer).sbounds() == old(slicer).sbounds(),
        r is Some <==> many_remaining(old(layers)@, old(slicer).sbounds(), old(slicer).cursor())
            > 0,
        many_remaining(final(layers)@, final(slicer).sbounds(), final(slicer).cursor()) == (
        if r is Some {
            many_remaining(old(layers)@, old(slicer).sbounds(), old(slicer).cursor()) - 1
        } else {
            0
        }),
        old(layers)@.len() == 0 ==> r is None && final(layers)@ == old(layers)@ && final(slicer).cursor() == old(slicer).cursor(),
        old(layers)@.len() > 0 ==> ({
            let sb = old(slicer).sbounds();
            let c = old(slicer).cursor();
            &&& r == (if in_rect(sb, c) {
                Some((old(layers)@[0], c))
            } else {
                None::<(L, (usize, usize))>
            })
            &&& (if in_rect(sb, raster_next(sb, c)) {
                final(layers)@ == old(layers)@ && final(slicer).cursor() == raster_next(sb, c)
            } else {
                final(layers)@ == old(layers)@.subrange(1, old(layers)@.len() as int)
                    && final(slicer).cursor() == (sb.0.0, sb.1.0)
            })
        }),
{
    if layers.len() == 0 {
        return None;
    }
    let layer: L = *&layers[0];
    let item = slicer.index();
    slicer.advance();
    let after = slicer.index();
    if after.is_none() {
        layers.pop_front();
        slicer.reset();
    }
    proof {
        let sb = old(slicer).sbounds();
        let c = old(slicer).cursor();
        let n = old(layers)@.len() as int;
        let t = rect_total(sb);
        if in_rect(sb, c) {
            lemma_remaining_decreases(sb, c);
            if !in_rect(sb, raster_next(sb, c)) {
                lemma_remaining_initial(sb);
                assert(rect_remaining(sb, c) == 1) by (nonlinear_arith)
                    requires
                        in_rect(sb, c),
                        !in_rect(sb, raster_next(sb, c)),
                ;
                assert(t + (n - 2) * t == (n - 1) * t) by (nonlinear_arith);
                if n == 1 {
                    assert((n - 1) * t == 0) by (nonlinear_arith)
                        requires
                            n == 1,
                    ;
                }
            }
            assert((n - 1) * t >= 0) by (nonlinear_arith)
                requires
                    n >= 1,
                    t >= 0,
            ;
        } else {
            assert(t == 0);
            assert((n - 1) * t == 0 && (n - 2) * t == 0) by (nonlinear_arith)
                requires
                    t == 0,
            ;
            if in_rect(sb, (sb.0.0, sb.1.0)) {
                assert(t > 0) by (nonlinear_arith)
                    requires
                        in_rect(sb, (sb.0.0, sb.1.0)),
                        t == rect_total(sb),
                ;
            }
            assert(rect_remaining(sb, (sb.0.0, sb.1.0)) == 0);
        }
    }
    match item {
        Some(idx) => Some((layer, idx)),
        None => None,
    }
}

impl<L, T, S> CellMapIter<L, T, Many<L>, S> where L: Layer, S: Slicer {
    /// The iterator's internal invariant.
    pub open spec fn inv(self) -> bool {
        many_inv(self.layerer.layers@, self.slicer)
    }

    /// How many cells the iteration has left.
    pub open spec fn remaining(self) -> int {
        many_remaining(self.layerer.layers@, self.slicer.sbounds(), self.slicer.cursor())
    }

    /// Whether the iterator's cell addresses all lie inside `map`.
    pub open spec fn compatible_with(self, map: CellMap<L, T>) -> bool {
        &&& map.wf()
        &&& self.slicer.sbounds().0.1 <= map.nx()
        &&& self.slicer.sbounds().1.1 <= map.ny()
    }

    /// Yields the layer and `(x, y)` index of the next cell of the
    /// traversal, or `None` once every queued layer has been walked.
    pub fn next_index(&mut self) -> (r: Option<(L, (usize, usize))>)
        requires
            old(self).inv(),
        ensures
            final(self).inv(),
            final(self).slicer.sbounds() == old(self).slicer.sbounds(),
            final(self).layerer.layers@ == old(self).layerer.layers@
                || final(self).layerer.layers@ == old(self).layerer.layers@.subrange(
                1,
                old(self).layerer.layers@.len() as int,
            ),
            r is Some <==> old(self).remaining() > 0,
            final(self).remaining() == (if r is Some {
                old(self).remaining() - 1
            } else {
                0
            }),
            r is Some ==> r.unwrap().0 == old(self).layerer.layers@[0] && r.unwrap().1
                == old(self).slicer.cursor() && in_rect(
                old(self).slicer.sbounds(),
                old(self).slicer.cursor(),
            ),
    {
        many_next(&mut self.layerer.layers, &mut self.slicer)
    }

    /// Yields a reference to the next cell of the traversal in `map`, or
    /// `None` once every queued layer has been walked.
    pub fn next<'a>(&mut self, map: &'a CellMap<L, T>) -> (r: Option<&'a T>)
        requires
            old(self).inv(),
            old(self).compatible_with(*map),
        ensures
            final(self).inv(),
            final(self).compatible_with(*map),
            final(self).slicer.sbounds() == old(self).slicer.sbounds(),
            final(self).layerer.layers@ == old(self).layerer.layers@
                || final(self).layerer.layers@ == old(self).layerer.layers@.subrange(
                1,
                old(self).layerer.layers@.len() as int,
            ),
            r is Some <==> old(self).remaining() > 0,
            final(self).remaining() == (if r is Some {
                old(self).remaining() - 1
            } else {
                0
            }),
            r is Some ==> *r.unwrap() == map.cell(
                old(self).layerer.layers@[0].to_index_spec(),
                old(self).slicer.cursor().0 as int,
                old(self).slicer.cursor().1 as int,
            ),
    {
        match self.next_index() {
            Some((layer, idx)) => Some(map.get_unchecked(layer, idx)),
            None => None,
        }
    }

    /// Converts this iterator to use a [`Single`] layerer, producing data
    /// from only one layer. The position of the cursor is kept.
    pub fn layer(self, layer: L) -> (r: CellMapIter<L, T, Single<L>, S>)
        requires
            self.inv(),
        ensures
            r.slicer == self.slicer,
            r.layerer.layer == layer,
            r.inv(),
    {
        CellMapIter { layerer: Single { layer }, slicer: self.slicer, item_type: PhantomData }
    }

    /// Converts this iterator to use a [`Many`] layerer over the given
    /// layers, front of the slice first. The position of the cursor is
    /// kept, so this is meant to be called on a freshly built iterator.
    pub fn layers(self, layers: &[L]) -> (r: Self)
        requires
            self.inv(),
            in_rect(self.slicer.sbounds(), self.slicer.cursor()) || rect_total(
                self.slicer.sbounds(),
            ) == 0,
        ensures
            r.slicer == self.slicer,
            r.layerer.layers@ == layers@,
            r.inv(),
    {
        let mut queue: VecDeque<L> = VecDeque::new();
        let mut i: usize = 0;
        while i < layers.len()
            invariant
                i <= layers.len(),
                queue@ == layers@.subrange(0, i as int),
            decreases layers.len() - i,
        {
            queue.push_back(layers[i]);
            proof {
                assert(queue@ =~= layers@.subrange(0, i + 1));
            }
            i += 1;
        }
        proof {
            assert(queue@ =~= layers@);
        }
        CellMapIter { layerer: Many { layers: queue }, slicer: self.slicer, item_type: PhantomData }
    }
}

impl<L, T, S> CellMapIter<L, T, Single<L>, S> where L: Layer, S: Slicer {
    /// The iterator's internal invariant.
    pub open spec fn inv(self) -> bool {
        self.slicer.inv()
    }

    /// How many cells the iteration has left.
    pub open spec fn remaining(self) -> int {
        rect_remaining(self.slicer.sbounds(), self.slicer.cursor())
    }

    /// Whether the iterator's cell addresses all lie inside `map`.
    pub open spec fn compatible_with(self, map: CellMap<L, T>) -> bool {
        &&& map.wf()
        &&& self.slicer.sbounds().0.1 <= map.nx()
        &&& self.slicer.sbounds().1.1 <= map.ny()
    }

    /// Yields the layer and `(x, y)` index of the next cell of the
    /// traversal, or `None` once the slicer is exhausted.
    pub fn next_index(&mut self) -> (r: Option<(L, (usize, usize))>)
        requires
            old(self).inv(),
        ensures
            final(self).inv(),
            final(self).layerer == old(self).layerer,
            final(self).slicer.sbounds() == old(self).slicer.sbounds(),
            r is Some <==> old(self).remaining() > 0,
            final(self).remaining() == (if r is Some {
                old(self).remaining() - 1
            } else {
                0
            }),
            r is Some ==> r.unwrap().0 == final(self).layerer.layer && r.unwrap().1
                == old(self).slicer.cursor() && in_rect(
                old(self).slicer.sbounds(),
                old(self).slicer.cursor(),
            ),
            final(self).slicer.cursor() == raster_next(
                old(self).slicer.sbounds(),
                old(self).slicer.cursor(),
            ),
    {
        let item = self.slicer.index();
        self.slicer.advance();
        proof {
            if in_rect(old(self).slicer.sbounds(), old(self).slicer.cursor()) {
                lemma_remaining_decreases(old(self).slicer.sbounds(), old(self).slicer.cursor());
            }
        }
        match item {
            Some(idx) => Some((self.layerer.layer, idx)),
            None => None,
        }
    }

    /// Yields a reference to the next cell of the traversal in `map`, or
    /// `None` once the slicer is exhausted.
    pub fn next<'a>(&mut self, map: &'a CellMap<L, T>) -> (r: Option<&'a T>)
        requires
            old(self).inv(),
            old(self).compatible_with(*map),
        ensures
            final(self).inv(),
            final(self).compatible_with(*map),
            final(self).slicer.sbounds() == old(self).slicer.sbounds(),
            r is Some <==> old(self).remaining() > 0,
            final(self).remaining() == (if r is Some {
                old(self).remaining() - 1
            } else {
                0
            }),
            r is Some ==> *r.unwrap() == map.cell(
                final(self).layerer.layer.to_index_spec(),
                old(self).slicer.cursor().0 as int,
                old(self).slicer.cursor().1 as int,
            ),
    {
        match self.next_index() {
            Some((layer, idx)) => Some(map.get_unchecked(layer, idx)),
            None => None,
        }
    }
}

impl<L, T, S> CellMapIterMut<L, T, Many<L>, S> where L: Layer, S: Slicer {
    /// The iterator's internal invariant.
    pub open spec fn inv(self) -> bool {
        many_inv(self.layerer.layers@, self.slicer)
    }

    /// How many cells the iteration has left.
    pub open spec fn remaining(self) -> int {
        many_remaining(self.layerer.layers@, self.slicer.sbounds(), self.slicer.cursor())
    }

    /// Whether the iterator's cell addresses all lie inside `map`.
    pub open spec fn compatible_with(self, map: CellMap<L, T>) -> bool {
        &&& map.wf()
        &&& self.slicer.sbounds().0.1 <= map.nx()
        &&& self.slicer.sbounds().1.1 <= map.ny()
    }

    /// Yields the layer and `(x, y)` index of the next cell of the
    /// traversal, or `None` once every queued layer has been walked.
    pub fn next_index(&mut self) -> (r: Option<(L, (usize, usize))>)
        requires
            old(self).inv(),
        ensures
            final(self).inv(),
            final(self).slicer.sbounds() == old(self).slicer.sbounds(),
            final(self).layerer.layers@ == old(self).layerer.layers@
                || final(self).layerer.layers@ == old(self).layerer.layers@.subrange(
                1,
                old(self).layerer.layers@.len() as int,
            ),
            r is Some <==> old(self).remaining() > 0,
            final(self).remaining() == (if r is Some {
                old(self).remaining() - 1
            } else {
                0
            }),
            r is Some ==> r.unwrap().0 == old(self).layerer.layers@[0] && r.unwrap().1
                == old(self).slicer.cursor() && in_rect(
                old(self).slicer.sbounds(),
                old(self).slicer.cursor(),
            ),
    {
        many_next(&mut self.layerer.layers, &mut self.slicer)
    }

    /// Yields a mutable reference to the next cell of the traversal in
    /// `map`, or `None` once every queued layer has been walked. The
    /// reference lives until the next borrow of the map, so no two live
    /// references alias a cell.
    pub fn next_mut<'a>(&mut self, map: &'a mut CellMap<L, T>) -> (r: Option<&'a mut T>)
        requires
            old(self).inv(),
            old(self).compatible_with(*old(map)),
        ensures
            final(self).inv(),
            final(self).compatible_with(*old(map)),
            final(self).slicer.sbounds() == old(self).slicer.sbounds(),
            final(self).layerer.layers@ == old(self).layerer.layers@
                || final(self).layerer.layers@ == old(self).layerer.layers@.subrange(
                1,
                old(self).layerer.layers@.len() as int,
            ),
            r is Some <==> old(self).remaining() > 0,
            final(self).remaining() == (if r is Some {
                old(self).remaining() - 1
            } else {
                0
            }),
            r is None ==> *final(map) == *old(map),
            r is Some ==> ({
                let l = old(self).layerer.layers@[0].to_index_spec();
                let c = old(self).slicer.cursor();
                &&& *r.unwrap() == old(map).cell(l, c.0 as int, c.1 as int)
                &&& CellMap::<L, T>::updated_at(
                    *old(map),
                    *final(map),
                    l,
                    c.0 as int,
                    c.1 as int,
                    *final(r.unwrap()),
                )
            }),
    {
        match self.next_index() {
            Some((layer, idx)) => Some(map.get_mut_unchecked(layer, idx)),
            None => None,
        }
    }

    /// Converts this iterator to use a [`Single`] layerer, producing data
    /// from only one layer. The position of the cursor is kept.
    pub fn layer(self, layer: L) -> (r: CellMapIterMut<L, T, Single<L>, S>)
        requires
            self.inv(),
        ensures
            r.slicer == self.slicer,
            r.layerer.layer == layer,
            r.inv(),
    {
        CellMapIterMut { layerer: Single { layer }, slicer: self.slicer, item_type: PhantomData }
    }

    /// Converts this iterator to use a [`Many`] layerer over the given
    /// layers, front of the slice first. The position of the cursor is
    /// kept, so this is meant to be called on a freshly built iterator.
    pub fn layers(self, layers: &[L]) -> (r: Self)
        requires
            self.inv(),
            in_rect(self.slicer.sbounds(), self.slicer.cursor()) || rect_total(
                self.slicer.sbounds(),
            ) == 0,
        ensures
            r.slicer == self.slicer,
            r.layerer.layers@ == layers@,
            r.inv(),
    {
        let mut queue: VecDeque<L> = VecDeque::new();
        let mut i: usize = 0;
        while i < layers.len()
            invariant
                i <= layers.len(),
                queue@ == layers@.subrange(0, i as int),
            decreases layers.len() - i,
        {
            queue.push_back(layers[i]);
            proof {
                assert(queue@ =~= layers@.subrange(0, i + 1));
            }
            i += 1;
        }
        proof {
            assert(queue@ =~= layers@);
        }
        CellMapIterMut {
            layerer: Many { layers: queue },
            slicer: self.slicer,
            item_type: PhantomData,
        }
    }

    /// Converts this iterator to use a [`MapLayers`] layerer, which pairs a
    /// `from` layer with a `to` layer so that data can be mapped from one
    /// into the other. The position of the cursor is kept.
    pub fn map_layers(self, from: L, to: L) -> (r: CellMapIterMut<L, T, MapLayers<L>, S>)
        requires
            self.inv(),
        ensures
            r.slicer == self.slicer,
            r.layerer.from == from,
            r.layerer.to == to,
            r.inv(),
    {
        CellMapIterMut {
            layerer: MapLayers { from, to },
            slicer: self.slicer,
            item_type: PhantomData,
        }
    }
}

impl<L, T, S> CellMapIterMut<L, T, Single<L>, S> where L: Layer, S: Slicer {
    /// The iterator's internal invariant.
    pub open spec fn inv(self) -> bool {
        self.slicer.inv()
    }

    /// How many cells the iteration has left.
    pub open spec fn remaining(self) -> int {
        rect_remaining(self.slicer.sbounds(), self.slicer.cursor())
    }

    /// Whether the iterator's cell addresses all lie inside `map`.
    pub open spec fn compatible_with(self, map: CellMap<L, T>) -> bool {
        &&& map.wf()
        &&& self.slicer.sbounds().0.1 <= map.nx()
        &&& self.slicer.sbounds().1.1 <= map.ny()
    }

    /// Yields the layer and `(x, y)` index of the next cell of the
    /// traversal, or `None` once the slicer is exhausted.
    pub fn next_index(&mut self) -> (r: Option<(L, (usize, usize))>)
        requires
            old(self).inv(),
        ensures
            final(self).inv(),
            final(self).layerer == old(self).layerer,
            final(self).slicer.sbounds() == old(self).slicer.sbounds(),
            r is Some <==> old(self).remaining() > 0,
            final(self).remaining() == (if r is Some {
                old(self).remaining() - 1
            } else {
                0
            }),
            r is Some ==> r.unwrap().0 == final(self).layerer.layer && r.unwrap().1
                == old(self).slicer.cursor() && in_rect(
                old(self).slicer.sbounds(),
                old(self).slicer.cursor(),
            ),
    {
        let item = self.slicer.index();
        self.slicer.advance();
        proof {
            if in_rect(old(self).slicer.sbounds(), old(self).slicer.cursor()) {
                lemma_remaining_decreases(old(self).slicer.sbounds(), old(self).slicer.cursor());
            }
        }
        match item {
            Some(idx) => Some((self.layerer.layer, idx)),
            None => None,
        }
    }

    /// Yields a mutable reference to the next cell of the traversal in
    /// `map`, or `None` once the slicer is exhausted.
    pub fn next_mut<'a>(&mut self, map: &'a mut CellMap<L, T>) -> (r: Option<&'a mut T>)
        requires
            old(self).inv(),
            old(self).compatible_with(*old(map)),
        ensures
            final(self).inv(),
            final(self).compatible_with(*old(map)),
            final(self).slicer.sbounds() == old(self).slicer.sbounds(),
            r is Some <==> old(self).remaining() > 0,
            final(self).remaining() == (if r is Some {
                old(self).remaining() - 1
            } else {
                0
            }),
            r is None ==> *final(map) == *old(map),
            r is Some ==> ({
                let l = final(self).layerer.layer.to_index_spec();
                let c = old(self).slicer.cursor();
                &&& *r.unwrap() == old(map).cell(l, c.0 as int, c.1 as int)
                &&& CellMap::<L, T>::updated_at(
                    *old(map),
                    *final(map),
                    l,
                    c.0 as int,
                    c.1 as int,
                    *final(r.unwrap()),
                )
            }),
    {
        match self.next_index() {
            Some((layer, idx)) => Some(map.get_mut_unchecked(layer, idx)),
            None => None,
        }
    }
}

impl<L, T, S> CellMapIterMut<L, T, MapLayers<L>, S> where L: Layer, S: Slicer {
    /// The iterator's internal invariant.
    pub open spec fn inv(self) -> bool {
        self.slicer.inv()
    }

    /// How many cells the iteration has left.
    pub open spec fn remaining(self) -> int {
        rect_remaining(self.slicer.sbounds(), self.slicer.cursor())
    }

    /// Whether the iterator's cell addresses all lie inside `map`.
    pub open spec fn compatible_with(self, map: CellMap<L, T>) -> bool {
        &&& map.wf()
        &&& self.slicer.sbounds().0.1 <= map.nx()
        &&& self.slicer.sbounds().1.1 <= map.ny()
    }
}

impl<L, T, S> CellMapIterMut<L, T, MapLayers<L>, S> where L: Layer, S: Slicer, T: Copy {
    /// Yields, for the next cell of the traversal, the value of that cell
    /// in the `from` layer of `map` together with a mutable reference to
    /// the same cell in the `to` layer, or `None` once the slicer is
    /// exhausted. The `from` value is read before the `to` cell is
    /// borrowed, so the pair is well-defined even when both name the same
    /// layer.
    pub fn next_pair<'a>(&mut self, map: &'a mut CellMap<L, T>) -> (r: Option<(T, &'a mut T)>)
        requires
            old(self).inv(),
            old(self).compatible_with(*old(map)),
        ensures
            final(self).inv(),
            final(self).compatible_with(*old(map)),
            final(self).layerer == old(self).layerer,
            final(self).slicer.sbounds() == old(self).slicer.sbounds(),
            r is Some <==> old(self).remaining() > 0,
            final(self).remaining() == (if r is Some {
                old(self).remaining() - 1
            } else {
                0
            }),
            r is None ==> *final(map) == *old(map),
            r is Some ==> ({
                let lf = old(self).layerer.from.to_index_spec();
                let lt = old(self).layerer.to.to_index_spec();
                let c = old(self).slicer.cursor();
                &&& r.unwrap().0 == old(map).cell(lf, c.0 as int, c.1 as int)
                &&& *r.unwrap().1 == old(map).cell(lt, c.0 as int, c.1 as int)
                &&& CellMap::<L, T>::updated_at(
                    *old(map),
                    *final(map),
                    lt,
                    c.0 as int,
                    c.1 as int,
                    *final(r.unwrap().1),
                )
            }),
    {
        let item = self.slicer.index();
        self.slicer.advance();
        proof {
            if in_rect(old(self).slicer.sbounds(), old(self).slicer.cursor()) {
                lemma_remaining_decreases(old(self).slicer.sbounds(), old(self).slicer.cursor());
            }
        }
        match item {
            Some(idx) => {
                let from_value = *map.get_unchecked(self.layerer.from, idx);
                let to_cell = map.get_mut_unchecked(self.layerer.to, idx);
                Some((from_value, to_cell))
            },
            None => None,
        }
    }
}

impl<L, T> CellMap<L, T> where L: Layer {
    /// Returns an iterator over each cell in all layers of the map, layers
    /// in index order, cells in raster order within a layer. It visits
    /// `NUM_LAYERS * area` cells.
    pub fn iter(&self) -> (r: CellMapIter<L, T, Many<L>, Cells>)
        requires
            self.wf(),
        ensures
            r.inv(),
            r.compatible_with(*self),
            r.slicer.sbounds().0.0 == 0 && r.slicer.sbounds().0.1 == self.nx(),
            r.slicer.sbounds().1.0 == 0 && r.slicer.sbounds().1.1 == self.ny(),
            r.slicer.cursor() == (0usize, 0usize),
            r.layerer.layers@.len() == L::NUM_LAYERS,
            forall|i: int|
                0 <= i < r.layerer.layers@.len() ==> (#[trigger] r.layerer.layers@[
                    i
                ].to_index_spec()) == i,
            r.remaining() == L::NUM_LAYERS * self.area(),
    {
        let slicer = Cells::from_map(self);
        let layerer = Many { layers: all_layers_queue::<L>() };
        let r = CellMapIter { layerer, slicer, item_type: PhantomData };
        proof {
            lemma_start_in_rect(r.slicer.sbounds());
            lemma_layered_start::<L>(r.layerer.layers@.len() as int, r.slicer.sbounds());
            assert(rect_total(r.slicer.sbounds()) == self.area());
        }
        r
    }

    /// Returns a mutable iterator over each cell in all layers of the map,
    /// in the same order as [`CellMap::iter()`].
    pub fn iter_mut(&self) -> (r: CellMapIterMut<L, T, Many<L>, Cells>)
        requires
            self.wf(),
        ensures
            r.inv(),
            r.compatible_with(*self),
            r.slicer.sbounds().0.0 == 0 && r.slicer.sbounds().0.1 == self.nx(),
            r.slicer.sbounds().1.0 == 0 && r.slicer.sbounds().1.1 == self.ny(),
            r.slicer.cursor() == (0usize, 0usize),
            r.layerer.layers@.len() == L::NUM_LAYERS,
            forall|i: int|
                0 <= i < r.layerer.layers@.len() ==> (#[trigger] r.layerer.layers@[
                    i
                ].to_index_spec()) == i,
            r.remaining() == L::NUM_LAYERS * self.area(),
    {
        let slicer = Cells::from_map(self);
        let layerer = Many { layers: all_layers_queue::<L>() };
        let r = CellMapIterMut { layerer, slicer, item_type: PhantomData };
        proof {
            lemma_start_in_rect(r.slicer.sbounds());
            lemma_layered_start::<L>(r.layerer.layers@.len() as int, r.slicer.sbounds());
            assert(rect_total(r.slicer.sbounds()) == self.area());
        }
        r
    }

    /// Returns an iterator over the centre cells of windows into the map.
    ///
    /// The `semi_width` is half the size of the window on the x and y axes,
    /// not including the central cell, so the window spans
    /// `2 * semi_width + 1` cells on each axis. The traversal is confined so
    /// that the window always fits inside the map: it visits
    /// `(nx - 2 * semi_width.0) * (ny - 2 * semi_width.1)` cells per layer,
    /// and fails if the window is larger than the map on either axis.
    pub fn window_iter(&self, semi_width: (usize, usize)) -> (r: Result<
        CellMapIter<L, T, Many<L>, Windows>,
        Error,
    >)
        requires
            self.wf(),
            2 * semi_width.0 + 1 <= usize::MAX,
            2 * semi_width.1 + 1 <= usize::MAX,
        ensures
            r is Ok <==> (2 * semi_width.0 + 1 <= self.nx() && 2 * semi_width.1 + 1 <= self.ny()),
            r is Err ==> r == Err::<CellMapIter<L, T, Many<L>, Windows>, Error>(
                Error::WindowLargerThanMap(
                    ((2 * semi_width.0 + 1) as usize, (2 * semi_width.1 + 1) as usize),
                    (self.nx() as usize, self.ny() as usize),
                ),
            ),
            r is Ok ==> ({
                let it = r.unwrap();
                &&& it.inv()
                &&& it.compatible_with(*self)
                &&& it.slicer.semi_width == semi_width
                &&& it.layerer.layers@.len() == L::NUM_LAYERS
                &&& forall|i: int|
                    0 <= i < it.layerer.layers@.len() ==> (#[trigger] it.layerer.layers@[
                        i
                    ].to_index_spec()) == i
                &&& it.remaining() == L::NUM_LAYERS * ((self.nx() - 2 * semi_width.0) * (self.ny()
                    - 2 * semi_width.1))
            }),
    {
        let slicer = match Windows::from_map(self, semi_width) {
            Ok(s) => s,
            Err(e) => {
                return Err(e);
            },
        };
        let layerer = Many { layers: all_layers_queue::<L>() };
        let r = CellMapIter { layerer, slicer, item_type: PhantomData };
        proof {
            lemma_start_in_rect(r.slicer.sbounds());
            lemma_layered_start::<L>(r.layerer.layers@.len() as int, r.slicer.sbounds());
        }
        Ok(r)
    }

    /// Returns a mutable iterator over the centre cells of windows into the
    /// map, with the same traversal as [`CellMap::window_iter()`].
    pub fn window_iter_mut(&self, semi_width: (usize, usize)) -> (r: Result<
        CellMapIterMut<L, T, Many<L>, Windows>,
        Error,
    >)
        requires
            self.wf(),
            2 * semi_width.0 + 1 <= usize::MAX,
            2 * semi_width.1 + 1 <= usize::MAX,
        ensures
            r is Ok <==> (2 * semi_width.0 + 1 <= self.nx() && 2 * semi_width.1 + 1 <= self.ny()),
            r is Err ==> r == Err::<CellMapIterMut<L, T, Many<L>, Windows>, Error>(
                Error::WindowLargerThanMap(
                    ((2 * semi_width.0 + 1) as usize, (2 * semi_width.1 + 1) as usize),
                    (self.nx() as usize, self.ny() as usize),
                ),
            ),
            r is Ok ==> ({
                let it = r.unwrap();
                &&& it.inv()
                &&& it.compatible_with(*self)
                &&& it.slicer.semi_width == semi_width
                &&& it.layerer.layers@.len() == L::NUM_LAYERS
                &&& forall|i: int|
                    0 <= i < it.layerer.layers@.len() ==> (#[trigger] it.layerer.layers@[
                        i
                    ].to_index_spec()) == i
                &&& it.remaining() == L::NUM_LAYERS * ((self.nx() - 2 * semi_width.0) * (self.ny()
                    - 2 * semi_width.1))
            }),
    {
        let slicer = match Windows::from_map(self, semi_width) {
            Ok(s) => s,
            Err(e) => {
                return Err(e);
            },
        };
        let layerer = Many { layers: all_layers_queue::<L>() };
        let r = CellMapIterMut { layerer, slicer, item_type: PhantomData };
        proof {
            lemma_start_in_rect(r.slicer.sbounds());
            lemma_layered_start::<L>(r.layerer.layers@.len() as int, r.slicer.sbounds());
        }
        Ok(r)
    }
}

/// A freshly built layered traversal of `n` layers over rectangle `b` has
/// `n * rect_total(b)` cells ahead of it.
proof fn lemma_layered_start<L>(n: int, b: Rect)
    requires
        n >= 0,
        rect_valid(b),
    ensures
        forall|layers: Seq<L>|
            layers.len() == n ==> many_remaining(layers, b, (b.0.0, b.1.0)) == n * rect_total(b),
{
    lemma_remaining_initial(b);
    let t = rect_total(b);
    assert forall|layers: Seq<L>| layers.len() == n implies many_remaining(
        layers,
        b,
        (b.0.0, b.1.0),
    ) == n * t by {
        if n == 0 {
            assert(n * t == 0) by (nonlinear_arith)
                requires
                    n == 0,
            ;
        } else {
            assert(t + (n - 1) * t == n * t) by (nonlinear_arith);
        }
    }
}

} // verus!
