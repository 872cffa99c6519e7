//! Provides the [`Slicer`] trait and the slicer types that determine the
//! order and pattern in which cells are visited by an iterator over a
//! [`CellMap`].
//!
//! [`CellMap`]: crate::CellMap

use vstd::prelude::*;

use crate::cell_map::CellMap;
use crate::error::Error;
use crate::layer::Layer;

verus! {

/// A rectangle of cell indices, as `((x0, x1), (y0, y1))` with both ranges
/// half-open.
pub type Rect = ((usize, usize), (usize, usize));

/// Whether the rectangle's minima do not exceed its maxima.
pub open spec fn rect_valid(b: Rect) -> bool {
    &&& b.0.0 <= b.0.1
    &&& b.1.0 <= b.1.1
}

/// Whether a cursor lies inside the rectangle.
pub open spec fn in_rect(b: Rect, c: (usize, usize)) -> bool {
    &&& b.0.0 <= c.0 < b.0.1
    &&& b.1.0 <= c.1 < b.1.1
}

/// Whether a cursor lies inside the rectangle or just past it, as it is
/// after an exhausted traversal.
pub open spec fn cursor_ok(b: Rect, c: (usize, usize)) -> bool {
    &&& b.0.0 <= c.0 <= b.0.1
    &&& b.1.0 <= c.1 <= b.1.1
}

/// The number of cells the rectangle covers.
pub open spec fn rect_total(b: Rect) -> int {
    (b.0.1 - b.0.0) * (b.1.1 - b.1.0)
}

/// The number of cells still to be visited from cursor `c` on, `c` itself
/// included; zero once the cursor has left the rectangle.
pub open spec fn rect_remaining(b: Rect, c: (usize, usize)) -> int {
    if in_rect(b, c) {
        (b.1.1 - 1 - c.1) * (b.0.1 - b.0.0) + (b.0.1 - c.0)
    } else {
        0
    }
}

/// The cursor after one step of raster order: `x` advances fastest, wrapping
/// to the start of the next row; a cursor outside the rectangle stays put.
pub open spec fn raster_next(b: Rect, c: (usize, usize)) -> (usize, usize) {
    if !in_rect(b, c) {
        c
    } else if c.0 + 1 < b.0.1 {
        ((c.0 + 1) as usize, c.1)
    } else {
        (b.0.0, (c.1 + 1) as usize)
    }
}

/// One raster step removes exactly one cell from what remains.
pub proof fn lemma_remaining_decreases(b: Rect, c: (usize, usize))
    requires
        in_rect(b, c),
    ensures
        rect_remaining(b, raster_next(b, c)) == rect_remaining(b, c) - 1,
{
    let n = raster_next(b, c);
    assert(rect_remaining(b, n) == rect_remaining(b, c) - 1) by (nonlinear_arith)
        requires
            in_rect(b, c),
            n == raster_next(b, c),
    ;
}

/// A cursor at the minimum corner has the whole rectangle ahead of it.
pub proof fn lemma_remaining_initial(b: Rect)
    requires
        rect_valid(b),
    ensures
        rect_remaining(b, (b.0.0, b.1.0)) == rect_total(b),
{
    assert(rect_remaining(b, (b.0.0, b.1.0)) == rect_total(b)) by (nonlinear_arith)
        requires
            rect_valid(b),
    ;
}

/// Two distinct cells of a rectangle have distinct remaining counts. Since
/// each step of a traversal lowers the remaining count by one, the cursor
/// never stands on the same cell twice: an iterator that hands out one
/// mutable reference per step therefore never aliases a cell.
pub proof fn lemma_traversal_never_repeats(b: Rect, c1: (usize, usize), c2: (usize, usize))
    requires
        in_rect(b, c1),
        in_rect(b, c2),
        c1 != c2,
    ensures
        rect_remaining(b, c1) != rect_remaining(b, c2),
{
    assert(rect_remaining(b, c1) != rect_remaining(b, c2)) by (nonlinear_arith)
        requires
            in_rect(b, c1),
            in_rect(b, c2),
            c1 != c2,
    ;
}

/// A cursor at the minimum corner either stands on a cell or the rectangle
/// has no cells at all.
pub proof fn lemma_start_in_rect(b: Rect)
    requires
        rect_valid(b),
    ensures
        in_rect(b, (b.0.0, b.1.0)) || rect_total(b) == 0,
{
    if !in_rect(b, (b.0.0, b.1.0)) {
        assert(rect_total(b) == 0) by (nonlinear_arith)
            requires
                rect_valid(b),
                !in_rect(b, (b.0.0, b.1.0)),
        ;
    }
}

/// Trait which allows an iterator over a [`CellMap`] to determine the order
/// and pattern in which cells are visited. A slicer is a cursor confined to
/// a rectangle of cell indices; the iterator reads the current index, hands
/// out the cell it addresses, and advances the cursor.
///
/// [`CellMap`]: crate::CellMap
pub trait Slicer: Sized {
    /// The rectangle of cell indices the slicer traverses.
    spec fn sbounds(&self) -> Rect;

    /// The current cursor.
    spec fn cursor(&self) -> (usize, usize);

    /// The slicer's internal invariant.
    spec fn inv(&self) -> bool;

    /// Return the current index of the slicer, or `None` if the slicer has
    /// reached the end of its data.
    fn index(&self) -> (r: Option<(usize, usize)>)
        requires
            self.inv(),
        ensures
            r == (if in_rect(self.sbounds(), self.cursor()) {
                Some(self.cursor())
            } else {
                None::<(usize, usize)>
            }),
    ;

    /// Advance the slicer to the next index in raster order. Once the
    /// cursor has left the rectangle the slicer stays exhausted.
    fn advance(&mut self)
        requires
            old(self).inv(),
        ensures
            final(self).inv(),
            final(self).sbounds() == old(self).sbounds(),
            final(self).cursor() == raster_next(old(self).sbounds(), old(self).cursor()),
    ;

    /// Reset the cursor of the slicer to the start of its rectangle, so
    /// that it can be used on the next layer of an iteration.
    fn reset(&mut self)
        requires
            old(self).inv(),
        ensures
            final(self).inv(),
            final(self).sbounds() == old(self).sbounds(),
            final(self).cursor() == (old(self).sbounds().0.0, old(self).sbounds().1.0),
    ;
}

/// A [`Slicer`] which visits every cell of a layer in raster order: `x`
/// increasing most rapidly, then `y`.
#[derive(Debug, Clone, Copy)]
pub struct Cells {
    pub bounds: Rect,
    pub index: (usize, usize),
}

impl Cells {
    /// Builds the slicer that visits every cell of the given map.
    pub fn from_map<L, T>(map: &CellMap<L, T>) -> (r: Self) where L: Layer
        requires
            map.wf(),
        ensures
            r.inv(),
            r.sbounds().0.0 == 0 && r.sbounds().0.1 == map.nx(),
            r.sbounds().1.0 == 0 && r.sbounds().1.1 == map.ny(),
            r.cursor() == (0usize, 0usize),
    {
        let num = map.num_cells();
        Self { bounds: ((0, num.0), (0, num.1)), index: (0, 0) }
    }
}

impl Slicer for Cells {
    open spec fn sbounds(&self) -> Rect {
        self.bounds
    }

    open spec fn cursor(&self) -> (usize, usize) {
        self.index
    }

    open spec fn inv(&self) -> bool {
        &&& rect_valid(self.bounds)
        &&& cursor_ok(self.bounds, self.index)
    }

    fn index(&self) -> (r: Option<(usize, usize)>) {
        if self.index.0 < self.bounds.0.1 && self.index.1 < self.bounds.1.1 {
            Some(self.index)
        } else {
            None
        }
    }

    fn advance(&mut self) {
        if self.index.0 < self.bounds.0.1 && self.index.1 < self.bounds.1.1 {
            if self.index.0 + 1 < self.bounds.0.1 {
                self.index.0 = self.index.0 + 1;
            } else {
                self.index = (self.bounds.0.0, self.index.1 + 1);
            }
        }
    }

    fn reset(&mut self) {
        self.index = (self.bounds.0.0, self.bounds.1.0);
    }
}

/// A [`Slicer`] which visits, in raster order, every cell on which a window
/// of half-width `semi_width` fits inside the map: a border of `semi_width`
/// cells around the edge of the map is excluded, so that the window around
/// the cursor never leaves the grid.
#[derive(Debug, Clone, Copy)]
pub struct Windows {
    pub bounds: Rect,
    pub index: (usize, usize),
    pub semi_width: (usize, usize),
}

impl Windows {
    /// Builds the slicer for windows of half-width `semi_width` over the
    /// given map. The window spans `2 * semi_width + 1` cells on each axis,
    /// its centre cell included; if that exceeds the size of the map on
    /// either axis an error is returned.
    pub fn from_map<L, T>(map: &CellMap<L, T>, semi_width: (usize, usize)) -> (r: Result<
        Self,
        Error,
    >) where L: Layer
        requires
            map.wf(),
            2 * semi_width.0 + 1 <= usize::MAX,
            2 * semi_width.1 + 1 <= usize::MAX,
        ensures
            r is Ok <==> (2 * semi_width.0 + 1 <= map.nx() && 2 * semi_width.1 + 1 <= map.ny()),
            r is Ok ==> {
                let s = r.unwrap();
                &&& s.inv()
                &&& s.semi_width == semi_width
                &&& s.sbounds().0.0 == semi_width.0 && s.sbounds().0.1 == map.nx() - semi_width.0
                &&& s.sbounds().1.0 == semi_width.1 && s.sbounds().1.1 == map.ny() - semi_width.1
                &&& s.cursor() == (semi_width.0, semi_width.1)
                &&& rect_total(s.sbounds()) == (map.nx() - 2 * semi_width.0) * (map.ny() - 2
                    * semi_width.1)
            },
            r is Err ==> r == Err::<Self, Error>(
                Error::WindowLargerThanMap(
                    ((2 * semi_width.0 + 1) as usize, (2 * semi_width.1 + 1) as usize),
                    (map.nx() as usize, map.ny() as usize),
                ),
            ),
    {
        let num = map.num_cells();

        if semi_width.0 * 2 + 1 > num.0 || semi_width.1 * 2 + 1 > num.1 {
            Err(Error::WindowLargerThanMap((semi_width.0 * 2 + 1, semi_width.1 * 2 + 1), num))
        } else {
            let bounds = (
                (semi_width.0, num.0 - semi_width.0),
                (semi_width.1, num.1 - semi_width.1),
            );
            Ok(Self { bounds, index: (bounds.0.0, bounds.1.0), semi_width })
        }
    }
}

impl Slicer for Windows {
    open spec fn sbounds(&self) -> Rect {
        self.bounds
    }

    open spec fn cursor(&self) -> (usize, usize) {
        self.index
    }

    open spec fn inv(&self) -> bool {
        &&& rect_valid(self.bounds)
        &&& cursor_ok(self.bounds, self.index)
    }

    fn index(&self) -> (r: Option<(usize, usize)>) {
        if self.index.0 >= self.bounds.0.0 && self.index.0 < self.bounds.0.1 && self.index.1
            >= self.bounds.1.0 && self.index.1 < self.bounds.1.1 {
            Some(self.index)
        } else {
            None
        }
    }

    fn advance(&mut self) {
        if self.index.0 >= self.bounds.0.0 && self.index.0 < self.bounds.0.1 && self.index.1
            >= self.bounds.1.0 && self.index.1 < self.bounds.1.1 {
            if self.index.0 + 1 < self.bounds.0.1 {
                self.index.0 = self.index.0 + 1;
            } else {
                self.index = (self.bounds.0.0, self.index.1 + 1);
            }
        }
    }

    fn reset(&mut self) {
        self.index = (self.bounds.0.0, self.bounds.1.0);
    }
}

} // verus!
