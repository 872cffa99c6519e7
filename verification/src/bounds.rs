//! Rectangle arithmetic over half-open cell-index ranges.

use vstd::prelude::*;

use crate::error::Error;

verus! {

/// Rectangular bounds describing the cell indices covered by a map.
///
/// The bounds are half-open ranges on both axes: a point `(px, py)` lies
/// inside exactly when `x.0 <= px < x.1` and `y.0 <= py < y.1`. Indices may
/// be negative. A bound with `x.0 == x.1` or `y.0 == y.1` is a valid, empty
/// bound.
#[derive(Debug, Clone, Copy, PartialEq, Eq)]
pub struct Bounds {
    /// The bounds on the x axis, in the format `(min, max)`.
    pub x: (isize, isize),

    /// The bounds on the y axis, in the format `(min, max)`.
    pub y: (isize, isize),
}

impl Bounds {
    /// Whether the minimum is at most the maximum on both axes.
    pub open spec fn valid(self) -> bool {
        self.x.0 <= self.x.1 && self.y.0 <= self.y.1
    }

    /// Number of cells covered on the x axis.
    pub open spec fn width(self) -> int {
        self.x.1 - self.x.0
    }

    /// Number of cells covered on the y axis.
    pub open spec fn height(self) -> int {
        self.y.1 - self.y.0
    }

    /// Total number of cells covered.
    pub open spec fn area(self) -> int {
        self.width() * self.height()
    }

    /// Whether a point lies inside the bounds.
    pub open spec fn spec_contains(self, point: (isize, isize)) -> bool {
        &&& self.x.0 <= point.0 < self.x.1
        &&& self.y.0 <= point.1 < self.y.1
    }

    /// Whether a point, given as unbounded integers, lies inside the bounds.
    pub open spec fn covers(self, px: int, py: int) -> bool {
        &&& self.x.0 <= px < self.x.1
        &&& self.y.0 <= py < self.y.1
    }

    /// The componentwise intersection: maximum of minima, minimum of maxima.
    /// May be invalid when the operands do not overlap.
    pub open spec fn spec_intersect(self, other: Bounds) -> Bounds {
        Bounds {
            x: (
                vstd::math::max(self.x.0 as int, other.x.0 as int) as isize,
                vstd::math::min(self.x.1 as int, other.x.1 as int) as isize,
            ),
            y: (
                vstd::math::max(self.y.0 as int, other.y.0 as int) as isize,
                vstd::math::min(self.y.1 as int, other.y.1 as int) as isize,
            ),
        }
    }

    /// The componentwise union: minimum of minima, maximum of maxima. This is
    /// the axis-aligned bounding box of the two operands.
    pub open spec fn spec_union(self, other: Bounds) -> Bounds {
        Bounds {
            x: (
                vstd::math::min(self.x.0 as int, other.x.0 as int) as isize,
                vstd::math::max(self.x.1 as int, other.x.1 as int) as isize,
            ),
            y: (
                vstd::math::min(self.y.0 as int, other.y.0 as int) as isize,
                vstd::math::max(self.y.1 as int, other.y.1 as int) as isize,
            ),
        }
    }

    /// Creates a new empty (zero sized) bound.
    pub fn empty() -> (r: Self)
        ensures
            r == (Bounds { x: (0, 0), y: (0, 0) }),
    {
        Self { x: (0, 0), y: (0, 0) }
    }

    /// Returns whether the bounds are valid, i.e. whether the minimum is at
    /// most the maximum on both axes.
    pub fn is_valid(&self) -> (r: bool)
        ensures
            r == self.valid(),
    {
        self.x.0 <= self.x.1 && self.y.0 <= self.y.1
    }

    /// Creates a new bound from the given min and max cell indices on the x
    /// and y axes. Returns an error unless `x.0 <= x.1` and `y.0 <= y.1`.
    pub fn new(x: (isize, isize), y: (isize, isize)) -> (r: Result<Self, Error>)
        ensures
            x.0 <= x.1 && y.0 <= y.1 ==> r == Ok::<Bounds, Error>(Bounds { x, y }),
            !(x.0 <= x.1 && y.0 <= y.1) ==> r == Err::<Bounds, Error>(
                Error::InvalidBounds(Bounds { x, y }),
            ),
    {
        let bounds = Self { x, y };

        if bounds.is_valid() {
            Ok(bounds)
        } else {
            Err(Error::InvalidBounds(bounds))
        }
    }

    /// Creates a new bound from the given opposing corners of a rectangle.
    ///
    /// Returns an error unless `bottom_left <= upper_right` holds on both
    /// axes.
    pub fn from_corners(bottom_left: (isize, isize), upper_right: (isize, isize)) -> (r: Result<
        Self,
        Error,
    >)
        ensures
            ({
                let b = Bounds {
                    x: (bottom_left.0, upper_right.0),
                    y: (bottom_left.1, upper_right.1),
                };
                r == if b.valid() {
                    Ok::<Bounds, Error>(b)
                } else {
                    Err::<Bounds, Error>(Error::InvalidBounds(b))
                }
            }),
    {
        let bounds = Self { x: (bottom_left.0, upper_right.0), y: (bottom_left.1, upper_right.1) };

        if bounds.is_valid() {
            Ok(bounds)
        } else {
            Err(Error::InvalidBounds(bounds))
        }
    }

    /// Creates a new bound from the given opposing corners of a rectangle,
    /// which do not have to be sorted: the minimum and maximum are taken on
    /// each axis, so the result is always valid.
    pub fn from_corners_unsorted(a: (isize, isize), b: (isize, isize)) -> (r: Self)
        ensures
            r.x.0 == vstd::math::min(a.0 as int, b.0 as int),
            r.x.1 == vstd::math::max(a.0 as int, b.0 as int),
            r.y.0 == vstd::math::min(a.1 as int, b.1 as int),
            r.y.1 == vstd::math::max(a.1 as int, b.1 as int),
            r.valid(),
    {
        let x0 = if a.0 <= b.0 { a.0 } else { b.0 };
        let x1 = if a.0 <= b.0 { b.0 } else { a.0 };
        let y0 = if a.1 <= b.1 { a.1 } else { b.1 };
        let y1 = if a.1 <= b.1 { b.1 } else { a.1 };
        Self { x: (x0, x1), y: (y0, y1) }
    }

    /// Converts the bounds into its pair of corners, the bottom left and
    /// upper right corners respectively.
    pub fn as_corners(&self) -> (r: ((isize, isize), (isize, isize)))
        ensures
            r == ((self.x.0, self.y.0), (self.x.1, self.y.1)),
    {
        ((self.x.0, self.y.0), (self.x.1, self.y.1))
    }

    /// Checks whether the given point is inside the bounds.
    pub fn contains(&self, point: (isize, isize)) -> (r: bool)
        ensures
            r == self.spec_contains(point),
    {
        self.x.0 <= point.0 && point.0 < self.x.1 && self.y.0 <= point.1 && point.1 < self.y.1
    }

    /// Gets the value of the point as an index into an array bounded by this
    /// `Bounds`, i.e. the offset of the point from the minimum corner.
    ///
    /// Returns `None` if the point is outside the bounds.
    pub fn get_index(&self, point: (isize, isize)) -> (r: Option<(usize, usize)>)
        ensures
            r is Some <==> self.spec_contains(point),
            r is Some ==> {
                let i = r.unwrap();
                &&& i.0 == point.0 - self.x.0
                &&& i.1 == point.1 - self.y.0
            },
    {
        if self.contains(point) {
            let ix: i128 = point.0 as i128 - self.x.0 as i128;
            let iy: i128 = point.1 as i128 - self.y.0 as i128;
            Some((ix as usize, iy as usize))
        } else {
            None
        }
    }

    /// Gets the value of the point as an index into an array bounded by this
    /// `Bounds`, without checking that the point lies inside the bounds.
    ///
    /// The offsets `point - min_corner` must fit in `isize` on both axes; the
    /// result is negative exactly when the point lies below the minimum
    /// corner on that axis.
    pub fn get_index_unchecked(&self, point: (isize, isize)) -> (r: (isize, isize))
        requires
            isize::MIN <= point.0 - self.x.0 <= isize::MAX,
            isize::MIN <= point.1 - self.y.0 <= isize::MAX,
        ensures
            r.0 == point.0 - self.x.0,
            r.1 == point.1 - self.y.0,
    {
        (point.0 - self.x.0, point.1 - self.y.0)
    }

    /// Gets the shape of this rectangle as `(rows, columns)`, i.e. the number
    /// of cells covered on the y axis first and the x axis second.
    pub fn get_shape(&self) -> (r: (usize, usize))
        requires
            self.valid(),
        ensures
            r.0 == self.height(),
            r.1 == self.width(),
    {
        let h: i128 = self.y.1 as i128 - self.y.0 as i128;
        let w: i128 = self.x.1 as i128 - self.x.0 as i128;
        (h as usize, w as usize)
    }

    /// Gets the number of cells covered on each axis, as `(x, y)`.
    pub fn get_num_cells(&self) -> (r: (usize, usize))
        requires
            self.valid(),
        ensures
            r.0 == self.width(),
            r.1 == self.height(),
    {
        let shape = self.get_shape();
        (shape.1, shape.0)
    }

    /// Gets the intersection of `self` with `other`, returning `None` if the
    /// two do not intersect.
    pub fn intersect(&self, other: &Bounds) -> (r: Option<Bounds>)
        ensures
            r is Some <==> self.spec_intersect(*other).valid(),
            r is Some ==> r.unwrap() == self.spec_intersect(*other),
    {
        let x0 = if self.x.0 >= other.x.0 { self.x.0 } else { other.x.0 };
        let x1 = if self.x.1 <= other.x.1 { self.x.1 } else { other.x.1 };
        let y0 = if self.y.0 >= other.y.0 { self.y.0 } else { other.y.0 };
        let y1 = if self.y.1 <= other.y.1 { self.y.1 } else { other.y.1 };

        match Bounds::new((x0, x1), (y0, y1)) {
            Ok(b) => Some(b),
            Err(_) => None,
        }
    }

    /// Gets the union of `self` with `other`: the axis-aligned bounding box
    /// of both. If the componentwise result is invalid (which cannot happen
    /// when either operand is valid), an empty bound is returned instead.
    pub fn union(&self, other: &Bounds) -> (r: Bounds)
        ensures
            self.spec_union(*other).valid() ==> r == self.spec_union(*other),
            !self.spec_union(*other).valid() ==> r == (Bounds { x: (0, 0), y: (0, 0) }),
            self.valid() || other.valid() ==> r == self.spec_union(*other),
    {
        let x0 = if self.x.0 <= other.x.0 { self.x.0 } else { other.x.0 };
        let x1 = if self.x.1 >= other.x.1 { self.x.1 } else { other.x.1 };
        let y0 = if self.y.0 <= other.y.0 { self.y.0 } else { other.y.0 };
        let y1 = if self.y.1 >= other.y.1 { self.y.1 } else { other.y.1 };

        match Bounds::new((x0, x1), (y0, y1)) {
            Ok(b) => b,
            Err(_) => Bounds::empty(),
        }
    }

    /// Gets the region of `other` that lies within `self`, rebased so that it
    /// can be used to slice an array shaped like `self`.
    ///
    /// The result is a pair of half-open index ranges `((x0, x1), (y0, y1))`
    /// relative to `self`'s minimum corner. Returns `None` if the two bounds
    /// do not intersect.
    pub fn get_slice_of_other(&self, other: &Bounds) -> (r: Option<((usize, usize), (usize, usize))>)
        ensures
            r is Some <==> self.spec_intersect(*other).valid(),
            r is Some ==> {
                let it = self.spec_intersect(*other);
                let s = r.unwrap();
                &&& s.0.0 == it.x.0 - self.x.0
                &&& s.0.1 == it.x.1 - self.x.0
                &&& s.1.0 == it.y.0 - self.y.0
                &&& s.1.1 == it.y.1 - self.y.0
            },
    {
        let intersection = match self.intersect(other) {
            Some(b) => b,
            None => {
                return None;
            },
        };

        let x0: i128 = intersection.x.0 as i128 - self.x.0 as i128;
        let x1: i128 = intersection.x.1 as i128 - self.x.0 as i128;
        let y0: i128 = intersection.y.0 as i128 - self.y.0 as i128;
        let y1: i128 = intersection.y.1 as i128 - self.y.0 as i128;

        Some(((x0 as usize, x1 as usize), (y0 as usize, y1 as usize)))
    }
}

impl core::default::Default for Bounds {
    /// The default bound is the empty bound at the origin.
    fn default() -> (r: Self)
        ensures
            r == (Bounds { x: (0, 0), y: (0, 0) }),
    {
        Self::empty()
    }
}

/// Intersection is commutative: intersecting `a` with `b` gives the same
/// bounds, valid or not, as intersecting `b` with `a`, so `intersect` returns
/// the same result either way around.
pub proof fn lemma_intersect_commutative(a: Bounds, b: Bounds)
    ensures
        a.spec_intersect(b) == b.spec_intersect(a),
{
}

/// The union of two valid bounds is valid and contains every point of either
/// operand.
pub proof fn lemma_union_contains_both(a: Bounds, b: Bounds, p: (isize, isize))
    requires
        a.valid(),
        b.valid(),
        a.spec_contains(p) || b.spec_contains(p),
    ensures
        a.spec_union(b).valid(),
        a.spec_union(b).spec_contains(p),
{
}

/// Taking the union with an empty bound whose corner lies within `b` gives
/// `b` back, in either argument order.
pub proof fn lemma_union_with_empty(a: Bounds, b: Bounds)
    requires
        a.x.0 == a.x.1,
        a.y.0 == a.y.1,
        b.valid(),
        b.x.0 <= a.x.0 <= b.x.1,
        b.y.0 <= a.y.0 <= b.y.1,
    ensures
        a.spec_union(b) == b,
        b.spec_union(a) == b,
{
}

} // verus!
