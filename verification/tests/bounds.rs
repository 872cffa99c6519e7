//! Tests of the rectangle arithmetic on `Bounds`.

use cell_map::{Bounds, Error};

#[test]
fn bounds() {
    let b = Bounds::new((1, 8), (1, 8)).unwrap();

    assert!(b.contains((1, 1)));
    assert!(b.contains((1, 7)));
    assert!(b.contains((7, 1)));
    assert!(b.contains((7, 7)));
    assert!(!b.contains((0, 0)));
    assert!(!b.contains((0, 8)));
    assert!(!b.contains((8, 0)));
    assert!(!b.contains((8, 8)));
}

#[test]
fn new_rejects_unsorted() {
    assert!(Bounds::new((0, 5), (0, 5)).is_ok());
    assert!(Bounds::new((0, 0), (3, 3)).is_ok());
    let bad = Bounds::new((5, 0), (0, 5));
    match bad {
        Err(Error::InvalidBounds(b)) => {
            assert_eq!(b.x, (5, 0));
            assert_eq!(b.y, (0, 5));
        }
        _ => panic!("expected InvalidBounds"),
    }
}

#[test]
fn corners() {
    let b = Bounds::from_corners((-2, -3), (4, 5)).unwrap();
    assert_eq!(b.as_corners(), ((-2, -3), (4, 5)));
    assert!(Bounds::from_corners((4, 5), (-2, -3)).is_err());

    let u = Bounds::from_corners_unsorted((4, -3), (-2, 5));
    assert_eq!(u.x, (-2, 4));
    assert_eq!(u.y, (-3, 5));
}

#[test]
fn shapes_and_indices() {
    let b = Bounds::new((-5, 15), (-5, 15)).unwrap();
    assert_eq!(b.get_shape(), (20, 20));
    assert_eq!(b.get_num_cells(), (20, 20));

    assert_eq!(b.get_index((-5, -5)), Some((0, 0)));
    assert_eq!(b.get_index((14, -1)), Some((19, 4)));
    assert_eq!(b.get_index((15, 0)), None);
    assert_eq!(b.get_index_unchecked((-6, 0)), (-1, 5));
}

#[test]
fn intersect_commutes() {
    let a = Bounds::new((0, 10), (0, 10)).unwrap();
    let b = Bounds::new((5, 15), (-5, 7)).unwrap();
    let c = Bounds::new((20, 30), (0, 10)).unwrap();

    assert_eq!(a.intersect(&b), b.intersect(&a));
    assert_eq!(a.intersect(&b), Some(Bounds::new((5, 10), (0, 7)).unwrap()));
    assert_eq!(a.intersect(&c), None);
    assert_eq!(c.intersect(&a), None);
}

#[test]
fn union_contains_both() {
    let a = Bounds::new((0, 10), (0, 10)).unwrap();
    let b = Bounds::new((5, 15), (-5, 7)).unwrap();
    let u = a.union(&b);

    assert_eq!(u, Bounds::new((0, 15), (-5, 10)).unwrap());
    for p in [(0, 0), (9, 9), (5, -5), (14, 6)] {
        assert!(u.contains(p));
    }
}

#[test]
fn union_with_empty() {
    let empty = Bounds::new((3, 3), (4, 4)).unwrap();
    let b = Bounds::new((0, 5), (0, 5)).unwrap();
    assert_eq!(empty.union(&b), b);
    assert_eq!(b.union(&empty), b);

    let both_empty = Bounds::empty().union(&Bounds::empty());
    assert_eq!(both_empty, Bounds::empty());
    assert!(both_empty.is_valid());
}

#[test]
fn slice_of_other() {
    let a = Bounds::new((0, 10), (0, 10)).unwrap();
    let b = Bounds::new((5, 15), (-5, 7)).unwrap();

    assert_eq!(a.get_slice_of_other(&b), Some(((5, 10), (0, 7))));
    assert_eq!(b.get_slice_of_other(&a), Some(((0, 5), (5, 12))));

    let c = Bounds::new((20, 30), (0, 10)).unwrap();
    assert_eq!(a.get_slice_of_other(&c), None);
}
