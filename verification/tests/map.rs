//! Tests of `CellMap` storage: construction, access, resize and merge.

use cell_map::{Bounds, CellMap, Error, Layer};

#[derive(Clone, Copy, Debug, PartialEq, Eq)]
enum TestLayers {
    Layer0,
    Layer1,
    Layer2,
}

impl Layer for TestLayers {
    const NUM_LAYERS: usize = 3;
    const FIRST: Self = TestLayers::Layer0;

    fn to_index(&self) -> usize {
        match self {
            TestLayers::Layer0 => 0,
            TestLayers::Layer1 => 1,
            TestLayers::Layer2 => 2,
        }
    }

    fn from_index(index: usize) -> Self {
        match index {
            0 => TestLayers::Layer0,
            1 => TestLayers::Layer1,
            2 => TestLayers::Layer2,
            _ => panic!("layer index {} out of range", index),
        }
    }

    fn all() -> Vec<Self> {
        vec![TestLayers::Layer0, TestLayers::Layer1, TestLayers::Layer2]
    }
}

#[test]
fn get_and_set() {
    let bounds = Bounds::new((0, 4), (0, 3)).unwrap();
    let mut map = CellMap::<TestLayers, i32>::new_from_elem(bounds, 7);

    assert_eq!(map.cell_bounds(), bounds);
    assert_eq!(map.num_cells(), (4, 3));
    assert!(map.index_in_map((3, 2)));
    assert!(!map.index_in_map((4, 2)));

    assert_eq!(map.get(TestLayers::Layer1, (2, 1)), Some(&7));
    assert_eq!(map.get(TestLayers::Layer1, (2, 3)), None);

    assert_eq!(map.set(TestLayers::Layer1, (2, 1), 42), Ok(()));
    assert_eq!(map.get(TestLayers::Layer1, (2, 1)), Some(&42));
    // The write touched one cell of one layer only.
    assert_eq!(map.get(TestLayers::Layer0, (2, 1)), Some(&7));
    assert_eq!(map.get(TestLayers::Layer1, (1, 2)), Some(&7));

    assert_eq!(
        map.set(TestLayers::Layer0, (9, 0), 1),
        Err(Error::IndexOutsideMap((9, 0)))
    );

    if let Some(cell) = map.get_mut(TestLayers::Layer2, (0, 0)) {
        *cell = -1;
    }
    assert_eq!(map.get(TestLayers::Layer2, (0, 0)), Some(&-1));
    assert!(map.get_mut(TestLayers::Layer2, (0, 9)).is_none());
}

#[test]
fn new_fills_with_default() {
    let bounds = Bounds::new((-2, 2), (-2, 2)).unwrap();
    let map = CellMap::<TestLayers, Option<i32>>::new(bounds);
    for layer in TestLayers::all() {
        for y in 0..4 {
            for x in 0..4 {
                assert_eq!(map.get(layer, (x, y)), Some(&None));
            }
        }
    }
}

#[test]
fn from_data_validation() {
    let bounds = Bounds::new((0, 2), (0, 2)).unwrap();

    let good = vec![vec![1, 2, 3, 4], vec![5, 6, 7, 8], vec![9, 10, 11, 12]];
    let map = CellMap::<TestLayers, i32>::new_from_data(bounds, good).unwrap();
    // Data is flat row-major: the cell at (x, y) is at offset y * width + x.
    assert_eq!(map.get(TestLayers::Layer0, (1, 0)), Some(&2));
    assert_eq!(map.get(TestLayers::Layer1, (0, 1)), Some(&7));
    assert_eq!(map.get(TestLayers::Layer2, (1, 1)), Some(&12));

    let too_few = vec![vec![0; 4], vec![0; 4]];
    assert_eq!(
        CellMap::<TestLayers, i32>::new_from_data(bounds, too_few).unwrap_err(),
        Error::WrongNumberOfLayers(3, 2)
    );

    let bad_shape = vec![vec![0; 4], vec![0; 3], vec![0; 4]];
    assert_eq!(
        CellMap::<TestLayers, i32>::new_from_data(bounds, bad_shape).unwrap_err(),
        Error::LayerWrongShape(4, 3)
    );
}

#[test]
fn test_resize() {
    let mut map = CellMap::<TestLayers, Option<i32>>::new_from_elem(
        Bounds::new((0, 10), (0, 10)).unwrap(),
        Some(1),
    );

    // Resize it with an extra 5 cells on the border
    let new_bounds = Bounds::new((-5, 15), (-5, 15)).unwrap();
    map.resize(new_bounds);

    // Check shape related data
    assert_eq!(map.cell_bounds(), new_bounds);
    assert_eq!(map.num_cells(), (20, 20));

    // Check that the borders are None, but the old map area is Some
    let mut it = map.iter().layer(TestLayers::Layer0);
    while let Some((_, idx)) = it.next_index() {
        let val = *map.get(TestLayers::Layer0, idx).unwrap();
        if idx.0 < 5 || idx.0 >= 15 || idx.1 < 5 || idx.1 >= 15 {
            assert_eq!(val, None);
        } else {
            assert_eq!(val, Some(1));
        }
    }

    // Resize it so we cut off some of the known data
    let new_bounds = Bounds::new((8, 12), (-5, 15)).unwrap();
    map.resize(new_bounds);

    // Check shape related data
    assert_eq!(map.cell_bounds(), new_bounds);
    assert_eq!(map.num_cells(), (4, 20));

    // Check that the borders are None, but the old map area is Some
    let mut it = map.iter().layer(TestLayers::Layer0);
    while let Some((_, idx)) = it.next_index() {
        let val = *map.get(TestLayers::Layer0, idx).unwrap();
        if idx.0 >= 2 || idx.1 < 5 || idx.1 >= 15 {
            assert_eq!(val, None);
        } else {
            assert_eq!(val, Some(1));
        }
    }
}

/// The raster-order destination map for merging a finer grid whose cells
/// are half as wide: source cell `(x, y)` lands in store cell `(x/2, y/2)`.
fn halved_dest(width: usize, height: usize) -> Vec<(usize, usize)> {
    let mut dest = Vec::new();
    for y in 0..height {
        for x in 0..width {
            dest.push((x / 2, y / 2));
        }
    }
    dest
}

#[test]
fn test_merge() {
    // A 10x10 coarse map holding 1 everywhere.
    let mut map_a =
        CellMap::<TestLayers, i32>::new_from_elem(Bounds::new((0, 10), (0, 10)).unwrap(), 1);

    // A finer map with cells half as wide, covering the square from (0, 0)
    // to (5, 5) of the coarse map with 10x10 cells holding 2. Four of its
    // cell centres fall into each covered coarse cell.
    let map_b =
        CellMap::<TestLayers, i32>::new_from_elem(Bounds::new((0, 10), (0, 10)).unwrap(), 2);
    let other_in_self = Bounds::new((0, 5), (0, 5)).unwrap();
    let dest = halved_dest(10, 10);

    // Simple average merge
    map_a.merge(&map_b, other_in_self, &dest, |&a, bs: &[i32]| {
        let mut acc = a;
        for &b in bs {
            acc += b
        }

        (acc as f64 / (bs.len() as f64 + 1.0)).round() as i32
    });

    // The bounds did not grow: the projection lies inside the map.
    assert_eq!(map_a.cell_bounds(), Bounds::new((0, 10), (0, 10)).unwrap());

    for layer in TestLayers::all() {
        for y in 0..10 {
            for x in 0..10 {
                let val = *map_a.get(layer, (x, y)).unwrap();
                if x < 5 && y < 5 {
                    // Average of one 1 and four 2s, rounded: 9 / 5 -> 2.
                    assert_eq!(val, 2);
                } else {
                    assert_eq!(val, 1);
                }
            }
        }
    }
}

#[test]
fn merge_grows_bounds() {
    // Merging a projection that sticks out of the map grows the bounds to
    // the union and leaves cells outside the projection untouched.
    let mut map_a =
        CellMap::<TestLayers, i32>::new_from_elem(Bounds::new((0, 4), (0, 4)).unwrap(), 1);
    let map_b =
        CellMap::<TestLayers, i32>::new_from_elem(Bounds::new((0, 4), (0, 4)).unwrap(), 10);
    // The finer map covers the square from (2, 2) to (4, 4) shifted so that
    // it extends two cells past the old maximum corner.
    let other_in_self = Bounds::new((2, 6), (2, 6)).unwrap();
    let mut dest = Vec::new();
    for y in 0..4 {
        for x in 0..4 {
            dest.push((x, y));
        }
    }

    map_a.merge(&map_b, other_in_self, &dest, |&a, bs: &[i32]| {
        let mut acc = a;
        for &b in bs {
            acc += b;
        }
        acc
    });

    assert_eq!(map_a.cell_bounds(), Bounds::new((0, 6), (0, 6)).unwrap());

    for y in 0..6 {
        for x in 0..6 {
            let val = *map_a.get(TestLayers::Layer0, (x, y)).unwrap();
            if x >= 2 && y >= 2 {
                // One source value landed here, added to the cell's value
                // after the resize: 1 + 10 inside the old map, 0 + 10 in
                // the newly added (default-filled) cells.
                if x < 4 && y < 4 {
                    assert_eq!(val, 11);
                } else {
                    assert_eq!(val, 10);
                }
            } else if x < 4 && y < 4 {
                // Old cells outside the projection are untouched.
                assert_eq!(val, 1);
            } else {
                // Newly added cells outside the projection hold the default.
                assert_eq!(val, 0);
            }
        }
    }
}

#[test]
fn merge_conservation() {
    // Merging a uniform finer grid with an averaging reducer keeps every
    // merged cell between the smallest and largest contributing input.
    let mut map_a =
        CellMap::<TestLayers, i32>::new_from_elem(Bounds::new((0, 8), (0, 8)).unwrap(), 4);
    let map_b =
        CellMap::<TestLayers, i32>::new_from_elem(Bounds::new((0, 8), (0, 8)).unwrap(), 8);
    let other_in_self = Bounds::new((0, 4), (0, 4)).unwrap();
    let dest = halved_dest(8, 8);

    map_a.merge(&map_b, other_in_self, &dest, |&a, bs: &[i32]| {
        let mut acc = a;
        for &b in bs {
            acc += b;
        }
        (acc as f64 / (bs.len() as f64 + 1.0)).round() as i32
    });

    for y in 0..8 {
        for x in 0..8 {
            let val = *map_a.get(TestLayers::Layer0, (x, y)).unwrap();
            if x < 4 && y < 4 {
                assert!(val >= 4 && val <= 8, "merged value {} out of range", val);
                // Deterministic: average of one 4 and four 8s, rounded.
                assert_eq!(val, 7);
            } else {
                assert_eq!(val, 4);
            }
        }
    }
}

#[test]
fn window_cells_copies_window() {
    let bounds = Bounds::new((0, 5), (0, 5)).unwrap();
    let mut map = CellMap::<TestLayers, i32>::new_from_elem(bounds, 0);
    for y in 0..5usize {
        for x in 0..5usize {
            map.set(TestLayers::Layer0, (x, y), (10 * y + x) as i32).unwrap();
        }
    }

    let window = map.window_cells(TestLayers::Layer0, (2, 3), (1, 1));
    assert_eq!(window, vec![21, 22, 23, 31, 32, 33, 41, 42, 43]);

    let single = map.window_cells(TestLayers::Layer0, (4, 0), (0, 0));
    assert_eq!(single, vec![4]);
}
