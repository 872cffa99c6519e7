//! Tests of the iteration engine: slicers, layerers and their composition.

use std::collections::HashSet;

use cell_map::{Bounds, CellMap, Layer};

#[derive(Clone, Copy, Debug, PartialEq, Eq, Hash)]
enum TestLayers {
    Layer0,
    Layer1,
    Layer2,
}

impl Layer for TestLayers {
    const NUM_LAYERS: usize = 3;
    const FIRST: Self = TestLayers::Layer0;

    fn to_index(&self) -> usize {
        match self {
            TestLayers::Layer0 => 0,
            TestLayers::Layer1 => 1,
            TestLayers::Layer2 => 2,
        }
    }

    fn from_index(index: usize) -> Self {
        match index {
            0 => TestLayers::Layer0,
            1 => TestLayers::Layer1,
            2 => TestLayers::Layer2,
            _ => panic!("layer index {} out of range", index),
        }
    }

    fn all() -> Vec<Self> {
        vec![TestLayers::Layer0, TestLayers::Layer1, TestLayers::Layer2]
    }
}

fn five_by_five(value: f64) -> CellMap<TestLayers, f64> {
    CellMap::new_from_elem(Bounds::new((0, 5), (0, 5)).unwrap(), value)
}

/// Check that iterator constructors return the right ok or error.
#[test]
fn construction() {
    // Dummy map
    let map = five_by_five(1.0);

    // Try to build new iterators, checking we don't panic
    let _ = map.iter();
    let _ = map.iter_mut();
    assert!(map.window_iter((2, 2)).is_ok());
    assert!(map.window_iter_mut((2, 2)).is_ok());

    // Check that window builds return errors when we use a big window,
    // reporting the requested window size and the map size
    match map.window_iter((3, 3)) {
        Err(cell_map::Error::WindowLargerThanMap(requested, size)) => {
            assert_eq!(requested, (7, 7));
            assert_eq!(size, (5, 5));
        }
        _ => panic!("expected WindowLargerThanMap"),
    }
    assert!(map.window_iter_mut((3, 3)).is_err());
}

#[test]
fn counts() {
    // Dummy map
    let map = five_by_five(1.0);

    let mut it = map.iter();
    let mut count = 0;
    while it.next_index().is_some() {
        count += 1;
    }
    assert_eq!(count, 75);

    let mut it = map.iter().layer(TestLayers::Layer0);
    let mut count = 0;
    while it.next_index().is_some() {
        count += 1;
    }
    assert_eq!(count, 25);

    let mut it = map
        .iter()
        .layers(&[TestLayers::Layer0, TestLayers::Layer2]);
    let mut count = 0;
    while it.next_index().is_some() {
        count += 1;
    }
    assert_eq!(count, 50);

    let mut it = map.iter_mut();
    let mut count = 0;
    while it.next_index().is_some() {
        count += 1;
    }
    assert_eq!(count, 75);

    let mut it = map.iter_mut().layer(TestLayers::Layer0);
    let mut count = 0;
    while it.next_index().is_some() {
        count += 1;
    }
    assert_eq!(count, 25);

    let mut it = map
        .iter_mut()
        .layers(&[TestLayers::Layer0, TestLayers::Layer2]);
    let mut count = 0;
    while it.next_index().is_some() {
        count += 1;
    }
    assert_eq!(count, 50);

    let mut it = map.window_iter((1, 1)).unwrap();
    let mut count = 0;
    while it.next_index().is_some() {
        count += 1;
    }
    assert_eq!(count, 27);

    let mut it = map.window_iter_mut((1, 1)).unwrap();
    let mut count = 0;
    while it.next_index().is_some() {
        count += 1;
    }
    assert_eq!(count, 27);

    let mut it = map.window_iter((2, 2)).unwrap();
    let mut count = 0;
    while it.next_index().is_some() {
        count += 1;
    }
    assert_eq!(count, 3);

    let mut it = map.window_iter_mut((2, 2)).unwrap();
    let mut count = 0;
    while it.next_index().is_some() {
        count += 1;
    }
    assert_eq!(count, 3);
}

#[test]
fn iterators_iter() {
    // Crate dummy cell map
    let map = five_by_five(1.0);

    // Check there are the right number of items in the iterator, and that
    // all cells are 1
    let mut it = map.iter();
    let mut count = 0;
    while let Some(&v) = it.next(&map) {
        assert_eq!(v, 1.0);
        count += 1;
    }
    assert_eq!(count, map.num_cells().0 * map.num_cells().1 * TestLayers::NUM_LAYERS);
}

#[test]
fn iterators_iter_mut() {
    // Crate dummy cell map
    let mut map = five_by_five(1.0);

    // Check we have the right number of items from a mutable iterator
    let mut it = map.iter_mut();
    let mut count = 0;
    while it.next_index().is_some() {
        count += 1;
    }
    assert_eq!(count, map.num_cells().0 * map.num_cells().1 * TestLayers::NUM_LAYERS);

    // Check all elements are 1, change them to 2
    let mut it = map.iter_mut();
    while let Some(v) = it.next_mut(&mut map) {
        assert_eq!(*v, 1.0);
        *v = 2.0;
    }

    // Check all elements are 2
    let mut it = map.iter();
    while let Some(&v) = it.next(&map) {
        assert_eq!(v, 2.0);
    }
}

#[test]
fn cell_iter_iter() {
    let map = five_by_five(1.0);

    let mut it = map.iter();
    let mut count = 0;
    while let Some(&v) = it.next(&map) {
        assert_eq!(v, 1.0);
        count += 1;
    }
    assert_eq!(count, 75);
}

#[test]
fn cell_iter_iter_mut() {
    let mut map = five_by_five(1.0);

    let mut it = map.iter_mut();
    let mut count = 0;
    while let Some(v) = it.next_mut(&mut map) {
        assert_eq!(*v, 1.0);
        *v = 2.0;
        count += 1;
    }
    assert_eq!(count, 75);

    let mut it = map.iter();
    while let Some(&v) = it.next(&map) {
        assert_eq!(v, 2.0);
    }
}

#[test]
fn index_correct() {
    let map = five_by_five(1.0);

    // A single-layer traversal yields raster order: x fastest, then y.
    let mut expected = Vec::new();
    for y in 0..5usize {
        for x in 0..5usize {
            expected.push((x, y));
        }
    }

    let mut it = map.iter().layer(TestLayers::Layer1);
    let mut seen = Vec::new();
    while let Some((layer, idx)) = it.next_index() {
        assert_eq!(layer, TestLayers::Layer1);
        seen.push(idx);
    }
    assert_eq!(seen, expected);
}

#[test]
fn cell() {
    // Create dummy map
    let map = five_by_five(1.0);
    let per_layer = map.num_cells().0 * map.num_cells().1;

    // Create an iterator over only one layer and check we have all the
    // cells we expect
    for layer in TestLayers::all() {
        let mut it = map.iter().layer(layer);
        let mut count = 0;
        while it.next_index().is_some() {
            count += 1;
        }
        assert_eq!(count, per_layer);
    }

    // Create an iter over many layers and check the number of cells is
    // right
    let groups: [&[TestLayers]; 3] = [
        &[TestLayers::Layer0, TestLayers::Layer1],
        &[TestLayers::Layer0, TestLayers::Layer2],
        &[TestLayers::Layer0, TestLayers::Layer1, TestLayers::Layer2],
    ];
    for layers in groups {
        let mut it = map.iter().layers(layers);
        let mut count = 0;
        while it.next_index().is_some() {
            count += 1;
        }
        assert_eq!(count, per_layer * layers.len());
    }
}

#[test]
fn indexed() {
    // Create dummy map
    let map = five_by_five(1.0);

    // Somewhere to store all the cells we visited
    let mut visited_cells = Vec::new();

    // Walk the first layer, checking layer and value of every item
    let mut it = map.iter().layer(TestLayers::Layer0);
    while let Some((layer, cell)) = it.next_index() {
        assert_eq!(layer, TestLayers::Layer0);
        assert_eq!(*map.get(layer, cell).unwrap(), 1.0);
        visited_cells.push(cell);
    }

    // Check that all the cell indices are unique
    let mut unique = HashSet::new();
    assert!(visited_cells.into_iter().all(move |c| unique.insert(c)));
}

#[test]
fn layered_iter_iter() {
    let map = five_by_five(1.0);

    // Every layer pairing visits each of its layers fully, in queue order.
    let mut it = map
        .iter()
        .layers(&[TestLayers::Layer2, TestLayers::Layer0]);
    let mut seen = Vec::new();
    while let Some((layer, idx)) = it.next_index() {
        assert_eq!(*map.get(layer, idx).unwrap(), 1.0);
        seen.push(layer);
    }
    assert_eq!(seen.len(), 50);
    assert!(seen[..25].iter().all(|&l| l == TestLayers::Layer2));
    assert!(seen[25..].iter().all(|&l| l == TestLayers::Layer0));
}

#[test]
fn layered_iter_iter_mut() {
    let mut map = five_by_five(1.0);

    // Mutate a single layer and check the others are untouched.
    let mut it = map.iter_mut().layer(TestLayers::Layer1);
    while let Some(v) = it.next_mut(&mut map) {
        *v = 3.0;
    }

    let mut it = map.iter();
    while let Some((layer, idx)) = it.next_index() {
        let val = *map.get(layer, idx).unwrap();
        if layer == TestLayers::Layer1 {
            assert_eq!(val, 3.0);
        } else {
            assert_eq!(val, 1.0);
        }
    }
}

#[test]
fn window_iter() {
    // Create dummy map
    let map = five_by_five(1.0);

    // If we iterate a window of size 1 over this we should get 9 total
    // windows, since we exclude the outer border from the iteration.
    // Accounting for each layer that's 27 views
    let mut it = map.window_iter((1, 1)).unwrap();
    let mut count = 0;
    while let Some((_, centre)) = it.next_index() {
        let window = map.window_cells(TestLayers::Layer0, centre, (1, 1));
        assert_eq!(window.len(), 9);
        count += 1;
    }
    assert_eq!(count, 27);
}

#[test]
fn window_iter_mut() {
    // Create dummy map
    let mut map = five_by_five(1.0);

    let mut it = map.window_iter((1, 1)).unwrap();
    let mut count = 0;
    while it.next_index().is_some() {
        count += 1;
    }
    assert_eq!(count, 27);

    // Now set the central cell of every window to be 2
    let mut it = map.window_iter_mut((1, 1)).unwrap();
    while let Some(v) = it.next_mut(&mut map) {
        *v = 2.0;
    }

    // Check that everything except those on the edge are 2
    let mut it = map.iter();
    while let Some((_, cell)) = it.next_index() {
        let value = *map.get(TestLayers::Layer0, cell).unwrap();
        if cell.0 == 0 || cell.0 == 4 || cell.1 == 0 || cell.1 == 4 {
            assert_eq!(value, 1.0);
        } else {
            assert_eq!(value, 2.0);
        }
    }
}

#[test]
fn map_layers_pairs() {
    let mut map = five_by_five(0.0);

    // Fill layer 0 with a gradient, then derive layer 2 from it in one
    // pass.
    let mut it = map.iter_mut().layer(TestLayers::Layer0);
    let mut n = 0.0;
    while let Some(v) = it.next_mut(&mut map) {
        *v = n;
        n += 1.0;
    }

    let mut it = map
        .iter_mut()
        .map_layers(TestLayers::Layer0, TestLayers::Layer2);
    while let Some((from, to)) = it.next_pair(&mut map) {
        *to = from * 2.0;
    }

    let mut it = map.iter().layer(TestLayers::Layer2);
    let mut expected = 0.0;
    while let Some(&v) = it.next(&map) {
        assert_eq!(v, expected * 2.0);
        expected += 1.0;
    }
}
