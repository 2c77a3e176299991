use game_ai::hexgrid::{AxialVector, HexGrid};

#[test]
fn axial_vector_length() {
    assert_eq!(AxialVector::new(0, 0).length(), 0);

    assert_eq!(AxialVector::new(0, -1).length(), 1);
    assert_eq!(AxialVector::new(1, -1).length(), 1);
    assert_eq!(AxialVector::new(1, 0).length(), 1);
    assert_eq!(AxialVector::new(0, 1).length(), 1);
    assert_eq!(AxialVector::new(-1, 1).length(), 1);
    assert_eq!(AxialVector::new(-1, 0).length(), 1);

    assert_eq!(AxialVector::new(0, -2).length(), 2);
    assert_eq!(AxialVector::new(1, -2).length(), 2);
    assert_eq!(AxialVector::new(-1, 2).length(), 2);

    assert_eq!(AxialVector::new(0, -4).length(), 4);
    assert_eq!(AxialVector::new(1, -4).length(), 4);
    assert_eq!(AxialVector::new(2, -4).length(), 4);
    assert_eq!(AxialVector::new(4, -2).length(), 4);
    assert_eq!(AxialVector::new(-3, 4).length(), 4);
}

#[test]
fn axial_vector_distance() {
    assert_eq!(
        (AxialVector::new(-3, 0) - AxialVector::new(0, -2)).length(),
        3
    );
    assert_eq!(
        (AxialVector::new(0, -2) - AxialVector::new(-3, 0)).length(),
        3
    );
}

#[test]
fn map_fill() {
    let map = HexGrid::new_fill(4, 0u8);
    assert!(!map.is_in_bounds((2, -4).into()));
    assert!(!map.is_in_bounds((2, -5).into()));

    let map2 = HexGrid::new_fill(5, 0u8);
    assert!(map2.is_in_bounds((-1, 4).into()));
    assert!(map2.get((-1, 4).into()).is_some());
    assert!(!map2.is_in_bounds((-2, 5).into()));
}

#[test]
fn grid_holds_hex_number_of_cells() {
    for size in 1..8 {
        let grid = HexGrid::new_fill(size, 7u8);
        let tiles = grid.tile_iter();
        assert_eq!(tiles.len() as i32, 1 + 3 * size * (size - 1));
        for (pos, value) in tiles {
            assert!(grid.is_in_bounds(pos));
            assert_eq!(value, 7u8);
        }
    }
}

#[test]
fn grid_lookup_outside_is_none() {
    let grid = HexGrid::new_fill(3, 1u8);
    assert_eq!(grid.get(AxialVector::new(0, 0)), Some(1u8));
    assert_eq!(grid.get(AxialVector::new(2, 0)), Some(1u8));
    assert_eq!(grid.get(AxialVector::new(3, 0)), None);
    assert_eq!(grid.get(AxialVector::new(2, 1)), None);
}

#[test]
fn grid_set_changes_one_cell() {
    let mut grid = HexGrid::new_fill(3, 0u8);
    grid.set(AxialVector::new(1, -1), 9u8);
    assert_eq!(grid.get(AxialVector::new(1, -1)), Some(9u8));
    assert_eq!(grid.get(AxialVector::new(-1, 1)), Some(0u8));
}

#[test]
fn unit_directions_have_length_one() {
    let expected = [(1, 0), (1, -1), (0, -1), (-1, 0), (-1, 1), (0, 1)];
    for (index, (q, r)) in expected.iter().enumerate() {
        let d = AxialVector::direction(index as u8);
        assert_eq!((d.q(), d.r()), (*q, *r));
        assert_eq!(d.length(), 1);
    }
}

#[test]
fn length_is_symmetric_and_exact() {
    assert_eq!(AxialVector::new(2, -4).length(), 4);
    for q in -6..=6 {
        for r in -6..=6 {
            let v = AxialVector::new(q, r);
            let w = AxialVector::new(-q, -r);
            assert_eq!(v.length(), w.length());
            assert_eq!(v.s(), -q - r);
        }
    }
}

#[test]
fn vector_arithmetic() {
    let a = AxialVector::new(2, -3);
    let b = AxialVector::new(-1, 5);
    assert_eq!(a + b, AxialVector::new(1, 2));
    assert_eq!(a - b, AxialVector::new(3, -8));
    assert_eq!(3 * a, AxialVector::new(6, -9));
    assert_eq!(AxialVector::from((4, -1)), AxialVector::new(4, -1));
}
