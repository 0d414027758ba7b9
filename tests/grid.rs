use mapgen::grid::{wrap_coord, wrap_index, GridError, Wrapping2DArray};

#[test]
fn wrapped_coordinates_are_true_remainders() {
    assert_eq!(wrap_coord(7, 5), 2);
    assert_eq!(wrap_coord(-1, 5), 4);
    assert_eq!(wrap_coord(-5, 5), 0);
    assert_eq!(wrap_coord(-10, 5), 0);
    assert_eq!(wrap_coord(i32::MIN, 7), 5);
    assert_eq!(wrap_coord(i32::MAX, 7), 1);
    assert_eq!(wrap_index(-13, 4), 3);
}

#[test]
fn construction_rejects_bad_dimensions() {
    assert_eq!(Wrapping2DArray::from_elem(0, 3, 1u8).err(), Some(GridError::NonPositiveDimensions));
    assert_eq!(Wrapping2DArray::from_elem(3, -2, 1u8).err(), Some(GridError::NonPositiveDimensions));
    assert_eq!(Wrapping2DArray::from_elem(65536, 65536, 1u8).err(), Some(GridError::TooLarge));
    assert_eq!(
        Wrapping2DArray::from_fn(-1, 4, |x, y| x + y).err(),
        Some(GridError::NonPositiveDimensions)
    );
}

#[test]
fn from_fn_fills_row_major() {
    let g = Wrapping2DArray::from_fn(3, 2, |x, y| x * 10 + y).unwrap();
    assert_eq!(g.width(), 3);
    assert_eq!(g.height(), 2);
    let cells: Vec<i32> = g.iter().copied().collect();
    assert_eq!(cells, vec![0, 10, 20, 1, 11, 21]);
    assert_eq!(*g.get(2, 1), 21);
}

#[test]
fn whole_turns_read_the_same_cell() {
    let g = Wrapping2DArray::from_fn(4, 3, |x, y| x + 4 * y).unwrap();
    for x in -9i32..9 {
        for y in -7i32..7 {
            let expected = *g.get(x.rem_euclid(4), y.rem_euclid(3));
            for k in -3..4 {
                assert_eq!(*g.get(x + k * 4, y), expected);
                assert_eq!(*g.get(x, y + k * 3), expected);
            }
        }
    }
    assert_eq!(*g.get(-1, -1), 11);
    assert_eq!(*g.get(4, 3), 0);
    assert_eq!(*g.get(-4, 0), 0);
}

#[test]
fn set_and_get_mut_write_the_wrapped_cell() {
    let mut g = Wrapping2DArray::from_elem(3, 3, 0i32).unwrap();
    g.set(-1, 4, 7);
    assert_eq!(*g.get(2, 1), 7);
    *g.get_mut(3, -3) = 5;
    assert_eq!(*g.get(0, 0), 5);
    let cells: Vec<i32> = g.iter().copied().collect();
    assert_eq!(cells, vec![5, 0, 0, 0, 0, 7, 0, 0, 0]);
}
