use mapgen::array2d::{from_elem, from_fn, from_raw, wrap_get, wrap_set};
use mapgen::grid::GridError;

#[test]
fn from_raw_checks_the_length() {
    assert_eq!(from_raw(2, 2, vec![1, 2, 3]).err(), Some(GridError::LengthMismatch));
    assert_eq!(from_raw(0, 2, Vec::<u8>::new()).err(), Some(GridError::NonPositiveDimensions));
    let a = from_raw(2, 2, vec![1, 2, 3, 4]).unwrap();
    assert_eq!(*a.get(1, 0), 2);
    assert_eq!(*a.get(0, 1), 3);
}

#[test]
fn from_fn_and_from_elem() {
    let a = from_fn(3, 2, |x, y| x + 3 * y).unwrap();
    let cells: Vec<usize> = a.iter().copied().collect();
    assert_eq!(cells, vec![0, 1, 2, 3, 4, 5]);
    let b = from_elem(2, 3, 9u8).unwrap();
    assert_eq!((b.width(), b.height()), (2, 3));
    assert!(b.iter().all(|&v| v == 9));
    assert_eq!(from_elem(0, 1, 0u8).err(), Some(GridError::NonPositiveDimensions));
    assert_eq!(from_elem(1usize << 20, 1usize << 20, 0u8).err(), Some(GridError::TooLarge));
}

#[test]
fn set_and_get_mut() {
    let mut a = from_elem(2, 2, 0i32).unwrap();
    a.set(1, 1, 4);
    *a.get_mut(0, 1) = 3;
    let cells: Vec<i32> = a.iter().copied().collect();
    assert_eq!(cells, vec![0, 0, 3, 4]);
}

#[test]
fn wrapping_access() {
    let mut a = from_fn(3, 2, |x, y| x + 3 * y).unwrap();
    assert_eq!(wrap_get(&a, -1, 0), 2);
    assert_eq!(wrap_get(&a, 3, 1), 3);
    assert_eq!(wrap_get(&a, -3, -2), 0);
    assert_eq!(wrap_get(&a, -4, -1), 5);
    wrap_set(&mut a, -1, -1, 40);
    assert_eq!(*a.get(2, 1), 40);
    wrap_set(&mut a, 6, 4, 30);
    assert_eq!(*a.get(0, 0), 30);
}
