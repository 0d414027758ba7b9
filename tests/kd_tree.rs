use mapgen::kd_tree::{KdTree, VectorObject};

#[test]
fn basic_test() {
    let mut points = [(2, 3), (5, 4), (9, 6), (4, 7), (8, 1), (7, 2)];
    let kd_tree = KdTree::new(&mut points).unwrap();

    assert_eq!(kd_tree.find_nearest(&(1, 1)), Some((2, 3)));
    assert_eq!(kd_tree.find_nearest(&(2, 3)), Some((2, 3)));
    assert_eq!(kd_tree.find_nearest(&(5, 4)), Some((5, 4)));
    assert_eq!(kd_tree.find_nearest(&(9, 6)), Some((9, 6)));
    assert_eq!(kd_tree.find_nearest(&(4, 7)), Some((4, 7)));
    assert_eq!(kd_tree.find_nearest(&(8, 1)), Some((8, 1)));
    assert_eq!(kd_tree.find_nearest(&(7, 2)), Some((7, 2)));
}

#[test]
fn empty_input_gives_no_tree() {
    let mut points: [(i32, i32); 0] = [];
    assert!(KdTree::new(&mut points).is_none());
}

#[test]
fn single_point_is_always_nearest() {
    let mut points = [(4, -2)];
    let tree = KdTree::new(&mut points).unwrap();
    assert_eq!(tree.find_nearest(&(100, 100)), Some((4, -2)));
    assert_eq!(tree.find_nearest(&(4, -2)), Some((4, -2)));
}

#[test]
fn building_keeps_the_same_points() {
    let mut points = [(2, 3), (5, 4), (9, 6), (4, 7), (8, 1), (7, 2)];
    let _tree = KdTree::new(&mut points).unwrap();
    let mut sorted = points.to_vec();
    sorted.sort();
    assert_eq!(sorted, vec![(2, 3), (4, 7), (5, 4), (7, 2), (8, 1), (9, 6)]);
}

fn next(state: &mut u64) -> i32 {
    *state = state.wrapping_mul(6364136223846793005).wrapping_add(1442695040888963407);
    ((*state >> 33) % 201) as i32 - 100
}

#[test]
fn nearest_matches_linear_scan() {
    let mut state: u64 = 7;
    for size in 1..40usize {
        let mut points: Vec<(i32, i32)> = (0..size).map(|_| (next(&mut state), next(&mut state))).collect();
        let all = points.clone();
        let tree = KdTree::new(&mut points).unwrap();
        for _ in 0..25 {
            let q = (next(&mut state), next(&mut state));
            let best = all.iter().map(|p| p.dist_sqr(&q)).min().unwrap();
            let found = tree.find_nearest(&q).unwrap();
            assert_eq!(found.dist_sqr(&q), best);
            assert!(all.contains(&found));
        }
    }
}

#[test]
fn point_distances() {
    let a = (1, 2);
    let b = (4, -2);
    assert_eq!(a.num_dimensions(), 2);
    assert_eq!(a.coordinate(0), 1);
    assert_eq!(a.coordinate(1), 2);
    assert_eq!(a.dist_sqr(&b), 25);
    assert_eq!(a.dist_axis(&b, 0), 9);
    assert_eq!(a.dist_axis(&b, 1), 16);
    let far = (i32::MIN, i32::MIN);
    let other = (i32::MAX, i32::MAX);
    assert_eq!(far.dist_sqr(&other), 2 * (u32::MAX as u128) * (u32::MAX as u128));
}

#[test]
fn building_sorts_in_place_by_alternating_axes() {
    let mut points = [(2, 3), (5, 4), (9, 6), (4, 7), (8, 1), (7, 2)];
    let _tree = KdTree::new(&mut points).unwrap();
    assert_eq!(points, [(2, 3), (5, 4), (4, 7), (7, 2), (8, 1), (9, 6)]);
}
