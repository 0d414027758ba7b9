//! Land and sea: where the coastline runs, and which way the sea lies.

use vstd::prelude::*;
use crate::grid::{Wrapping2DArray, MAX_CELLS, lemma_sides_bounded};
use crate::kd_tree::KdTree;
use crate::vectors::Vec2;

verus! {

broadcast use vstd::seq_lib::group_to_multiset_ensures;

/// The `k`-th offset of a cell's 3 by 3 neighbourhood (the cell itself
/// included), row by row from `(-1, -1)` to `(1, 1)`.
pub open spec fn spec_offset(k: int) -> (int, int) {
    (k % 3 - 1, k / 3 - 1)
}

/// The `k`-th offset of a cell's 3 by 3 neighbourhood, for `k < 9`.
pub fn neighbour_offset(k: usize) -> (r: Vec2<i32>)
    requires
        k < 9,
    ensures
        (r.x as int, r.y as int) == spec_offset(k as int),
{
    Vec2::new((k % 3) as i32 - 1, (k / 3) as i32 - 1)
}

/// The offsets among the first `k` of the neighbourhood that lead from `(x, y)`
/// to sea, wrapping around the grid's edges, in neighbourhood order.
pub open spec fn sea_offsets(sea: &Wrapping2DArray<bool>, x: int, y: int, k: int) -> Seq<Vec2<i32>>
    decreases k,
{
    if k <= 0 {
        Seq::empty()
    } else {
        let rest = sea_offsets(sea, x, y, k - 1);
        let d = spec_offset(k - 1);
        if sea.at(x + d.0, y + d.1) {
            rest.push(Vec2 { x: d.0 as i32, y: d.1 as i32 })
        } else {
            rest
        }
    }
}

/// The offsets, in neighbourhood order, from cell `(x, y)` to the cells around
/// it (itself included) that are sea, wrapping around the grid's edges: where
/// water stranded on land can be pushed.
pub fn ocean_neighbours(sea: &Wrapping2DArray<bool>, x: i32, y: i32) -> (r: Vec<Vec2<i32>>)
    requires
        sea.wf(),
        0 <= x < sea.spec_width(),
        0 <= y < sea.spec_height(),
    ensures
        r@ == sea_offsets(sea, x as int, y as int, 9),
{
    proof {
        lemma_sides_bounded(sea.spec_width(), sea.spec_height());
    }
    let mut r: Vec<Vec2<i32>> = Vec::new();
    let mut k: usize = 0;
    while k < 9
        invariant
            sea.wf(),
            sea.spec_width() <= MAX_CELLS,
            sea.spec_height() <= MAX_CELLS,
            0 <= x < sea.spec_width(),
            0 <= y < sea.spec_height(),
            k <= 9,
            r@ == sea_offsets(sea, x as int, y as int, k as int),
        decreases 9 - k,
    {
        let d = neighbour_offset(k);
        if *sea.get(x + d.x, y + d.y) {
            r.push(d);
        }
        k = k + 1;
    }
    r
}

/// What one step of the flow simulation does with the flow in one cell.
#[derive(Debug, Clone, PartialEq, Eq)]
pub enum FlowAction {
    /// There is no flow to move.
    Still,
    /// Flow at sea is carried one cell along its own direction.
    Advect,
    /// Flow stranded on land is pushed towards the sea cells at these offsets,
    /// and leaves the cell.
    Push(Vec<Vec2<i32>>),
    /// Flow on land with no sea around it stays where it is.
    Trapped,
}

/// Decides what happens to the flow in cell `(x, y)`; `moving` tells whether
/// there is any.
pub fn flow_action(sea: &Wrapping2DArray<bool>, x: i32, y: i32, moving: bool) -> (r: FlowAction)
    requires
        sea.wf(),
        0 <= x < sea.spec_width(),
        0 <= y < sea.spec_height(),
    ensures
        !moving ==> r == FlowAction::Still,
        moving && sea.at(x as int, y as int) ==> r == FlowAction::Advect,
        moving && !sea.at(x as int, y as int) && sea_offsets(sea, x as int, y as int, 9).len() == 0 ==> r
            == FlowAction::Trapped,
        moving && !sea.at(x as int, y as int) && sea_offsets(sea, x as int, y as int, 9).len() > 0 ==> (
        r matches FlowAction::Push(v) && v@ == sea_offsets(sea, x as int, y as int, 9)),
{
    if !moving {
        FlowAction::Still
    } else if *sea.get(x, y) {
        FlowAction::Advect
    } else {
        let tiles = ocean_neighbours(sea, x, y);
        if tiles.len() == 0 {
            FlowAction::Trapped
        } else {
            FlowAction::Push(tiles)
        }
    }
}

/// Some cell of the 3 by 3 neighbourhood of `(x, y)` that lies inside the grid
/// (no wrapping) is sea.
pub open spec fn sea_around(sea: &Wrapping2DArray<bool>, x: int, y: int) -> bool {
    exists|dx: int, dy: int|
        -1 <= dx <= 1 && -1 <= dy <= 1 && 0 <= x + dx < sea.spec_width() && 0 <= y + dy
            < sea.spec_height() && #[trigger] sea.at(x + dx, y + dy)
}

/// A land cell inside the grid with sea beside it.
pub open spec fn is_coast(sea: &Wrapping2DArray<bool>, x: int, y: int) -> bool {
    &&& 0 <= x < sea.spec_width()
    &&& 0 <= y < sea.spec_height()
    &&& !sea.at(x, y)
    &&& sea_around(sea, x, y)
}

/// Whether any cell of the 3 by 3 neighbourhood of `(x, y)`, clipped to the
/// grid, is sea.
pub fn any_surrounding(sea: &Wrapping2DArray<bool>, x: i32, y: i32) -> (r: bool)
    requires
        sea.wf(),
        0 <= x < sea.spec_width(),
        0 <= y < sea.spec_height(),
    ensures
        r == sea_around(sea, x as int, y as int),
{
    proof {
        lemma_sides_bounded(sea.spec_width(), sea.spec_height());
    }
    let start_x: i32 = if x == 0 { x } else { x - 1 };
    let end_x: i32 = if x + 1 == sea.width() { x } else { x + 1 };
    let start_y: i32 = if y == 0 { y } else { y - 1 };
    let end_y: i32 = if y + 1 == sea.height() { y } else { y + 1 };
    let mut j: i32 = start_y;
    while j <= end_y
        invariant
            sea.wf(),
            sea.spec_width() <= MAX_CELLS,
            sea.spec_height() <= MAX_CELLS,
            0 <= x < sea.spec_width(),
            0 <= y < sea.spec_height(),
            start_x == (if x == 0 { x as int } else { x - 1 }),
            end_x == (if x + 1 == sea.spec_width() { x as int } else { x + 1 }),
            start_y == (if y == 0 { y as int } else { y - 1 }),
            end_y == (if y + 1 == sea.spec_height() { y as int } else { y + 1 }),
            start_y <= j <= end_y + 1,
            forall|i: int, jj: int| start_x <= i <= end_x && start_y <= jj < j ==> !#[trigger] sea.at(i, jj),
        decreases end_y + 1 - j,
    {
        let mut i: i32 = start_x;
        while i <= end_x
            invariant
                sea.wf(),
                sea.spec_width() <= MAX_CELLS,
                sea.spec_height() <= MAX_CELLS,
                0 <= x < sea.spec_width(),
                0 <= y < sea.spec_height(),
                start_x == (if x == 0 { x as int } else { x - 1 }),
                end_x == (if x + 1 == sea.spec_width() { x as int } else { x + 1 }),
                start_y == (if y == 0 { y as int } else { y - 1 }),
                end_y == (if y + 1 == sea.spec_height() { y as int } else { y + 1 }),
                start_y <= j <= end_y,
                start_x <= i <= end_x + 1,
                forall|ii: int, jj: int|
                    start_x <= ii <= end_x && start_y <= jj < j ==> !#[trigger] sea.at(ii, jj),
                forall|ii: int| start_x <= ii < i ==> !#[trigger] sea.at(ii, j as int),
            decreases end_x + 1 - i,
        {
            if *sea.get(i, j) {
                assert(sea.at(x + (i - x), y + (j - y)));
                return true;
            }
            i = i + 1;
        }
        j = j + 1;
    }
    assert forall|dx: int, dy: int|
        -1 <= dx <= 1 && -1 <= dy <= 1 && 0 <= x + dx < sea.spec_width() && 0 <= y + dy
            < sea.spec_height() implies !#[trigger] sea.at(x + dx, y + dy) by {
        assert(start_x <= x + dx <= end_x);
        assert(start_y <= y + dy <= end_y);
    }
    false
}

/// The cells of the coastline, row by row: the land cells with sea beside them.
pub fn coastline_points(sea: &Wrapping2DArray<bool>) -> (r: Vec<(i32, i32)>)
    requires
        sea.wf(),
    ensures
        forall|i: int| 0 <= i < r@.len() ==> is_coast(sea, r@[i].0 as int, r@[i].1 as int),
        forall|x: i32, y: i32| is_coast(sea, x as int, y as int) ==> r@.contains((x, y)),
        forall|i: int, j: int|
            0 <= i < j < r@.len() ==> (r@[i].1 < r@[j].1 || (r@[i].1 == r@[j].1 && r@[i].0 < r@[j].0)),
{
    proof {
        lemma_sides_bounded(sea.spec_width(), sea.spec_height());
    }
    let mut r: Vec<(i32, i32)> = Vec::new();
    let mut y: i32 = 0;
    while y < sea.height()
        invariant
            sea.wf(),
            sea.spec_width() <= MAX_CELLS,
            sea.spec_height() <= MAX_CELLS,
            0 <= y <= sea.spec_height(),
            forall|i: int| 0 <= i < r@.len() ==> is_coast(sea, r@[i].0 as int, r@[i].1 as int),
            forall|i: int| 0 <= i < r@.len() ==> r@[i].1 < y,
            forall|px: i32, py: i32| py < y && is_coast(sea, px as int, py as int) ==> r@.contains((px, py)),
            forall|i: int, j: int|
                0 <= i < j < r@.len() ==> (r@[i].1 < r@[j].1 || (r@[i].1 == r@[j].1 && r@[i].0
                    < r@[j].0)),
        decreases sea.spec_height() - y,
    {
        let mut x: i32 = 0;
        while x < sea.width()
            invariant
                sea.wf(),
                sea.spec_width() <= MAX_CELLS,
                sea.spec_height() <= MAX_CELLS,
                0 <= y < sea.spec_height(),
                0 <= x <= sea.spec_width(),
                forall|i: int| 0 <= i < r@.len() ==> is_coast(sea, r@[i].0 as int, r@[i].1 as int),
                forall|i: int| 0 <= i < r@.len() ==> r@[i].1 < y || (r@[i].1 == y && r@[i].0 < x),
                forall|px: i32, py: i32|
                    (py < y || (py == y && px < x)) && is_coast(sea, px as int, py as int) ==> r@.contains(
                        (px, py),
                    ),
                forall|i: int, j: int|
                    0 <= i < j < r@.len() ==> (r@[i].1 < r@[j].1 || (r@[i].1 == r@[j].1 && r@[i].0
                        < r@[j].0)),
            decreases sea.spec_width() - x,
        {
            if !*sea.get(x, y) && any_surrounding(sea, x, y) {
                let ghost before = r@;
                r.push((x, y));
                proof {
                    assert forall|px: i32, py: i32|
                        (py < y || (py == y && px < x + 1)) && is_coast(
                            sea,
                            px as int,
                            py as int,
                        ) implies r@.contains((px, py)) by {
                        if py < y || (py == y && px < x) {
                            let k = choose|k: int| 0 <= k < before.len() && before[k] == (px, py);
                            assert(r@[k] == (px, py));
                        } else {
                            assert(r@[r@.len() - 1] == (px, py));
                        }
                    }
                }
            } else {
                proof {
                    assert forall|px: i32, py: i32|
                        (py < y || (py == y && px < x + 1)) && is_coast(
                            sea,
                            px as int,
                            py as int,
                        ) implies r@.contains((px, py)) by {
                        if py == y && px == x {
                            assert(false);
                        }
                    }
                }
            }
            x = x + 1;
        }
        y = y + 1;
    }
    r
}

/// A k-d tree over the coastline's cells, for finding the nearest coast from
/// any cell; `None` where there is no coastline at all.
pub fn build_coastline_map(sea: &Wrapping2DArray<bool>) -> (r: Option<KdTree<(i32, i32)>>)
    requires
        sea.wf(),
    ensures
        r is None <==> forall|x: i32, y: i32| !is_coast(sea, x as int, y as int),
        r matches Some(t) ==> t.wf() && forall|p: (i32, i32)|
            #[trigger] t.points().count(p) > 0 <==> is_coast(sea, p.0 as int, p.1 as int),
{
    let mut points = coastline_points(sea);
    let ghost found = points@;
    let r = KdTree::new(points.as_mut_slice());
    proof {
        if r is None {
            assert forall|x: i32, y: i32| !is_coast(sea, x as int, y as int) by {
                if is_coast(sea, x as int, y as int) {
                    assert(found.contains((x, y)));
                }
            }
        } else {
            let t = r->0;
            assert forall|p: (i32, i32)| #[trigger] t.points().count(p) > 0 <==> is_coast(
                sea,
                p.0 as int,
                p.1 as int,
            ) by {
                if t.points().count(p) > 0 {
                    assert(found.contains(p));
                    let k = choose|k: int| 0 <= k < found.len() && found[k] == p;
                }
                if is_coast(sea, p.0 as int, p.1 as int) {
                    assert(found.contains((p.0, p.1)));
                }
            }
            assert(found.len() > 0);
            assert(found.contains(found[0]));
        }
    }
    r
}

} // verus!
