//! A dense two-dimensional array with bounds-checked access, and helpers that
//! read and write it as a torus.

use vstd::prelude::*;
use vstd::std_specs::iter::IteratorSpec;
use crate::grid::{GridError, MAX_CELLS, dimension_error, wrap, wrap_index, lemma_cell_index_bound, lemma_sides_bounded};

verus! {

broadcast use vstd::std_specs::slice::group_slice_axioms;

/// The error, if any, that building a `width` by `height` array meets.
pub open spec fn array_dimension_error(width: usize, height: usize) -> Option<GridError> {
    dimension_error(width as int, height as int)
}

/// Checks the dimensions of an array to be built.
fn check_array_dimensions(width: usize, height: usize) -> (r: Option<GridError>)
    ensures
        r == array_dimension_error(width, height),
{
    if width == 0 || height == 0 {
        Some(GridError::NonPositiveDimensions)
    } else if width > MAX_CELLS as usize || height > MAX_CELLS as usize {
        assert(width * height > MAX_CELLS) by (nonlinear_arith)
            requires
                width > MAX_CELLS || height > MAX_CELLS,
                width >= 1,
                height >= 1,
        ;
        Some(GridError::TooLarge)
    } else if {
        assert(0 < (width as u64) * (height as u64) < 0x4000_0000_0000_0000) by (nonlinear_arith)
            requires
                0 < width <= MAX_CELLS,
                0 < height <= MAX_CELLS,
        ;
        (width as u64) * (height as u64) > MAX_CELLS as u64
    } {
        Some(GridError::TooLarge)
    } else {
        None
    }
}

/// A two-dimensional array of `width * height` elements stored row by row.
#[derive(Clone, Debug)]
pub struct Array2D<T> {
    width: usize,
    height: usize,
    data: Vec<T>,
}

impl<T> Array2D<T> {
    /// The number of columns.
    pub closed spec fn spec_width(&self) -> int {
        self.width as int
    }

    /// The number of rows.
    pub closed spec fn spec_height(&self) -> int {
        self.height as int
    }

    /// The elements in row-major order: `(x, y)` stands at `x + y * width`.
    pub closed spec fn cells(&self) -> Seq<T> {
        self.data@
    }

    /// Positive dimensions and exactly one element per coordinate pair.
    pub open spec fn wf(&self) -> bool {
        &&& self.spec_width() > 0
        &&& self.spec_height() > 0
        &&& self.spec_width() * self.spec_height() <= MAX_CELLS
        &&& self.cells().len() == self.spec_width() * self.spec_height()
    }

    /// The element at in-range `(x, y)`.
    pub open spec fn at(&self, x: int, y: int) -> T {
        self.cells()[x + y * self.spec_width()]
    }

    /// The number of rows.
    pub fn height(&self) -> (r: usize)
        ensures
            r == self.spec_height(),
    {
        self.height
    }

    /// The number of columns.
    pub fn width(&self) -> (r: usize)
        ensures
            r == self.spec_width(),
    {
        self.width
    }

    /// The element at `(x, y)`, which must lie inside the array.
    pub fn get(&self, x: usize, y: usize) -> (r: &T)
        requires
            self.wf(),
            x < self.spec_width(),
            y < self.spec_height(),
        ensures
            *r == self.at(x as int, y as int),
    {
        proof {
            lemma_cell_index_bound(x as int, y as int, self.width as int, self.height as int);
        }
        &self.data[x + y * self.width]
    }

    /// Replaces the element at `(x, y)`, which must lie inside the array.
    pub fn set(&mut self, x: usize, y: usize, value: T)
        requires
            old(self).wf(),
            x < old(self).spec_width(),
            y < old(self).spec_height(),
        ensures
            final(self).wf(),
            final(self).spec_width() == old(self).spec_width(),
            final(self).spec_height() == old(self).spec_height(),
            final(self).cells() == old(self).cells().update(x + y * old(self).spec_width(), value),
    {
        proof {
            lemma_cell_index_bound(x as int, y as int, self.width as int, self.height as int);
        }
        let i = x + y * self.width;
        self.data.set(i, value);
    }

    /// A mutable reference to the element at `(x, y)`, which must lie inside the
    /// array; what is written through it lands at that element alone.
    pub fn get_mut(&mut self, x: usize, y: usize) -> (r: &mut T)
        requires
            old(self).wf(),
            x < old(self).spec_width(),
            y < old(self).spec_height(),
        ensures
            *r == old(self).at(x as int, y as int),
            final(self).wf(),
            final(self).spec_width() == old(self).spec_width(),
            final(self).spec_height() == old(self).spec_height(),
            final(self).cells() == old(self).cells().update(x + y * old(self).spec_width(), *final(r)),
    {
        proof {
            lemma_cell_index_bound(x as int, y as int, self.width as int, self.height as int);
        }
        let i = x + y * self.width;
        &mut self.data[i]
    }

    /// The elements in row-major order (x varies fastest).
    pub fn iter(&self) -> (r: std::slice::Iter<'_, T>)
        ensures
            r.remaining() == self.cells().as_ref(),
    {
        self.data.iter()
    }
}

/// Builds an array whose element `(x, y)` is `op(x, y)`, filled in row-major order.
pub fn from_fn<T, F>(width: usize, height: usize, op: F) -> (r: Result<Array2D<T>, GridError>)
    where
        F: Fn(usize, usize) -> T,
    requires
        forall|x: usize, y: usize| x < width && y < height ==> #[trigger] op.requires((x, y)),
    ensures
        r is Err <==> array_dimension_error(width, height) is Some,
        r is Err ==> r == Err::<Array2D<T>, GridError>(array_dimension_error(width, height)->0),
        r matches Ok(a) ==> {
            &&& a.wf()
            &&& a.spec_width() == width
            &&& a.spec_height() == height
            &&& forall|x: usize, y: usize|
                x < width && y < height ==> op.ensures((x, y), #[trigger] a.at(x as int, y as int))
        },
{
    if let Some(e) = check_array_dimensions(width, height) {
        return Err(e);
    }
    let mut data: Vec<T> = Vec::new();
    let mut y: usize = 0;
    while y < height
        invariant
            0 < width,
            y <= height,
            width * height <= MAX_CELLS,
            data.len() == y * width,
            forall|x: usize, y: usize| x < width && y < height ==> #[trigger] op.requires((x, y)),
            forall|i: int, j: int|
                0 <= i < width && 0 <= j < y ==> op.ensures(
                    (i as usize, j as usize),
                    #[trigger] data@[i + j * width],
                ),
        decreases height - y,
    {
        let mut x: usize = 0;
        while x < width
            invariant
                0 < width,
                y < height,
                x <= width,
                width * height <= MAX_CELLS,
                data.len() == x + y * width,
                forall|x: usize, y: usize| x < width && y < height ==> #[trigger] op.requires((x, y)),
                forall|i: int, j: int|
                    0 <= i < width && 0 <= j < y ==> op.ensures(
                        (i as usize, j as usize),
                        #[trigger] data@[i + j * width],
                    ),
                forall|i: int| 0 <= i < x ==> op.ensures((i as usize, y), #[trigger] data@[i + y * width]),
            decreases width - x,
        {
            let v = op(x, y);
            proof {
                lemma_cell_index_bound(x as int, y as int, width as int, height as int);
            }
            let ghost before = data@;
            data.push(v);
            proof {
                assert forall|i: int, j: int| 0 <= i < width && 0 <= j < y implies op.ensures(
                    (i as usize, j as usize),
                    #[trigger] data@[i + j * width],
                ) by {
                    lemma_cell_index_bound(i, j, width as int, y as int);
                    assert(width * y == y * width) by (nonlinear_arith);
                    assert(data@[i + j * width] == before[i + j * width]);
                }
            }
            x = x + 1;
        }
        assert((y + 1) * width == y * width + width) by (nonlinear_arith);
        y = y + 1;
    }
    assert(height * width == width * height) by (nonlinear_arith);
    Ok(Array2D { width, height, data })
}

/// Builds an array with every element equal to `elem`.
pub fn from_elem<T: Copy>(width: usize, height: usize, elem: T) -> (r: Result<Array2D<T>, GridError>)
    ensures
        r is Err <==> array_dimension_error(width, height) is Some,
        r is Err ==> r == Err::<Array2D<T>, GridError>(array_dimension_error(width, height)->0),
        r matches Ok(a) ==> {
            &&& a.wf()
            &&& a.spec_width() == width
            &&& a.spec_height() == height
            &&& forall|i: int| 0 <= i < a.cells().len() ==> #[trigger] a.cells()[i] == elem
        },
{
    if let Some(e) = check_array_dimensions(width, height) {
        return Err(e);
    }
    let n: usize = width * height;
    let mut data: Vec<T> = Vec::new();
    let mut i: usize = 0;
    while i < n
        invariant
            i <= n,
            data.len() == i,
            forall|j: int| 0 <= j < i ==> #[trigger] data@[j] == elem,
        decreases n - i,
    {
        data.push(elem);
        i = i + 1;
    }
    Ok(Array2D { width, height, data })
}

/// Builds an array from its elements in row-major order; `raw` must hold
/// exactly `width * height` of them.
pub fn from_raw<T>(width: usize, height: usize, raw: Vec<T>) -> (r: Result<Array2D<T>, GridError>)
    ensures
        r is Err <==> (array_dimension_error(width, height) is Some || raw@.len() != width * height),
        r is Err ==> r == Err::<Array2D<T>, GridError>(
            if array_dimension_error(width, height) is Some {
                array_dimension_error(width, height)->0
            } else {
                GridError::LengthMismatch
            },
        ),
        r matches Ok(a) ==> {
            &&& a.wf()
            &&& a.spec_width() == width
            &&& a.spec_height() == height
            &&& a.cells() == raw@
        },
{
    if let Some(e) = check_array_dimensions(width, height) {
        return Err(e);
    }
    if width * height != raw.len() {
        return Err(GridError::LengthMismatch);
    }
    Ok(Array2D { width, height, data: raw })
}

/// The element that `(x, y)` lands on after wrapping both coordinates around
/// the array's edges.
pub fn wrap_get<T: Copy>(target: &Array2D<T>, x: i64, y: i64) -> (r: T)
    requires
        target.wf(),
    ensures
        r == target.at(wrap(x as int, target.spec_width()), wrap(y as int, target.spec_height())),
{
    proof {
        lemma_sides_bounded(target.spec_width(), target.spec_height());
    }
    let wx = wrap_index(x, target.width());
    let wy = wrap_index(y, target.height());
    *target.get(wx, wy)
}

/// Replaces the element that `(x, y)` lands on after wrapping both coordinates
/// around the array's edges.
pub fn wrap_set<T>(target: &mut Array2D<T>, x: i64, y: i64, value: T)
    requires
        old(target).wf(),
    ensures
        final(target).wf(),
        final(target).spec_width() == old(target).spec_width(),
        final(target).spec_height() == old(target).spec_height(),
        final(target).cells() == old(target).cells().update(
            wrap(x as int, old(target).spec_width()) + wrap(y as int, old(target).spec_height()) * old(
                target,
            ).spec_width(),
            value,
        ),
{
    proof {
        lemma_sides_bounded(target.spec_width(), target.spec_height());
    }
    let wx = wrap_index(x, target.width());
    let wy = wrap_index(y, target.height());
    target.set(wx, wy, value);
}

} // verus!
