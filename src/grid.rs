//! A dense two-dimensional grid whose edges wrap around: a torus.

use vstd::prelude::*;
use vstd::std_specs::iter::IteratorSpec;

verus! {

broadcast use vstd::std_specs::slice::group_slice_axioms;

/// The largest number of cells a grid may hold: every cell index fits in an `i32`.
pub const MAX_CELLS: i32 = 2147483647;

/// Wraps a coordinate onto `[0, dim)`: the true (Euclidean) remainder.
pub open spec fn wrap(c: int, dim: int) -> int {
    c % dim
}

/// Why a grid could not be built.
#[derive(Debug, Clone, Copy, PartialEq, Eq, Structural)]
pub enum GridError {
    /// The width or the height was zero or negative.
    NonPositiveDimensions,
    /// `width * height` exceeds `MAX_CELLS`.
    TooLarge,
    /// The elements given do not number `width * height`.
    LengthMismatch,
}

/// The error, if any, that building a `width` by `height` grid meets.
pub open spec fn dimension_error(width: int, height: int) -> Option<GridError> {
    if width <= 0 || height <= 0 {
        Some(GridError::NonPositiveDimensions)
    } else if width * height > MAX_CELLS {
        Some(GridError::TooLarge)
    } else {
        None
    }
}

/// Wraps `c` onto `[0, dim)`, for coordinates of any sign and size.
pub fn wrap_index(c: i64, dim: usize) -> (r: usize)
    requires
        0 < dim <= MAX_CELLS,
    ensures
        r == wrap(c as int, dim as int),
        r < dim,
{
    let d: i64 = dim as i64;
    let m: i64 = c % d;
    proof {
        let k = (-(c as int)) / (d as int);
        vstd::arithmetic::div_mod::lemma_fundamental_div_mod(-(c as int), d as int);
        assert((-k - 1) * d + (m + d) == -(k * d) + m) by (nonlinear_arith);
        assert(-k * d == -(k * d)) by (nonlinear_arith);
        if c < 0 && m < 0 {
            vstd::arithmetic::div_mod::lemma_fundamental_div_mod_converse(c as int, d as int, -k - 1, m + d);
        }
        if c < 0 && m == 0 {
            vstd::arithmetic::div_mod::lemma_fundamental_div_mod_converse(c as int, d as int, -k, 0);
        }
    }
    let r: i64 = if m < 0 {
        m + d
    } else {
        m
    };
    r as usize
}

/// Wraps `c` onto `[0, dim)`, for coordinates of any sign and size.
pub fn wrap_coord(c: i32, dim: i32) -> (r: i32)
    requires
        dim > 0,
    ensures
        r == wrap(c as int, dim as int),
        0 <= r < dim,
{
    wrap_index(c as i64, dim as usize) as i32
}

/// Wrapping is blind to whole turns: `x + k * dim` lands where `x` lands, and a
/// coordinate already in range stays where it is.
pub proof fn lemma_wrap_turns(x: int, k: int, dim: int)
    requires
        dim > 0,
    ensures
        wrap(x + k * dim, dim) == wrap(x, dim),
        wrap(wrap(x, dim), dim) == wrap(x, dim),
        0 <= wrap(x, dim) < dim,
{
    vstd::arithmetic::div_mod::lemma_mod_multiples_vanish(k, x, dim);
    assert(dim * k + x == x + k * dim) by (nonlinear_arith);
    vstd::arithmetic::div_mod::lemma_mod_bound(x, dim);
    vstd::arithmetic::div_mod::lemma_small_mod((x % dim) as nat, dim as nat);
}

/// Checks the dimensions of a grid to be built.
fn check_dimensions(width: i32, height: i32) -> (r: Option<GridError>)
    ensures
        r == dimension_error(width as int, height as int),
{
    if width <= 0 || height <= 0 {
        Some(GridError::NonPositiveDimensions)
    } else if {
        assert(0 < (width as i64) * (height as i64) < 0x4000_0000_0000_0000) by (nonlinear_arith)
            requires
                0 < width,
                0 < height,
        ;
        (width as i64) * (height as i64) > MAX_CELLS as i64
    } {
        Some(GridError::TooLarge)
    } else {
        None
    }
}

/// The cell index `x + y * width` is below `width * height` for in-range `x`, `y`.
pub proof fn lemma_cell_index_bound(x: int, y: int, width: int, height: int)
    requires
        0 <= x < width,
        0 <= y < height,
    ensures
        0 <= x + y * width < width * height,
{
    assert(0 <= y * width <= (height - 1) * width) by (nonlinear_arith)
        requires
            0 <= y < height,
            0 <= x < width,
    ;
    assert((height - 1) * width == height * width - width) by (nonlinear_arith);
    assert(width * height == height * width) by (nonlinear_arith);
}

/// Each side of a grid is no longer than its number of cells.
pub proof fn lemma_sides_bounded(width: int, height: int)
    requires
        width > 0,
        height > 0,
        width * height <= MAX_CELLS,
    ensures
        width <= MAX_CELLS,
        height <= MAX_CELLS,
{
    assert(width <= width * height && height <= width * height) by (nonlinear_arith)
        requires
            width > 0,
            height > 0,
    ;
}

/// A two-dimensional grid of `width * height` cells stored row by row, in
/// which every integer coordinate is valid: it wraps around both edges.
#[derive(Clone, Debug)]
pub struct Wrapping2DArray<T> {
    width: i32,
    height: i32,
    data: Vec<T>,
}

impl<T> Wrapping2DArray<T> {
    /// The number of columns.
    pub closed spec fn spec_width(&self) -> int {
        self.width as int
    }

    /// The number of rows.
    pub closed spec fn spec_height(&self) -> int {
        self.height as int
    }

    /// The cells in row-major order: cell `(x, y)` stands at `x + y * width`.
    pub closed spec fn cells(&self) -> Seq<T> {
        self.data@
    }

    /// Positive dimensions and exactly one cell per coordinate pair.
    pub open spec fn wf(&self) -> bool {
        &&& self.spec_width() > 0
        &&& self.spec_height() > 0
        &&& self.spec_width() * self.spec_height() <= MAX_CELLS
        &&& self.cells().len() == self.spec_width() * self.spec_height()
    }

    /// Where the cell that `(x, y)` wraps onto is stored.
    pub open spec fn index_of(&self, x: int, y: int) -> int {
        wrap(x, self.spec_width()) + wrap(y, self.spec_height()) * self.spec_width()
    }

    /// The value at `(x, y)`, after wrapping both coordinates.
    pub open spec fn at(&self, x: int, y: int) -> T {
        self.cells()[self.index_of(x, y)]
    }

    /// Builds a grid with every cell equal to `elem`.
    pub fn from_elem(width: i32, height: i32, elem: T) -> (r: Result<Self, GridError>)
        where
            T: Copy,
        ensures
            r is Err <==> dimension_error(width as int, height as int) is Some,
            r is Err ==> r == Err::<Self, GridError>(dimension_error(width as int, height as int)->0),
            r matches Ok(g) ==> {
                &&& g.wf()
                &&& g.spec_width() == width
                &&& g.spec_height() == height
                &&& forall|i: int| 0 <= i < g.cells().len() ==> #[trigger] g.cells()[i] == elem
            },
    {
        if let Some(e) = check_dimensions(width, height) {
            return Err(e);
        }
        let n: usize = (width as i64 * height as i64) as usize;
        let mut data: Vec<T> = Vec::new();
        let mut i: usize = 0;
        while i < n
            invariant
                i <= n,
                data.len() == i,
                forall|j: int| 0 <= j < i ==> #[trigger] data@[j] == elem,
            decreases n - i,
        {
            data.push(elem);
            i = i + 1;
        }
        Ok(Wrapping2DArray { width, height, data })
    }

    /// Builds a grid whose cell `(x, y)` is `f(x, y)`, filled in row-major order.
    pub fn from_fn<F>(width: i32, height: i32, f: F) -> (r: Result<Self, GridError>)
        where
            F: Fn(i32, i32) -> T,
        requires
            forall|x: i32, y: i32| 0 <= x < width && 0 <= y < height ==> #[trigger] f.requires((x, y)),
        ensures
            r is Err <==> dimension_error(width as int, height as int) is Some,
            r is Err ==> r == Err::<Self, GridError>(dimension_error(width as int, height as int)->0),
            r matches Ok(g) ==> {
                &&& g.wf()
                &&& g.spec_width() == width
                &&& g.spec_height() == height
                &&& forall|x: i32, y: i32|
                    0 <= x < width && 0 <= y < height ==> f.ensures((x, y), #[trigger] g.at(x as int, y as int))
            },
    {
        if let Some(e) = check_dimensions(width, height) {
            return Err(e);
        }
        let mut data: Vec<T> = Vec::new();
        let mut y: i32 = 0;
        while y < height
            invariant
                0 < width,
                0 <= y <= height,
                width * height <= MAX_CELLS,
                data.len() == y * width,
                forall|x: i32, y: i32| 0 <= x < width && 0 <= y < height ==> #[trigger] f.requires((x, y)),
                forall|i: int, j: int|
                    0 <= i < width && 0 <= j < y ==> f.ensures(
                        (i as i32, j as i32),
                        #[trigger] data@[i + j * width],
                    ),
            decreases height - y,
        {
            let mut x: i32 = 0;
            while x < width
                invariant
                    0 < width,
                    0 <= y < height,
                    0 <= x <= width,
                    width * height <= MAX_CELLS,
                    data.len() == x + y * width,
                    forall|x: i32, y: i32| 0 <= x < width && 0 <= y < height ==> #[trigger] f.requires((x, y)),
                    forall|i: int, j: int|
                        0 <= i < width && 0 <= j < y ==> f.ensures(
                            (i as i32, j as i32),
                            #[trigger] data@[i + j * width],
                        ),
                    forall|i: int| 0 <= i < x ==> f.ensures((i as i32, y), #[trigger] data@[i + y * width]),
                decreases width - x,
            {
                let v = f(x, y);
                proof {
                    lemma_cell_index_bound(x as int, y as int, width as int, height as int);
                }
                let ghost before = data@;
                data.push(v);
                proof {
                    assert forall|i: int, j: int| 0 <= i < width && 0 <= j < y implies f.ensures(
                        (i as i32, j as i32),
                        #[trigger] data@[i + j * width],
                    ) by {
                        lemma_cell_index_bound(i, j, width as int, y as int);
                        assert(width * y == y * width) by (nonlinear_arith);
                        assert(data@[i + j * width] == before[i + j * width]);
                    }
                }
                x = x + 1;
            }
            assert((y + 1) * width == y * width + width) by (nonlinear_arith);
            y = y + 1;
        }
        assert(height * width == width * height) by (nonlinear_arith);
        let g = Wrapping2DArray { width, height, data };
        assert forall|x: i32, y: i32| 0 <= x < width && 0 <= y < height implies f.ensures(
            (x, y),
            #[trigger] g.at(x as int, y as int),
        ) by {
            vstd::arithmetic::div_mod::lemma_small_mod(x as nat, width as nat);
            vstd::arithmetic::div_mod::lemma_small_mod(y as nat, height as nat);
            assert(g.at(x as int, y as int) == data@[x + y * width]);
        }
        Ok(g)
    }

    /// The number of rows.
    pub fn height(&self) -> (r: i32)
        ensures
            r == self.spec_height(),
    {
        self.height
    }

    /// The number of columns.
    pub fn width(&self) -> (r: i32)
        ensures
            r == self.spec_width(),
    {
        self.width
    }

    /// Where the cell that `(x, y)` wraps onto is stored.
    fn index(&self, x: i32, y: i32) -> (r: usize)
        requires
            self.wf(),
        ensures
            r == self.index_of(x as int, y as int),
            r < self.cells().len(),
    {
        let wx = wrap_coord(x, self.width);
        let wy = wrap_coord(y, self.height);
        proof {
            lemma_cell_index_bound(wx as int, wy as int, self.width as int, self.height as int);
        }
        (wx as usize) + (wy as usize) * (self.width as usize)
    }

    /// The value at `(x, y)`, after wrapping both coordinates.
    pub fn get(&self, x: i32, y: i32) -> (r: &T)
        requires
            self.wf(),
        ensures
            *r == self.at(x as int, y as int),
    {
        let i = self.index(x, y);
        &self.data[i]
    }

    /// Whole turns around the torus change nothing: shifting `x` by `k` widths,
    /// or `y` by `k` heights, reads the same cell as `(x mod width, y mod height)`.
    pub proof fn lemma_wrap_invariance(&self, x: int, y: int, k: int)
        requires
            self.wf(),
        ensures
            self.at(x + k * self.spec_width(), y) == self.at(wrap(x, self.spec_width()), wrap(y, self.spec_height())),
            self.at(x, y + k * self.spec_height()) == self.at(wrap(x, self.spec_width()), wrap(y, self.spec_height())),
            self.at(x, y) == self.at(wrap(x, self.spec_width()), wrap(y, self.spec_height())),
    {
        lemma_wrap_turns(x, k, self.spec_width());
        lemma_wrap_turns(y, k, self.spec_height());
    }

    /// Replaces the value at `(x, y)`, after wrapping both coordinates.
    pub fn set(&mut self, x: i32, y: i32, value: T)
        requires
            old(self).wf(),
        ensures
            final(self).wf(),
            final(self).spec_width() == old(self).spec_width(),
            final(self).spec_height() == old(self).spec_height(),
            final(self).cells() == old(self).cells().update(old(self).index_of(x as int, y as int), value),
    {
        let i = self.index(x, y);
        self.data.set(i, value);
    }

    /// A mutable reference to the cell that `(x, y)` wraps onto; what is written
    /// through it lands in that cell alone.
    pub fn get_mut(&mut self, x: i32, y: i32) -> (r: &mut T)
        requires
            old(self).wf(),
        ensures
            *r == old(self).at(x as int, y as int),
            final(self).wf(),
            final(self).spec_width() == old(self).spec_width(),
            final(self).spec_height() == old(self).spec_height(),
            final(self).cells() == old(self).cells().update(old(self).index_of(x as int, y as int), *final(r)),
    {
        let i = self.index(x, y);
        &mut self.data[i]
    }

    /// The cells in row-major order (x varies fastest).
    pub fn iter(&self) -> (r: std::slice::Iter<'_, T>)
        ensures
            r.remaining() == self.cells().as_ref(),
    {
        self.data.iter()
    }
}

} // verus!
