//! Resampling a grid at a finer resolution by interpolation.

use vstd::prelude::*;
use crate::grid::{GridError, MAX_CELLS, Wrapping2DArray, dimension_error, wrap, lemma_sides_bounded, lemma_wrap_turns};

verus! {

/// The four values of a 2 by 2 block of cells whose top-left cell is `(x, y)`.
#[derive(Clone, Copy, Debug)]
pub struct Block<T> {
    /// The value at `(x, y)`.
    pub x0y0: T,
    /// The value at `(x, y + 1)`.
    pub x0y1: T,
    /// The value at `(x + 1, y)`.
    pub x1y0: T,
    /// The value at `(x + 1, y + 1)`.
    pub x1y1: T,
}

/// The block of `g` whose top-left cell is `(x, y)`, wrapping around the edges.
pub open spec fn block_at<T>(g: &Wrapping2DArray<T>, x: int, y: int) -> Block<T> {
    Block { x0y0: g.at(x, y), x0y1: g.at(x, y + 1), x1y0: g.at(x + 1, y), x1y1: g.at(x + 1, y + 1) }
}

/// `out` is `input` upscaled by `scale` through `interp`: each side is `scale`
/// times longer, and cell `(x, y)` is what `interp` gives for the block at
/// source cell `(x / scale, y / scale)` and the offsets `x % scale` and
/// `y % scale`, in units of `1 / scale`.
pub open spec fn upscaled<T, F: Fn(Block<T>, i32, i32, i32) -> T>(
    input: &Wrapping2DArray<T>,
    scale: int,
    interp: F,
    out: &Wrapping2DArray<T>,
) -> bool {
    &&& out.wf()
    &&& out.spec_width() == input.spec_width() * scale
    &&& out.spec_height() == input.spec_height() * scale
    &&& forall|x: int, y: int|
        0 <= x < out.spec_width() && 0 <= y < out.spec_height() ==> interp.ensures(
            (block_at(input, x / scale, y / scale), (x % scale) as i32, (y % scale) as i32, scale as i32),
            #[trigger] out.at(x, y),
        )
}

/// Upscales `input` by `scale`, interpolating each new cell from the 2 by 2
/// block of source cells around it with `interp`.
pub fn upscale<T: Copy, F: Fn(Block<T>, i32, i32, i32) -> T>(
    input: &Wrapping2DArray<T>,
    scale: i32,
    interp: F,
) -> (r: Result<Wrapping2DArray<T>, GridError>)
    requires
        input.wf(),
        forall|b: Block<T>, fx: i32, fy: i32|
            0 <= fx < scale && 0 <= fy < scale ==> #[trigger] interp.requires((b, fx, fy, scale)),
    ensures
        r is Err <==> dimension_error(input.spec_width() * scale, input.spec_height() * scale) is Some,
        r is Err ==> r == Err::<Wrapping2DArray<T>, GridError>(
            dimension_error(input.spec_width() * scale, input.spec_height() * scale)->0,
        ),
        r matches Ok(g) ==> upscaled(input, scale as int, interp, &g),
{
    proof {
        lemma_sides_bounded(input.spec_width(), input.spec_height());
    }
    let w = input.width();
    let h = input.height();
    if scale <= 0 {
        assert(w * scale <= 0) by (nonlinear_arith)
            requires
                w > 0,
                scale <= 0,
        ;
        return Err(GridError::NonPositiveDimensions);
    }
    assert(0 < (w as i64) * (scale as i64) < 0x4000_0000_0000_0000) by (nonlinear_arith)
        requires
            0 < w <= MAX_CELLS,
            0 < scale,
    ;
    assert(0 < (h as i64) * (scale as i64) < 0x4000_0000_0000_0000) by (nonlinear_arith)
        requires
            0 < h <= MAX_CELLS,
            0 < scale,
    ;
    if (w as i64) * (scale as i64) > MAX_CELLS as i64 || (h as i64) * (scale as i64) > MAX_CELLS as i64 {
        assert((w * scale) * (h * scale) > MAX_CELLS) by (nonlinear_arith)
            requires
                w * scale > MAX_CELLS || h * scale > MAX_CELLS,
                w >= 1,
                h >= 1,
                scale >= 1,
        ;
        return Err(GridError::TooLarge);
    }
    let interp_ref = &interp;
    let f = |x: i32, y: i32| -> (v: T)
        requires
            input.wf(),
            input.spec_width() <= MAX_CELLS,
            input.spec_height() <= MAX_CELLS,
            scale > 0,
            0 <= x,
            0 <= y,
            x / scale < input.spec_width(),
            y / scale < input.spec_height(),
            forall|b: Block<T>, fx: i32, fy: i32|
                0 <= fx < scale && 0 <= fy < scale ==> #[trigger] interp_ref.requires((b, fx, fy, scale)),
        ensures
            interp_ref.ensures(
                (block_at(input, x / scale, y / scale), (x % scale) as i32, (y % scale) as i32, scale),
                v,
            ),
        {
            let ix = x / scale;
            let iy = y / scale;
            let b = Block {
                x0y0: *input.get(ix, iy),
                x0y1: *input.get(ix, iy + 1),
                x1y0: *input.get(ix + 1, iy),
                x1y1: *input.get(ix + 1, iy + 1),
            };
            interp_ref(b, x % scale, y % scale, scale)
        };
    proof {
        assert forall|x: i32, y: i32| 0 <= x < w * scale && 0 <= y < h * scale implies #[trigger] f.requires(
            (x, y),
        ) by {
            vstd::arithmetic::div_mod::lemma_div_is_ordered(x as int, w * scale - 1, scale as int);
            vstd::arithmetic::div_mod::lemma_div_is_ordered(y as int, h * scale - 1, scale as int);
            vstd::arithmetic::div_mod::lemma_div_multiples_vanish_fancy(w as int - 1, scale as int - 1, scale as int);
            vstd::arithmetic::div_mod::lemma_div_multiples_vanish_fancy(h as int - 1, scale as int - 1, scale as int);
            assert(w * scale - 1 == scale * (w - 1) + (scale - 1)) by (nonlinear_arith);
            assert(h * scale - 1 == scale * (h - 1) + (scale - 1)) by (nonlinear_arith);
        }
    }
    let r = Wrapping2DArray::from_fn(w * scale, h * scale, f);
    r
}

/// Upscaling by one changes nothing, wherever the interpolation returns the
/// top-left value of a block at zero offset.
pub proof fn lemma_upscale_by_one<T, F: Fn(Block<T>, i32, i32, i32) -> T>(
    input: &Wrapping2DArray<T>,
    interp: F,
    out: &Wrapping2DArray<T>,
)
    requires
        input.wf(),
        upscaled(input, 1, interp, out),
        forall|b: Block<T>, v: T| #[trigger] interp.ensures((b, 0i32, 0i32, 1i32), v) ==> v == b.x0y0,
    ensures
        out.spec_width() == input.spec_width(),
        out.spec_height() == input.spec_height(),
        out.cells() == input.cells(),
        forall|x: int, y: int| #[trigger] out.at(x, y) == input.at(x, y),
{
    let w = input.spec_width();
    let h = input.spec_height();
    assert forall|x: int, y: int| 0 <= x < w && 0 <= y < h implies #[trigger] out.at(x, y) == input.at(x, y) by {
        assert(x / 1 == x && x % 1 == 0 && y / 1 == y && y % 1 == 0);
        assert(interp.ensures((block_at(input, x, y), 0i32, 0i32, 1i32), out.at(x, y)));
    }
    assert forall|i: int| 0 <= i < out.cells().len() implies out.cells()[i] == input.cells()[i] by {
        let x = i % w;
        let y = i / w;
        vstd::arithmetic::div_mod::lemma_fundamental_div_mod(i, w);
        vstd::arithmetic::div_mod::lemma_mod_bound(i, w);
        vstd::arithmetic::div_mod::lemma_div_pos_is_pos(i, w);
        vstd::arithmetic::div_mod::lemma_div_is_ordered(i, w * h - 1, w);
        vstd::arithmetic::div_mod::lemma_div_multiples_vanish_fancy(h - 1, w - 1, w);
        assert(w * h - 1 == w * (h - 1) + (w - 1)) by (nonlinear_arith);
        vstd::arithmetic::div_mod::lemma_small_mod(x as nat, w as nat);
        vstd::arithmetic::div_mod::lemma_small_mod(y as nat, h as nat);
        assert(out.at(x, y) == input.at(x, y));
        assert(out.index_of(x, y) == x + y * w);
        assert(input.index_of(x, y) == x + y * w);
        assert(x + y * w == i) by (nonlinear_arith)
            requires
                i == w * (i / w) + i % w,
                x == i % w,
                y == i / w,
        ;
    }
    assert(out.cells() =~= input.cells());
    assert forall|x: int, y: int| #[trigger] out.at(x, y) == input.at(x, y) by {
        input.lemma_wrap_invariance(x, y, 0);
        out.lemma_wrap_invariance(x, y, 0);
        lemma_wrap_turns(x, 0, w);
        lemma_wrap_turns(y, 0, h);
    }
}

} // verus!
