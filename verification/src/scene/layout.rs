//! The row-major layout of a grid: how a two-dimensional index and a
//! position in the flat cell sequence correspond.

use crate::types::Index2;
use vstd::arithmetic::div_mod::lemma_fundamental_div_mod_converse;
use vstd::prelude::*;

verus! {

/// Position of the cell `index` in the flat sequence of a grid of extent
/// `dim`: the first axis is stored first.
pub open spec fn linear_offset(dim: Index2, index: Index2) -> int {
    index.x + index.y * dim.x
}

/// The index of the cell stored at position `k` of a grid of extent `dim`.
pub open spec fn index_at(dim: Index2, k: int) -> Index2 {
    Index2 { x: (k % (dim.x as int)) as usize, y: (k / (dim.x as int)) as usize }
}

/// `min <= index < max`, component by component.
pub open spec fn inside_range(min: Index2, max: Index2, index: Index2) -> bool {
    &&& min.x <= index.x < max.x
    &&& min.y <= index.y < max.y
}

/// `index` names a cell of a grid of extent `dim`.
pub open spec fn inside_grid(dim: Index2, index: Index2) -> bool {
    index.x < dim.x && index.y < dim.y
}

/// `index` names a cell that is not on the outer ring of a grid of extent
/// `dim`.
pub open spec fn inside_border(dim: Index2, index: Index2) -> bool {
    &&& 1 <= index.x && index.x + 1 < dim.x
    &&& 1 <= index.y && index.y + 1 < dim.y
}

/// The indices of the box `min <= index < max` row by row, the first axis
/// running fastest. Empty when the box is.
pub open spec fn range_indices(min: Index2, max: Index2) -> Seq<Index2> {
    if min.x < max.x && min.y < max.y {
        Seq::new(
            ((max.x - min.x) * (max.y - min.y)) as nat,
            |k: int|
                Index2 {
                    x: (min.x + k % (max.x - min.x)) as usize,
                    y: (min.y + k / (max.x - min.x)) as usize,
                },
        )
    } else {
        Seq::empty()
    }
}

/// A cell of the grid lies inside the flat sequence.
pub proof fn lemma_offset_in_bounds(dim: Index2, index: Index2)
    requires
        inside_grid(dim, index),
    ensures
        0 <= linear_offset(dim, index) < dim.x * dim.y,
{
    assert(index.y * dim.x <= (dim.y - 1) * dim.x) by (nonlinear_arith)
        requires
            index.y <= dim.y - 1,
            0 <= dim.x,
    ;
    assert((dim.y - 1) * dim.x == dim.x * dim.y - dim.x) by (nonlinear_arith);
}

/// The cell stored at the position of `index` is `index`.
pub proof fn lemma_index_at_offset(dim: Index2, index: Index2)
    requires
        inside_grid(dim, index),
    ensures
        index_at(dim, linear_offset(dim, index)) == index,
{
    lemma_fundamental_div_mod_converse(
        linear_offset(dim, index),
        dim.x as int,
        index.y as int,
        index.x as int,
    );
}

/// The cell stored at position `k` is a cell of the grid, and its position
/// is `k`.
pub proof fn lemma_offset_of_index_at(dim: Index2, k: int)
    requires
        0 <= k < dim.x * dim.y,
    ensures
        inside_grid(dim, index_at(dim, k)),
        linear_offset(dim, index_at(dim, k)) == k,
{
    let w = dim.x as int;
    assert(w > 0) by (nonlinear_arith)
        requires
            0 <= k < w * dim.y,
            w >= 0,
    ;
    vstd::arithmetic::div_mod::lemma_fundamental_div_mod(k, w);
    vstd::arithmetic::div_mod::lemma_mod_bound(k, w);
    vstd::arithmetic::div_mod::lemma_div_pos_is_pos(k, w);
    let q = k / w;
    let r = k % w;
    assert(q < dim.y) by (nonlinear_arith)
        requires
            k == w * q + r,
            0 <= r,
            k < w * dim.y,
            w > 0,
    ;
    assert(w * q == q * w) by (nonlinear_arith);
}

/// The indices inside the ghost layer of a grid of extent `dim`, row by row.
pub open spec fn interior_indices(dim: Index2) -> Seq<Index2> {
    range_indices(
        Index2 { x: 1, y: 1 },
        Index2 { x: (dim.x - 1) as usize, y: (dim.y - 1) as usize },
    )
}

/// Entry `j` of the indices of a box lies in the box.
pub proof fn lemma_range_indices_inside(min: Index2, max: Index2, j: int)
    requires
        0 <= j < range_indices(min, max).len(),
    ensures
        inside_range(min, max, range_indices(min, max)[j]),
{
    let w = max.x - min.x;
    let h = max.y - min.y;
    vstd::arithmetic::div_mod::lemma_fundamental_div_mod(j, w);
    vstd::arithmetic::div_mod::lemma_mod_bound(j, w);
    vstd::arithmetic::div_mod::lemma_div_pos_is_pos(j, w);
    let q = j / w;
    let r = j % w;
    assert(q < h) by (nonlinear_arith)
        requires
            j == w * q + r,
            0 <= r,
            j < w * h,
            w > 0,
    ;
}

/// Entry `j` of the interior indices lies inside the ghost layer.
pub proof fn lemma_interior_indices_inside(dim: Index2, j: int)
    requires
        dim.x >= 2,
        dim.y >= 2,
        0 <= j < interior_indices(dim).len(),
    ensures
        inside_border(dim, interior_indices(dim)[j]),
{
    lemma_range_indices_inside(
        Index2 { x: 1, y: 1 },
        Index2 { x: (dim.x - 1) as usize, y: (dim.y - 1) as usize },
        j,
    );
}

} // verus!
