use crate::scene::cell::Cell;
use crate::scene::layout::inside_grid;
use crate::types::Index2;
use vstd::arithmetic::div_mod::lemma_fundamental_div_mod_converse;
use vstd::prelude::*;

verus! {

/// Along one axis, where the stencils of a pass start: the lower bound
/// `min` (0 if none is given) shifted by `offset` (0 if none is given).
pub open spec fn stencil_start(min: Option<usize>, offset: Option<usize>) -> int {
    (match min {
        Some(m) => m as int,
        None => 0,
    }) + (match offset {
        Some(o) => o as int,
        None => 0,
    })
}

/// Where the stencils of a pass start along the first axis.
pub open spec fn stencil_start_x(min: Option<Index2>, offset: Option<Index2>) -> int {
    stencil_start(
        match min {
            Some(m) => Some(m.x),
            None => None,
        },
        match offset {
            Some(o) => Some(o.x),
            None => None,
        },
    )
}

/// Where the stencils of a pass start along the second axis.
pub open spec fn stencil_start_y(min: Option<Index2>, offset: Option<Index2>) -> int {
    stencil_start(
        match min {
            Some(m) => Some(m.y),
            None => None,
        },
        match offset {
            Some(o) => Some(o.y),
            None => None,
        },
    )
}

/// How many stencils fit along an axis of extent `dim` from `start` on:
/// they are two cells apart and each needs the cell after its own.
pub open spec fn stencil_span(dim: usize, start: int) -> int {
    if start <= dim {
        (dim - start) / 2
    } else {
        0
    }
}

/// How many stencils a pass over a grid of extent `dim` yields when it
/// starts at `(sx, sy)`.
pub open spec fn stencil_count(dim: Index2, sx: int, sy: int) -> int {
    stencil_span(dim.x, sx) * stencil_span(dim.y, sy)
}

/// The position in the flat grid of the center of stencil `i` of a pass:
/// the stencils run along the first axis first.
pub open spec fn stencil_offset(dim: Index2, sx: int, sy: int, i: int) -> int {
    (sx + 2 * (i % stencil_span(dim.x, sx))) + (sy + 2 * (i / stencil_span(dim.x, sx))) * dim.x
}

/// Whether a pass hands out the cell at position `p` of the flat grid, as a
/// center or as a neighbor.
pub open spec fn stencil_covers(dim: Index2, sx: int, sy: int, p: int) -> bool {
    let x = p % (dim.x as int);
    let y = p / (dim.x as int);
    &&& sx <= x < sx + 2 * stencil_span(dim.x, sx)
    &&& sy <= y < sy + 2 * stencil_span(dim.y, sy)
    &&& ((x - sx) % 2 == 0 || (y - sy) % 2 == 0)
}

/// Exclusive access to a cell and to its neighbors in the positive `x` and
/// `y` directions.
pub struct PosStencilMut<'a, T> {
    /// The cell itself.
    pub cell: &'a mut T,
    /// The positive neighbors: `[+x, +y]`.
    pub neighbors: [&'a mut T; 2],
}

impl<'a, S: Copy + Default> PosStencilMut<'a, Cell<S>> {
    /// Tells the three cells about each other: the center learns whether its
    /// `+x` and `+y` neighbors hold fluid, and each of the two learns whether
    /// the center, its negative neighbor, does. Nothing else changes.
    pub fn exchange_fluid_marks(&mut self)
        ensures
            *final(self).cell == old(self).cell.with_mark(
                1,
                0,
                old(self).neighbors[0].is_fluid(),
            ).with_mark(1, 1, old(self).neighbors[1].is_fluid()),
            *final(self).neighbors[0] == old(self).neighbors[0].with_mark(
                0,
                0,
                old(self).cell.is_fluid(),
            ),
            *final(self).neighbors[1] == old(self).neighbors[1].with_mark(
                0,
                1,
                old(self).cell.is_fluid(),
            ),
            *final(final(self).cell) == *final(old(self).cell),
            *final(final(self).neighbors[0]) == *final(old(self).neighbors[0]),
            *final(final(self).neighbors[1]) == *final(old(self).neighbors[1]),
    {
        let center = self.cell.is_fluid();
        self.cell.s_nbs[1][0] = self.neighbors[0].is_fluid();
        self.neighbors[0].s_nbs[0][0] = center;
        self.cell.s_nbs[1][1] = self.neighbors[1].is_fluid();
        self.neighbors[1].s_nbs[0][1] = center;
        assert(self.cell.s_nbs =~= old(self).cell.with_mark(
            1,
            0,
            old(self).neighbors[0].is_fluid(),
        ).with_mark(1, 1, old(self).neighbors[1].is_fluid()).s_nbs);
    }
}

/// The stencils of two adjacent rows, `lower` stored before `upper`: one for
/// every second cell of `lower` from `start` on, as long as its `+x`
/// neighbor exists.
fn row_pair_stencils<'a, T>(lower: &'a mut [T], upper: &'a mut [T], start: usize) -> (out: Vec<
    PosStencilMut<'a, T>,
>)
    requires
        old(lower).len() == old(upper).len(),
        start <= old(lower).len(),
    ensures
        out.len() == (old(lower).len() - start) / 2,
        final(lower).len() == old(lower).len(),
        final(upper).len() == old(upper).len(),
        forall|j: int|
            0 <= j < out.len() ==> {
                &&& *(#[trigger] out[j]).cell == old(lower)[start + 2 * j]
                &&& *out[j].neighbors[0] == old(lower)[start + 2 * j + 1]
                &&& *out[j].neighbors[1] == old(upper)[start + 2 * j]
            },
        forall|j: int|
            0 <= j < out.len() ==> {
                &&& final(lower)[start + 2 * j] == *final((#[trigger] out[j]).cell)
                &&& final(lower)[start + 2 * j + 1] == *final(out[j].neighbors[0])
                &&& final(upper)[start + 2 * j] == *final(out[j].neighbors[1])
            },
        forall|p: int|
            0 <= p < old(lower).len() && (p < start || p >= start + 2 * out.len())
                ==> #[trigger] final(lower)[p] == old(lower)[p],
        forall|p: int|
            0 <= p < old(upper).len() && (p < start || p >= start + 2 * out.len() || (p - start) % 2
                == 1) ==> #[trigger] final(upper)[p] == old(upper)[p],
{
    let ghost old_lower = lower@;
    let ghost old_upper = upper@;
    let ghost fin_lower = final(lower)@;
    let ghost fin_upper = final(upper)@;
    let ghost len = lower.len() as int;
    let n: usize = (lower.len() - start) / 2;
    let (lower_head, lower_rest0) = lower.split_at_mut(start);
    let (upper_head, upper_rest0) = upper.split_at_mut(start);
    let ghost fin_lower_rest0 = final(lower_rest0)@;
    let ghost fin_upper_rest0 = final(upper_rest0)@;
    let mut lower_rest: &'a mut [T] = lower_rest0;
    let mut upper_rest: &'a mut [T] = upper_rest0;
    assert(has_resolved(lower_head));
    assert(has_resolved(upper_head));
    assert(final(lower_head)@ == lower_head@);
    assert(final(upper_head)@ == upper_head@);
    assert(forall|p: int| 0 <= p < start ==> fin_lower[p] == old_lower[p]);
    assert(forall|p: int| 0 <= p < start ==> fin_upper[p] == old_upper[p]);
    assert(forall|q: int| 0 <= q < fin_lower_rest0.len() ==> fin_lower[start + q] == #[trigger] fin_lower_rest0[q]);
    assert(forall|q: int| 0 <= q < fin_upper_rest0.len() ==> fin_upper[start + q] == #[trigger] fin_upper_rest0[q]);
    let mut out: Vec<PosStencilMut<'a, T>> = Vec::new();
    let mut j: usize = 0;
    while j < n
        invariant
            len == old_lower.len(),
            len == old_upper.len(),
            start <= len,
            n == (len - start) / 2,
            j <= n,
            out.len() == j,
            lower_rest@ == old_lower.subrange(start + 2 * j, len),
            upper_rest@ == old_upper.subrange(start + 2 * j, len),
            fin_lower.len() == start + 2 * j + final(lower_rest)@.len(),
            fin_upper.len() == start + 2 * j + final(upper_rest)@.len(),
            forall|p: int| 0 <= p < start ==> fin_lower[p] == old_lower[p],
            forall|p: int| 0 <= p < start ==> fin_upper[p] == old_upper[p],
            forall|i: int|
                0 <= i < j ==> {
                    &&& *(#[trigger] out[i]).cell == old_lower[start + 2 * i]
                    &&& *out[i].neighbors[0] == old_lower[start + 2 * i + 1]
                    &&& *out[i].neighbors[1] == old_upper[start + 2 * i]
                },
            forall|i: int|
                0 <= i < j ==> {
                    &&& fin_lower[start + 2 * i] == *final((#[trigger] out[i]).cell)
                    &&& fin_lower[start + 2 * i + 1] == *final(out[i].neighbors[0])
                    &&& fin_upper[start + 2 * i] == *final(out[i].neighbors[1])
                },
            forall|i: int| 0 <= i < j ==> #[trigger] fin_upper[start + 2 * i + 1] == old_upper[start + 2 * i + 1],
            forall|q: int|
                0 <= q < final(lower_rest)@.len() ==> fin_lower[start + 2 * j + q] == #[trigger] final(lower_rest)@[q],
            forall|q: int|
                0 <= q < final(upper_rest)@.len() ==> fin_upper[start + 2 * j + q] == #[trigger] final(upper_rest)@[q],
        decreases n - j,
    {
        let ghost fin_lower_now = final(lower_rest)@;
        let ghost fin_upper_now = final(upper_rest)@;
        let ghost prev = out@;
        let (lower_pair, lower_tail) = { lower_rest }.split_at_mut(2);
        let (upper_pair, upper_tail) = { upper_rest }.split_at_mut(2);
        let ghost fin_lower_pair = final(lower_pair)@;
        let ghost fin_upper_pair = final(upper_pair)@;
        let ghost fin_lower_tail = final(lower_tail)@;
        let ghost fin_upper_tail = final(upper_tail)@;
        let (a, b) = lower_pair.split_at_mut(1);
        let ghost fin_left = final(a)@;
        let ghost fin_right = final(b)@;
        let x0_y0 = a.first_mut().unwrap();
        let x1_y0 = b.first_mut().unwrap();
        let x0_y1 = upper_pair.first_mut().unwrap();
        proof {
            assert(fin_left.len() == 1 && fin_right.len() == 1);
            assert(fin_lower_pair.len() == 2 && fin_upper_pair.len() == 2);
            assert(fin_lower_pair[0] == fin_left[0] && fin_left[0] == *final(x0_y0));
            assert(fin_lower_pair[1] == fin_right[0] && fin_right[0] == *final(x1_y0));
            assert(fin_upper_pair[0] == *final(x0_y1));
            assert(fin_upper_pair[1] == old_upper[start + 2 * j + 1]);
            assert(fin_lower_now.len() == 2 + fin_lower_tail.len());
            assert(fin_upper_now.len() == 2 + fin_upper_tail.len());
            assert(fin_lower_now[0] == fin_lower_pair[0] && fin_lower_now[1] == fin_lower_pair[1]);
            assert(fin_upper_now[0] == fin_upper_pair[0] && fin_upper_now[1] == fin_upper_pair[1]);
            assert(forall|q: int| 0 <= q < fin_lower_tail.len() ==> fin_lower_now[2 + q] == #[trigger] fin_lower_tail[q]);
            assert(forall|q: int| 0 <= q < fin_upper_tail.len() ==> fin_upper_now[2 + q] == #[trigger] fin_upper_tail[q]);
            assert(fin_lower[start + 2 * j + 0] == fin_lower_now[0]);
            assert(fin_lower[start + 2 * j + 1] == fin_lower_now[1]);
            assert(fin_upper[start + 2 * j + 0] == fin_upper_now[0]);
            assert(fin_upper[start + 2 * j + 1] == fin_upper_now[1]);
        }
        out.push(PosStencilMut { cell: x0_y0, neighbors: [x1_y0, x0_y1] });
        lower_rest = lower_tail;
        upper_rest = upper_tail;
        proof {
            assert(forall|i: int| 0 <= i < j ==> out[i] == prev[i]);
            assert forall|q: int| 0 <= q < final(lower_rest)@.len() implies fin_lower[start + 2 * (j + 1) + q]
                == #[trigger] final(lower_rest)@[q] by {
                assert(fin_lower[start + 2 * j + (2 + q)] == fin_lower_now[2 + q]);
            }
            assert forall|q: int| 0 <= q < final(upper_rest)@.len() implies fin_upper[start + 2 * (j + 1) + q]
                == #[trigger] final(upper_rest)@[q] by {
                assert(fin_upper[start + 2 * j + (2 + q)] == fin_upper_now[2 + q]);
            }
        }
        j += 1;
    }
    assert(has_resolved(lower_rest));
    assert(has_resolved(upper_rest));
    assert(final(lower_rest)@ == lower_rest@);
    assert(final(upper_rest)@ == upper_rest@);
    assert forall|p: int| start + 2 * out.len() <= p < len implies #[trigger] fin_lower[p] == old_lower[p] by {
        let q = p - (start + 2 * j);
        assert(fin_lower[start + 2 * j + q] == final(lower_rest)@[q]);
    }
    assert forall|p: int| start + 2 * out.len() <= p < len implies #[trigger] fin_upper[p] == old_upper[p] by {
        let q = p - (start + 2 * j);
        assert(fin_upper[start + 2 * j + q] == final(upper_rest)@[q]);
    }
    assert forall|p: int|
        0 <= p < len && start <= p < start + 2 * out.len() && (p - start) % 2
            == 1 implies #[trigger] fin_upper[p] == old_upper[p] by {
        let i = (p - start) / 2;
        assert(p == start + 2 * i + 1);
        assert(fin_upper[start + 2 * i + 1] == old_upper[start + 2 * i + 1]);
    }
    out
}

/// Splits a flat row-major grid of extent `dim` into positive stencils: each
/// borrows a cell, its `+x` neighbor and its `+y` neighbor. The first
/// stencil is centered at `min + offset`, the others follow two cells apart
/// in each axis as long as both neighbors exist, row pair by row pair and
/// along the first axis within a pair. No cell belongs to two stencils, so
/// the stencils can be handed to different workers.
///
/// `min` defaults to `(0, 0)`, `max` to `dim - (1, 1)` and `offset` to
/// `(0, 0)`. `min` and `max` must name cells of the grid; `max` does not
/// bound the traversal. A start beyond the grid yields no stencil.
pub fn positive_stencils_mut<'a, T>(
    data: &'a mut [T],
    dim: Index2,
    min: Option<Index2>,
    max: Option<Index2>,
    offset: Option<Index2>,
) -> (out: Vec<PosStencilMut<'a, T>>)
    requires
        dim.x > 0,
        dim.y > 0,
        dim.x * dim.y == old(data)@.len(),
        min matches Some(m) ==> inside_grid(dim, m),
        max matches Some(m) ==> inside_grid(dim, m),
    ensures
        out.len() == stencil_count(dim, stencil_start_x(min, offset), stencil_start_y(min, offset)),
        final(data)@.len() == old(data)@.len(),
        forall|i: int|
            0 <= i < out.len() ==> {
                let c = stencil_offset(dim, stencil_start_x(min, offset), stencil_start_y(min, offset), i);
                &&& *(#[trigger] out[i]).cell == old(data)@[c]
                &&& *out[i].neighbors[0] == old(data)@[c + 1]
                &&& *out[i].neighbors[1] == old(data)@[c + dim.x]
            },
        forall|i: int|
            0 <= i < out.len() ==> {
                let c = stencil_offset(dim, stencil_start_x(min, offset), stencil_start_y(min, offset), i);
                &&& final(data)@[c] == *final((#[trigger] out[i]).cell)
                &&& final(data)@[c + 1] == *final(out[i].neighbors[0])
                &&& final(data)@[c + dim.x] == *final(out[i].neighbors[1])
            },
        forall|p: int|
            0 <= p < old(data)@.len() && !stencil_covers(
                dim,
                stencil_start_x(min, offset),
                stencil_start_y(min, offset),
                p,
            ) ==> #[trigger] final(data)@[p] == old(data)@[p],
{
    let ghost orig = data@;
    let ghost fin = final(data)@;
    let ghost n = data.len() as int;
    let ghost gx = stencil_start_x(min, offset);
    let ghost gy = stencil_start_y(min, offset);
    let min = match min {
        Some(m) => m,
        None => Index2::zeros(),
    };
    let offset = match offset {
        Some(o) => o,
        None => Index2::zeros(),
    };
    let mut out: Vec<PosStencilMut<'a, T>> = Vec::new();
    if offset.x > dim.x - min.x || offset.y > dim.y - min.y {
        proof {
            assert(stencil_span(dim.x, gx) == 0 || stencil_span(dim.y, gy) == 0);
            assert(stencil_count(dim, gx, gy) == 0) by (nonlinear_arith)
                requires
                    stencil_span(dim.x, gx) == 0 || stencil_span(dim.y, gy) == 0,
            ;
        }
        assert(has_resolved(data));
        assert(final(data)@ == data@);
        return out;
    }
    let sx: usize = min.x + offset.x;
    let sy: usize = min.y + offset.y;
    let nx: usize = (dim.x - sx) / 2;
    let ny: usize = (dim.y - sy) / 2;
    let w: usize = dim.x;
    proof {
        assert(sy * w <= dim.y * w) by (nonlinear_arith)
            requires
                sy <= dim.y,
                w >= 0,
        ;
        assert(dim.y * w == w * dim.y) by (nonlinear_arith);
    }
    let (head, rest0) = data.split_at_mut(sy * w);
    let ghost frest0 = final(rest0)@;
    let mut rest: &'a mut [T] = rest0;
    assert(has_resolved(head));
    assert(final(head)@ == head@);
    assert(forall|q: int| 0 <= q < frest0.len() ==> fin[sy * w + q] == #[trigger] frest0[q]);
    assert(forall|p: int| 0 <= p < sy * w ==> fin[p] == orig[p]);
    let mut k: usize = 0;
    assert(k * nx == 0) by (nonlinear_arith)
        requires
            k == 0,
    ;
    while k < ny
        invariant
            n == orig.len(),
            n == w * dim.y,
            n <= usize::MAX,
            (sy + 2 * k) * w <= n,
            w == dim.x,
            w > 0,
            sx <= w,
            sy <= dim.y,
            gx == sx,
            gy == sy,
            nx == (w - sx) / 2,
            ny == (dim.y - sy) / 2,
            k <= ny,
            out.len() == k * nx,
            rest@ == orig.subrange((sy + 2 * k) * w, n),
            fin.len() == (sy + 2 * k) * w + final(rest)@.len(),
            forall|q: int|
                0 <= q < final(rest)@.len() ==> fin[(sy + 2 * k) * w + q] == #[trigger] final(rest)@[q],
            forall|i: int|
                0 <= i < out.len() ==> 0 <= #[trigger] stencil_offset(dim, gx, gy, i) && stencil_offset(
                    dim,
                    gx,
                    gy,
                    i,
                ) + w < (sy + 2 * k) * w,
            forall|i: int|
                0 <= i < out.len() ==> {
                    let c = stencil_offset(dim, gx, gy, i);
                    &&& *(#[trigger] out[i]).cell == orig[c]
                    &&& *out[i].neighbors[0] == orig[c + 1]
                    &&& *out[i].neighbors[1] == orig[c + w]
                },
            forall|i: int|
                0 <= i < out.len() ==> {
                    let c = stencil_offset(dim, gx, gy, i);
                    &&& fin[c] == *final((#[trigger] out[i]).cell)
                    &&& fin[c + 1] == *final(out[i].neighbors[0])
                    &&& fin[c + w] == *final(out[i].neighbors[1])
                },
            forall|p: int|
                0 <= p < (sy + 2 * k) * w && !stencil_covers(dim, gx, gy, p) ==> #[trigger] fin[p]
                    == orig[p],
        decreases ny - k,
    {
        let ghost base = (sy + 2 * k) * w;
        let ghost fr = final(rest)@;
        let ghost prev = out@;
        proof {
            assert((sy + 2 * k + 2) * w <= dim.y * w) by (nonlinear_arith)
                requires
                    sy + 2 * k + 2 <= dim.y,
                    w >= 0,
            ;
            assert((sy + 2 * k + 2) * w == base + 2 * w) by (nonlinear_arith)
                requires
                    base == (sy + 2 * k) * w,
            ;
            assert(dim.y * w == w * dim.y) by (nonlinear_arith);
            assert(base + 2 * w <= n);
        }
        let (band, tail) = { rest }.split_at_mut(2 * w);
        let ghost fband = final(band)@;
        let ghost ftail = final(tail)@;
        let (lower, upper) = band.split_at_mut(w);
        let ghost fin_lower = final(lower)@;
        let ghost fin_upper = final(upper)@;
        let ghost old_lower = lower@;
        let ghost old_upper = upper@;
        let mut row = row_pair_stencils(lower, upper, sx);
        let ghost added = row@;
        proof {
            assert(fin_lower.len() == w && fin_upper.len() == w);
            assert(fband.len() == 2 * w);
            assert(fr.len() == 2 * w + ftail.len());
            assert(forall|q: int| 0 <= q < w ==> fin[base + q] == fin_lower[q]) by {
                assert forall|q: int| 0 <= q < w implies fin[base + q] == fin_lower[q] by {
                    assert(fr[q] == fband[q]);
                    assert(fband[q] == fin_lower[q]);
                    assert(fin[base + q] == fr[q]);
                }
            }
            assert(forall|q: int| 0 <= q < w ==> fin[base + w + q] == fin_upper[q]) by {
                assert forall|q: int| 0 <= q < w implies fin[base + w + q] == fin_upper[q] by {
                    assert(fr[w + q] == fband[w + q]);
                    assert(fband[w + q] == fin_upper[q]);
                    assert(fin[base + (w + q)] == fr[w + q]);
                }
            }
            assert(forall|q: int| 0 <= q < w ==> old_lower[q] == orig[base + q]);
            assert(forall|q: int| 0 <= q < w ==> old_upper[q] == orig[base + w + q]);
            assert(forall|q: int| 0 <= q < ftail.len() ==> fr[2 * w + q] == #[trigger] ftail[q]);
        }
        out.append(&mut row);
        rest = tail;
        let ghost k0 = k;
        k += 1;
        proof {
            assert(k * nx == k0 * nx + nx) by (nonlinear_arith)
                requires
                    k == k0 + 1,
            ;
            assert((sy + 2 * k) * w == base + 2 * w) by (nonlinear_arith)
                requires
                    base == (sy + 2 * k0) * w,
                    k == k0 + 1,
            ;
            assert(out@ =~= prev + added);
            assert forall|q: int| 0 <= q < final(rest)@.len() implies fin[(sy + 2 * k) * w + q]
                == #[trigger] final(rest)@[q] by {
                assert(fin[base + (2 * w + q)] == fr[2 * w + q]);
            }
            assert forall|i: int| 0 <= i < out.len() implies {
                let c = #[trigger] stencil_offset(dim, gx, gy, i);
                &&& 0 <= c && c + w < (sy + 2 * k) * w
                &&& *out[i].cell == orig[c]
                &&& *out[i].neighbors[0] == orig[c + 1]
                &&& *out[i].neighbors[1] == orig[c + w]
                &&& fin[c] == *final(out[i].cell)
                &&& fin[c + 1] == *final(out[i].neighbors[0])
                &&& fin[c + w] == *final(out[i].neighbors[1])
            } by {
                if i < k0 * nx {
                    assert(out[i] == prev[i]);
                } else {
                    let j = i - k0 * nx;
                    assert(out[i] == added[j]);
                    let c = stencil_offset(dim, gx, gy, i);
                    assert(i == k0 * nx + j);
                    lemma_fundamental_div_mod_converse(i, nx as int, k0 as int, j);
                    assert(c == base + sx + 2 * j);
                    assert(fin[base + (sx + 2 * j)] == fin_lower[sx + 2 * j]);
                    assert(fin[base + (sx + 2 * j + 1)] == fin_lower[sx + 2 * j + 1]);
                    assert(fin[base + w + (sx + 2 * j)] == fin_upper[sx + 2 * j]);
                }
            }
            assert forall|p: int|
                0 <= p < (sy + 2 * k) * w && !stencil_covers(
                    dim,
                    gx,
                    gy,
                    p,
                ) implies #[trigger] fin[p] == orig[p] by {
                if p >= base {
                    lemma_band_position(dim, sx as int, sy as int, k0 as int, p);
                    if p < base + w {
                        let q = p - base;
                        assert(fin[base + q] == fin_lower[q]);
                    } else {
                        let q = p - base - w;
                        assert(fin[base + w + q] == fin_upper[q]);
                    }
                }
            }
        }
    }
    assert(has_resolved(rest));
    assert(final(rest)@ == rest@);
    proof {
        assert(k * nx == nx * ny) by (nonlinear_arith)
            requires
                k == ny,
        ;
        assert forall|p: int| 0 <= p < n && !stencil_covers(dim, gx, gy, p) implies #[trigger] fin[p]
            == orig[p] by {
            let base = (sy + 2 * k) * w;
            if p >= base {
                let q = p - base;
                assert(fin[base + q] == final(rest)@[q]);
            }
        }
    }
    out
}

/// Within row pair `k` of a pass, a position that the pass does not cover
/// is one that `row_pair_stencils` leaves alone.
proof fn lemma_band_position(dim: Index2, sx: int, sy: int, k: int, p: int)
    requires
        dim.x > 0,
        0 <= sx <= dim.x,
        0 <= sy <= dim.y,
        0 <= k < stencil_span(dim.y, sy),
        (sy + 2 * k) * dim.x <= p < (sy + 2 * k + 2) * dim.x,
        !stencil_covers(dim, sx, sy, p),
    ensures
        ({
            let w = dim.x as int;
            let base = (sy + 2 * k) * w;
            let nx = stencil_span(dim.x, sx);
            if p < base + w {
                let q = p - base;
                q < sx || q >= sx + 2 * nx
            } else {
                let q = p - base - w;
                q < sx || q >= sx + 2 * nx || (q - sx) % 2 == 1
            }
        }),
{
    let w = dim.x as int;
    let base = (sy + 2 * k) * w;
    assert((sy + 2 * k + 2) * w == base + 2 * w) by (nonlinear_arith)
        requires
            base == (sy + 2 * k) * w,
    ;
    assert((sy + 2 * k + 1) * w == base + w) by (nonlinear_arith)
        requires
            base == (sy + 2 * k) * w,
    ;
    if p < base + w {
        let q = p - base;
        lemma_fundamental_div_mod_converse(p, w, sy + 2 * k, q);
    } else {
        let q = p - base - w;
        lemma_fundamental_div_mod_converse(p, w, sy + 2 * k + 1, q);
    }
}

/// The three cells of stencil `i` of a pass, by their coordinates: the
/// center lies an even number of steps from the start in both axes, the
/// `+x` neighbor one step further along the first axis and the `+y`
/// neighbor one step further along the second, all three inside the grid.
pub proof fn lemma_stencil_cells(dim: Index2, sx: int, sy: int, i: int)
    requires
        0 <= sx,
        0 <= sy,
        0 <= i < stencil_count(dim, sx, sy),
    ensures
        ({
            let w = dim.x as int;
            let nx = stencil_span(dim.x, sx);
            let c = stencil_offset(dim, sx, sy, i);
            let x = sx + 2 * (i % nx);
            let y = sy + 2 * (i / nx);
            &&& 0 <= i % nx < nx && 0 <= i / nx < stencil_span(dim.y, sy)
            &&& x + 1 < w && y + 1 < dim.y
            &&& 0 <= c && c + w < w * dim.y
            &&& c % w == x && c / w == y
            &&& (c + 1) % w == x + 1 && (c + 1) / w == y
            &&& (c + w) % w == x && (c + w) / w == y + 1
        }),
{
    let w = dim.x as int;
    let nx = stencil_span(dim.x, sx);
    let ny = stencil_span(dim.y, sy);
    assert(nx > 0 && ny > 0) by (nonlinear_arith)
        requires
            0 <= i < nx * ny,
            nx >= 0,
            ny >= 0,
    ;
    let m = i % nx;
    let k = i / nx;
    vstd::arithmetic::div_mod::lemma_fundamental_div_mod(i, nx);
    vstd::arithmetic::div_mod::lemma_mod_bound(i, nx);
    vstd::arithmetic::div_mod::lemma_div_pos_is_pos(i, nx);
    assert(k < ny) by (nonlinear_arith)
        requires
            i == nx * k + m,
            0 <= m,
            i < nx * ny,
            nx > 0,
    ;
    let x = sx + 2 * m;
    let y = sy + 2 * k;
    let c = stencil_offset(dim, sx, sy, i);
    assert(c == x + y * w);
    assert(0 <= y * w && (y + 1) * w == y * w + w && (y + 2) * w == y * w + 2 * w && (y + 2) * w
        <= w * dim.y) by (nonlinear_arith)
        requires
            0 <= y,
            y + 2 <= dim.y,
            0 <= w,
    ;
    lemma_fundamental_div_mod_converse(c, w, y, x);
    lemma_fundamental_div_mod_converse(c + 1, w, y, x + 1);
    lemma_fundamental_div_mod_converse(c + w, w, y + 1, x);
}

/// No cell is handed out twice: the three cells of a stencil differ, and
/// two stencils of one pass share no cell.
pub proof fn stencils_are_disjoint(dim: Index2, sx: int, sy: int, i: int, j: int)
    requires
        0 <= sx,
        0 <= sy,
        0 <= i < stencil_count(dim, sx, sy),
        0 <= j < stencil_count(dim, sx, sy),
    ensures
        ({
            let w = dim.x as int;
            let a = stencil_offset(dim, sx, sy, i);
            let b = stencil_offset(dim, sx, sy, j);
            &&& a != a + 1 && a != a + w && a + 1 != a + w
            &&& i != j ==> {
                &&& a != b && a != b + 1 && a != b + w
                &&& a + 1 != b && a + 1 != b + 1 && a + 1 != b + w
                &&& a + w != b && a + w != b + 1 && a + w != b + w
            }
        }),
{
    lemma_stencil_cells(dim, sx, sy, i);
    lemma_stencil_cells(dim, sx, sy, j);
    let nx = stencil_span(dim.x, sx);
    vstd::arithmetic::div_mod::lemma_fundamental_div_mod(i, nx);
    vstd::arithmetic::div_mod::lemma_fundamental_div_mod(j, nx);
}

/// Every cell of a stencil is a cell that the pass covers, and each covered
/// cell belongs to a stencil.
pub proof fn covered_cells_are_stencil_cells(dim: Index2, sx: int, sy: int, p: int)
    requires
        dim.x > 0,
        0 <= sx,
        0 <= sy,
        0 <= p < dim.x * dim.y,
    ensures
        stencil_covers(dim, sx, sy, p) <==> exists|i: int|
            0 <= i < stencil_count(dim, sx, sy) && {
                let c = #[trigger] stencil_offset(dim, sx, sy, i);
                p == c || p == c + 1 || p == c + dim.x
            },
{
    let w = dim.x as int;
    let nx = stencil_span(dim.x, sx);
    let ny = stencil_span(dim.y, sy);
    if stencil_covers(dim, sx, sy, p) {
        let x = p % w;
        let y = p / w;
        vstd::arithmetic::div_mod::lemma_fundamental_div_mod(p, w);
        let m = (x - sx) / 2;
        let k = (y - sy) / 2;
        let i = k * nx + m;
        assert(0 <= k * nx && k * nx + nx <= nx * ny) by (nonlinear_arith)
            requires
                0 <= k < ny,
                0 <= nx,
        ;
        lemma_fundamental_div_mod_converse(i, nx, k, m);
        lemma_stencil_cells(dim, sx, sy, i);
        let c = stencil_offset(dim, sx, sy, i);
        assert(c == (sx + 2 * m) + (sy + 2 * k) * w);
        assert((sy + 2 * k + 1) * w == (sy + 2 * k) * w + w) by (nonlinear_arith);
        assert(w * y == y * w) by (nonlinear_arith);
        if (x - sx) % 2 == 0 && (y - sy) % 2 == 0 {
            assert(p == c);
        } else if (y - sy) % 2 == 0 {
            assert(p == c + 1);
        } else {
            assert(p == c + w);
        }
    }
    if exists|i: int|
        0 <= i < stencil_count(dim, sx, sy) && {
            let c = #[trigger] stencil_offset(dim, sx, sy, i);
            p == c || p == c + 1 || p == c + dim.x
        } {
        let i = choose|i: int|
            0 <= i < stencil_count(dim, sx, sy) && {
                let c = #[trigger] stencil_offset(dim, sx, sy, i);
                p == c || p == c + 1 || p == c + dim.x
            };
        lemma_stencil_cells(dim, sx, sy, i);
    }
}

/// The shift of each of the four passes that together visit the interior
/// of a grid: `(0, 0)`, `(1, 0)`, `(0, 1)`, `(1, 1)`.
pub open spec fn phase_offset(phase: int) -> Index2 {
    Index2 { x: if phase % 2 == 0 { 0 } else { 1 }, y: if phase < 2 { 0 } else { 1 } }
}

/// The shifts of the four passes, in the order in which they run.
pub fn stencil_phases() -> (r: [Index2; 4])
    ensures
        forall|phase: int| 0 <= phase < 4 ==> #[trigger] r[phase] == phase_offset(phase),
{
    [Index2::new(0, 0), Index2::new(1, 0), Index2::new(0, 1), Index2::new(1, 1)]
}

/// The pass that has the interior cell `index` as a center, with passes
/// that start at `(1, 1)` plus their shift.
pub open spec fn phase_of(index: Index2) -> int {
    (index.x - 1) % 2 + 2 * ((index.y - 1) % 2)
}

/// The stencil, within its pass, that has the interior cell `index` as its
/// center.
pub open spec fn stencil_of(dim: Index2, index: Index2) -> int {
    let ox = (index.x - 1) % 2;
    let oy = (index.y - 1) % 2;
    ((index.y - 1 - oy) / 2) * stencil_span(dim.x, 1 + ox) + (index.x - 1 - ox) / 2
}

/// Over the four passes together, each interior cell is the center of
/// exactly one stencil: of stencil `stencil_of` in pass `phase_of`, and of
/// no other.
pub proof fn phases_cover_interior_once(dim: Index2, index: Index2)
    requires
        crate::scene::layout::inside_border(dim, index),
    ensures
        0 <= phase_of(index) < 4,
        ({
            let o = phase_offset(phase_of(index));
            &&& 0 <= stencil_of(dim, index) < stencil_count(dim, 1 + o.x, 1 + o.y)
            &&& stencil_offset(dim, 1 + o.x, 1 + o.y, stencil_of(dim, index))
                == crate::scene::layout::linear_offset(dim, index)
        }),
        forall|phase: int, i: int|
            0 <= phase < 4 && 0 <= i < stencil_count(
                dim,
                1 + phase_offset(phase).x,
                1 + phase_offset(phase).y,
            ) && #[trigger] stencil_offset(
                dim,
                1 + phase_offset(phase).x,
                1 + phase_offset(phase).y,
                i,
            ) == crate::scene::layout::linear_offset(dim, index) ==> phase == phase_of(index) && i
                == stencil_of(dim, index),
{
    let w = dim.x as int;
    let ox = (index.x - 1) % 2;
    let oy = (index.y - 1) % 2;
    let o = phase_offset(phase_of(index));
    assert(o.x == ox && o.y == oy);
    let nx = stencil_span(dim.x, 1 + ox);
    let ny = stencil_span(dim.y, 1 + oy);
    let m = (index.x - 1 - ox) / 2;
    let k = (index.y - 1 - oy) / 2;
    let i0 = stencil_of(dim, index);
    assert(0 <= m < nx && 0 <= k < ny);
    assert(0 <= k * nx && k * nx + nx <= nx * ny) by (nonlinear_arith)
        requires
            0 <= k < ny,
            0 <= nx,
    ;
    lemma_fundamental_div_mod_converse(i0, nx, k, m);
    assert forall|phase: int, i: int|
        0 <= phase < 4 && 0 <= i < stencil_count(
            dim,
            1 + phase_offset(phase).x,
            1 + phase_offset(phase).y,
        ) && #[trigger] stencil_offset(dim, 1 + phase_offset(phase).x, 1 + phase_offset(phase).y, i)
            == crate::scene::layout::linear_offset(dim, index) implies phase == phase_of(index)
        && i == stencil_of(dim, index) by {
        let q = phase_offset(phase);
        lemma_stencil_cells(dim, 1 + q.x, 1 + q.y, i);
        lemma_fundamental_div_mod_converse(
            crate::scene::layout::linear_offset(dim, index),
            w,
            index.y as int,
            index.x as int,
        );
        let n2 = stencil_span(dim.x, 1 + q.x);
        vstd::arithmetic::div_mod::lemma_fundamental_div_mod(i, n2);
        assert(index.x == 1 + q.x + 2 * (i % n2));
        assert(index.y == 1 + q.y + 2 * (i / n2));
        assert(q.x == ox && q.y == oy);
        assert(i % n2 == m && i / n2 == k);
        assert(n2 == nx);
        assert(nx * k == k * nx) by (nonlinear_arith);
    }
}

/// Every stencil center of the four passes is an interior cell.
pub proof fn phase_centers_are_interior(dim: Index2, phase: int, i: int)
    requires
        0 <= phase < 4,
        0 <= i < stencil_count(dim, 1 + phase_offset(phase).x, 1 + phase_offset(phase).y),
    ensures
        ({
            let c = stencil_offset(dim, 1 + phase_offset(phase).x, 1 + phase_offset(phase).y, i);
            &&& 0 <= c < dim.x * dim.y
            &&& crate::scene::layout::inside_border(dim, crate::scene::layout::index_at(dim, c))
        }),
{
    let q = phase_offset(phase);
    lemma_stencil_cells(dim, 1 + q.x, 1 + q.y, i);
    assert(dim.x * dim.y == (dim.x as int) * dim.y);
}

} // verus!
