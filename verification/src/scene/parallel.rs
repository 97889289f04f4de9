//! The preparation of the stencil-parallel projection: the pass over all
//! stencils after which every cell knows which of its neighbors hold fluid.

use crate::scene::cell::lemma_marks_equal;
use crate::scene::cell::Cell;
use crate::scene::grid::Grid;
use crate::scene::grid::negative_x;
use crate::scene::grid::negative_y;
use crate::scene::grid_stencil::covered_cells_are_stencil_cells;
use crate::scene::grid_stencil::lemma_stencil_cells;
use crate::scene::grid_stencil::phase_centers_are_interior;
use crate::scene::grid_stencil::phase_of;
use crate::scene::grid_stencil::phase_offset;
use crate::scene::grid_stencil::phases_cover_interior_once;
use crate::scene::grid_stencil::stencil_count;
use crate::scene::grid_stencil::stencil_covers;
use crate::scene::grid_stencil::stencil_of;
use crate::scene::grid_stencil::stencil_offset;
use crate::scene::grid_stencil::stencil_phases;
use crate::scene::layout::index_at;
use crate::scene::layout::inside_border;
use crate::scene::layout::lemma_offset_of_index_at;
use crate::scene::layout::linear_offset;
use crate::types::Index2;
use vstd::prelude::*;

verus! {

/// How many of the four neighbors `marks` shows as fluid.
pub open spec fn mark_count(marks: [[bool; 2]; 2]) -> int {
    (if marks[0][0] { 1int } else { 0 }) + (if marks[0][1] { 1int } else { 0 }) + (if marks[1][0] {
        1int
    } else {
        0
    }) + (if marks[1][1] { 1int } else { 0 })
}

/// Whether one of the passes before pass `phases` has the cell `index` as a
/// stencil center.
pub open spec fn is_center_before(dim: Index2, index: Index2, phases: int) -> bool {
    inside_border(dim, index) && phase_of(index) < phases
}

impl<S: Copy + Default> Grid<S> {
    /// The cell at position `k` after the passes before pass `phases` have
    /// exchanged fluid marks. A pass that has the cell as a center sets its
    /// two positive marks from the modes of its positive neighbors; a pass
    /// that has its `-x` or `-y` neighbor as a center sets the negative mark
    /// of that axis from the mode of that neighbor. A mark that no pass sets
    /// keeps its value: the negative marks of the first interior column and
    /// row, and all marks of the ghost layer but the negative marks next to
    /// the interior.
    pub open spec fn marked(&self, k: int, phases: int) -> Cell<S> {
        let dim = self.dim();
        let index = index_at(dim, k);
        let c = self@[k];
        let own = is_center_before(dim, index, phases);
        let left = index.x >= 1 && is_center_before(dim, negative_x(index), phases);
        let below = index.y >= 1 && is_center_before(dim, negative_y(index), phases);
        Cell {
            s_nbs: [
                [
                    if left {
                        self@[k - 1].is_fluid()
                    } else {
                        c.s_nbs[0][0]
                    },
                    if below {
                        self@[k - dim.x].is_fluid()
                    } else {
                        c.s_nbs[0][1]
                    },
                ],
                [
                    if own {
                        self@[k + 1].is_fluid()
                    } else {
                        c.s_nbs[1][0]
                    },
                    if own {
                        self@[k + dim.x].is_fluid()
                    } else {
                        c.s_nbs[1][1]
                    },
                ],
            ],
            ..c
        }
    }

    /// Lets every stencil of the four passes exchange fluid marks: see
    /// [`marked`](Self::marked). Every interior cell then knows which of its
    /// positive neighbors hold fluid, and which of its negative neighbors
    /// inside the ghost layer do.
    pub fn exchange_fluid_marks(&mut self)
        requires
            old(self).inv(),
        ensures
            final(self).inv(),
            old(self).wf() ==> final(self).wf(),
            final(self).dim() == old(self).dim(),
            final(self).cell_width() == old(self).cell_width(),
            forall|k: int| 0 <= k < old(self)@.len() ==> #[trigger] final(self)@[k] == old(self).marked(k, 4),
    {
        let dim = self.dim();
        let phases = stencil_phases();
        let ghost n = self@.len() as int;
        proof {
            assert forall|k: int| 0 <= k < n implies #[trigger] self@[k] == old(self).marked(k, 0) by {
                lemma_marks_equal(self@[k].s_nbs, old(self).marked(k, 0).s_nbs);
            }
        }
        let mut phase: usize = 0;
        while phase < 4
            invariant
                self.inv(),
                dim == self.dim(),
                self.dim() == old(self).dim(),
                self.cell_width() == old(self).cell_width(),
                n == self@.len(),
                n == old(self)@.len(),
                phase <= 4,
                forall|p: int| 0 <= p < 4 ==> #[trigger] phases[p] == phase_offset(p),
                forall|k: int| 0 <= k < n ==> #[trigger] self@[k] == old(self).marked(k, phase as int),
            decreases 4 - phase,
        {
            let offset = phases[phase];
            let ghost sx = 1 + offset.x;
            let ghost sy = 1 + offset.y;
            let ghost before = self@;
            let ghost count = stencil_count(dim, sx, sy);
            let borrowed = &mut *self;
            let ghost after = final(borrowed)@;
            let mut stencils = borrowed.positive_stencils(offset);
            let ghost handed = stencils@;
            assert(after.len() == n);
            let mut i: usize = 0;
            while i < stencils.len()
                invariant
                    stencils.len() == count,
                    handed.len() == count,
                    after.len() == n,
                    count == stencil_count(dim, sx, sy),
                    i <= count,
                    forall|j: int|
                        0 <= j < count ==> {
                            &&& *final((#[trigger] stencils[j]).cell) == *final(handed[j].cell)
                            &&& *final(stencils[j].neighbors[0]) == *final(handed[j].neighbors[0])
                            &&& *final(stencils[j].neighbors[1]) == *final(handed[j].neighbors[1])
                        },
                    forall|j: int| i <= j < count ==> #[trigger] stencils[j] == handed[j],
                    forall|j: int|
                        0 <= j < i ==> {
                            &&& *(#[trigger] stencils[j]).cell == handed[j].cell.with_mark(
                                1,
                                0,
                                handed[j].neighbors[0].is_fluid(),
                            ).with_mark(1, 1, handed[j].neighbors[1].is_fluid())
                            &&& *stencils[j].neighbors[0] == handed[j].neighbors[0].with_mark(
                                0,
                                0,
                                handed[j].cell.is_fluid(),
                            )
                            &&& *stencils[j].neighbors[1] == handed[j].neighbors[1].with_mark(
                                0,
                                1,
                                handed[j].cell.is_fluid(),
                            )
                        },
                decreases count - i,
            {
                stencils[i].exchange_fluid_marks();
                i += 1;
            }
            proof {
                assert(has_resolved(stencils));
                assert forall|j: int| 0 <= j < count implies {
                    let c = #[trigger] stencil_offset(dim, sx, sy, j);
                    &&& after[c] == before[c].with_mark(1, 0, before[c + 1].is_fluid()).with_mark(
                        1,
                        1,
                        before[c + dim.x].is_fluid(),
                    )
                    &&& after[c + 1] == before[c + 1].with_mark(0, 0, before[c].is_fluid())
                    &&& after[c + dim.x] == before[c + dim.x].with_mark(0, 1, before[c].is_fluid())
                } by {
                    assert(has_resolved(stencils[j]));
                    assert(has_resolved(stencils[j].cell));
                    assert(has_resolved(stencils[j].neighbors));
                    assert(has_resolved(stencils[j].neighbors[0]));
                    assert(has_resolved(stencils[j].neighbors[1]));
                }
                assert forall|k: int| 0 <= k < n implies after[k] == old(self).marked(
                    k,
                    phase + 1,
                ) by {
                    old(self).lemma_marked_step(before, after, phase as int, k);
                }
            }
            phase += 1;
        }
    }

    /// Prepares the stencil-parallel projection: exchanges the fluid marks
    /// as [`exchange_fluid_marks`](Self::exchange_fluid_marks) does, then
    /// resets the pressure of every cell and stores in `s_tot_inv` what
    /// `inverse` makes of the number of its marks, or the default value of
    /// `S` for a cell without a mark, which the projection then skips.
    pub fn prepare_parallel_projection<F: Fn(usize) -> S>(&mut self, inverse: F)
        requires
            old(self).inv(),
            forall|count: usize| 1 <= count <= 4 ==> #[trigger] call_requires(inverse, (count,)),
        ensures
            final(self).inv(),
            old(self).wf() ==> final(self).wf(),
            final(self).dim() == old(self).dim(),
            final(self).cell_width() == old(self).cell_width(),
            forall|k: int|
                0 <= k < old(self)@.len() ==> {
                    let marked = old(self).marked(k, 4);
                    let after = #[trigger] final(self)@[k];
                    &&& after == (Cell {
                        pressure: after.pressure,
                        s_tot_inv: after.s_tot_inv,
                        ..marked
                    })
                    &&& crate::scene::cell::is_default(after.pressure)
                    &&& if mark_count(marked.s_nbs) == 0 {
                        crate::scene::cell::is_default(after.s_tot_inv)
                    } else {
                        call_ensures(inverse, (mark_count(marked.s_nbs) as usize,), after.s_tot_inv)
                    }
                },
    {
        self.exchange_fluid_marks();
        let n = self.cells().len();
        let ghost marked = self@;
        let mut k: usize = 0;
        while k < n
            invariant
                self.inv(),
                self.dim() == old(self).dim(),
                self.cell_width() == old(self).cell_width(),
                n == self@.len(),
                n == old(self)@.len(),
                n == marked.len(),
                k <= n,
                forall|count: usize| 1 <= count <= 4 ==> #[trigger] call_requires(inverse, (count,)),
                forall|j: int| 0 <= j < n ==> #[trigger] marked[j] == old(self).marked(j, 4),
                forall|j: int| k <= j < n ==> self@[j] == marked[j],
                forall|j: int|
                    0 <= j < k ==> {
                        let after = #[trigger] self@[j];
                        &&& after == (Cell {
                            pressure: after.pressure,
                            s_tot_inv: after.s_tot_inv,
                            ..marked[j]
                        })
                        &&& crate::scene::cell::is_default(after.pressure)
                        &&& if mark_count(marked[j].s_nbs) == 0 {
                            crate::scene::cell::is_default(after.s_tot_inv)
                        } else {
                            call_ensures(
                                inverse,
                                (mark_count(marked[j].s_nbs) as usize,),
                                after.s_tot_inv,
                            )
                        }
                    },
            decreases n - k,
        {
            let cells = self.cells_mut();
            let marks = cells[k].s_nbs;
            let mut count: usize = 0;
            if marks[0][0] {
                count += 1;
            }
            if marks[0][1] {
                count += 1;
            }
            if marks[1][0] {
                count += 1;
            }
            if marks[1][1] {
                count += 1;
            }
            assert(count == mark_count(marks));
            cells[k].pressure = S::default();
            cells[k].s_tot_inv = if count != 0 {
                inverse(count)
            } else {
                S::default()
            };
            k += 1;
        }
    }

    /// A pass that has the cell at position `k` as a center sets its two
    /// positive marks.
    proof fn lemma_marked_as_center(&self, after: Cell<S>, phase: int, k: int)
        requires
            0 <= phase < 4,
            is_center_in(self.dim(), index_at(self.dim(), k), phase),
            after == self.marked(k, phase).with_mark(
                1,
                0,
                self.marked(k + 1, phase).is_fluid(),
            ).with_mark(1, 1, self.marked(k + self.dim().x, phase).is_fluid()),
        ensures
            after == self.marked(k, phase + 1),
    {
        let index = index_at(self.dim(), k);
        lemma_one_role_per_pass(self.dim(), index, phase);
        lemma_marks_equal(after.s_nbs, self.marked(k, phase + 1).s_nbs);
    }

    /// A pass that has the `-x` neighbor of the cell at position `k` as a
    /// center sets its negative `x` mark.
    proof fn lemma_marked_as_x_neighbor(&self, after: Cell<S>, phase: int, k: int)
        requires
            0 <= phase < 4,
            index_at(self.dim(), k).x >= 1,
            is_center_in(self.dim(), negative_x(index_at(self.dim(), k)), phase),
            after == self.marked(k, phase).with_mark(0, 0, self.marked(k - 1, phase).is_fluid()),
        ensures
            after == self.marked(k, phase + 1),
    {
        let index = index_at(self.dim(), k);
        lemma_one_role_per_pass(self.dim(), index, phase);
        lemma_marks_equal(after.s_nbs, self.marked(k, phase + 1).s_nbs);
    }

    /// A pass that has the `-y` neighbor of the cell at position `k` as a
    /// center sets its negative `y` mark.
    proof fn lemma_marked_as_y_neighbor(&self, after: Cell<S>, phase: int, k: int)
        requires
            0 <= phase < 4,
            index_at(self.dim(), k).y >= 1,
            is_center_in(self.dim(), negative_y(index_at(self.dim(), k)), phase),
            after == self.marked(k, phase).with_mark(
                0,
                1,
                self.marked(k - self.dim().x, phase).is_fluid(),
            ),
        ensures
            after == self.marked(k, phase + 1),
    {
        let index = index_at(self.dim(), k);
        lemma_one_role_per_pass(self.dim(), index, phase);
        lemma_marks_equal(after.s_nbs, self.marked(k, phase + 1).s_nbs);
    }

    /// A pass that does not hand out the cell at position `k` leaves its
    /// marks as they are.
    proof fn lemma_marked_untouched(&self, phase: int, k: int)
        requires
            0 <= phase < 4,
            !is_center_in(self.dim(), index_at(self.dim(), k), phase),
            !(index_at(self.dim(), k).x >= 1 && is_center_in(
                self.dim(),
                negative_x(index_at(self.dim(), k)),
                phase,
            )),
            !(index_at(self.dim(), k).y >= 1 && is_center_in(
                self.dim(),
                negative_y(index_at(self.dim(), k)),
                phase,
            )),
        ensures
            self.marked(k, phase) == self.marked(k, phase + 1),
    {
        lemma_marks_equal(self.marked(k, phase).s_nbs, self.marked(k, phase + 1).s_nbs);
    }

    /// One pass takes the marks of a cell from their state before the pass
    /// to their state after it.
    proof fn lemma_marked_step(&self, before: Seq<Cell<S>>, after: Seq<Cell<S>>, phase: int, k: int)
        requires
            self.inv(),
            0 <= phase < 4,
            before.len() == self@.len(),
            after.len() == self@.len(),
            0 <= k < self@.len(),
            forall|p: int| 0 <= p < self@.len() ==> #[trigger] before[p] == self.marked(p, phase),
            forall|j: int|
                0 <= j < stencil_count(
                    self.dim(),
                    1 + phase_offset(phase).x,
                    1 + phase_offset(phase).y,
                ) ==> {
                    let c = #[trigger] stencil_offset(
                        self.dim(),
                        1 + phase_offset(phase).x,
                        1 + phase_offset(phase).y,
                        j,
                    );
                    &&& after[c] == before[c].with_mark(1, 0, before[c + 1].is_fluid()).with_mark(
                        1,
                        1,
                        before[c + self.dim().x].is_fluid(),
                    )
                    &&& after[c + 1] == before[c + 1].with_mark(0, 0, before[c].is_fluid())
                    &&& after[c + self.dim().x] == before[c + self.dim().x].with_mark(
                        0,
                        1,
                        before[c].is_fluid(),
                    )
                },
            forall|p: int|
                0 <= p < self@.len() && !stencil_covers(
                    self.dim(),
                    1 + phase_offset(phase).x,
                    1 + phase_offset(phase).y,
                    p,
                ) ==> #[trigger] after[p] == before[p],
        ensures
            after[k] == self.marked(k, phase + 1),
    {
        let dim = self.dim();
        let w = dim.x as int;
        let o = phase_offset(phase);
        let sx = 1 + o.x;
        let sy = 1 + o.y;
        let index = index_at(dim, k);
        lemma_offset_of_index_at(dim, k);
        let own = is_center_in(dim, index, phase);
        let left = index.x >= 1 && is_center_in(dim, negative_x(index), phase);
        let below = index.y >= 1 && is_center_in(dim, negative_y(index), phase);
        if own {
            let j = stencil_of(dim, index);
            let c = stencil_offset(dim, sx, sy, j);
            assert(0 <= j < stencil_count(dim, sx, sy) && c == k) by {
                phases_cover_interior_once(dim, index);
            }
            lemma_stencil_cells(dim, sx, sy, j);
            assert(before[k] == self.marked(k, phase));
            assert(before[k + 1] == self.marked(k + 1, phase));
            assert(before[k + w] == self.marked(k + w, phase));
            self.lemma_marked_as_center(after[k], phase, k);
        } else if left {
            let center = negative_x(index);
            let j = stencil_of(dim, center);
            let c = stencil_offset(dim, sx, sy, j);
            assert(0 <= j < stencil_count(dim, sx, sy) && c + 1 == k) by {
                phases_cover_interior_once(dim, center);
            }
            lemma_stencil_cells(dim, sx, sy, j);
            assert(before[k] == self.marked(k, phase));
            assert(before[k - 1] == self.marked(k - 1, phase));
            self.lemma_marked_as_x_neighbor(after[k], phase, k);
        } else if below {
            let center = negative_y(index);
            let j = stencil_of(dim, center);
            let c = stencil_offset(dim, sx, sy, j);
            assert(0 <= j < stencil_count(dim, sx, sy) && c + w == k) by {
                phases_cover_interior_once(dim, center);
                assert(linear_offset(dim, center) + w == k) by (nonlinear_arith)
                    requires
                        linear_offset(dim, center) == index.x + (index.y - 1) * w,
                        k == index.x + index.y * w,
                ;
            }
            lemma_stencil_cells(dim, sx, sy, j);
            assert(before[k] == self.marked(k, phase));
            assert(before[k - w] == self.marked(k - w, phase));
            self.lemma_marked_as_y_neighbor(after[k], phase, k);
        } else {
            assert(!stencil_covers(dim, sx, sy, k)) by {
                if stencil_covers(dim, sx, sy, k) {
                    lemma_covered_has_role(dim, phase, k);
                }
            }
            assert(after[k] == before[k]);
            assert(before[k] == self.marked(k, phase));
            self.lemma_marked_untouched(phase, k);
        }
    }
}

/// Whether pass `phase` has the cell `index` as a stencil center.
pub open spec fn is_center_in(dim: Index2, index: Index2, phase: int) -> bool {
    inside_border(dim, index) && phase_of(index) == phase
}

/// Within one pass a cell is at most one of: a center, the `+x` neighbor of
/// a center, the `+y` neighbor of a center.
proof fn lemma_one_role_per_pass(dim: Index2, index: Index2, phase: int)
    ensures
        !(is_center_in(dim, index, phase) && index.x >= 1 && is_center_in(
            dim,
            negative_x(index),
            phase,
        )),
        !(is_center_in(dim, index, phase) && index.y >= 1 && is_center_in(
            dim,
            negative_y(index),
            phase,
        )),
        !(index.x >= 1 && is_center_in(dim, negative_x(index), phase) && index.y >= 1
            && is_center_in(dim, negative_y(index), phase)),
{
}

/// A cell that a pass hands out is a center of the pass or the positive
/// neighbor of one.
proof fn lemma_covered_has_role(dim: Index2, phase: int, k: int)
    requires
        dim.x >= 2,
        dim.y >= 2,
        0 <= phase < 4,
        0 <= k < dim.x * dim.y,
        stencil_covers(dim, 1 + phase_offset(phase).x, 1 + phase_offset(phase).y, k),
    ensures
        ({
            let index = index_at(dim, k);
            ||| is_center_in(dim, index, phase)
            ||| index.x >= 1 && is_center_in(dim, negative_x(index), phase)
            ||| index.y >= 1 && is_center_in(dim, negative_y(index), phase)
        }),
{
    let sx = 1 + phase_offset(phase).x;
    let sy = 1 + phase_offset(phase).y;
    let index = index_at(dim, k);
    lemma_offset_of_index_at(dim, k);
    covered_cells_are_stencil_cells(dim, sx, sy, k);
    let j = choose|j: int|
        0 <= j < stencil_count(dim, sx, sy) && {
            let c = #[trigger] stencil_offset(dim, sx, sy, j);
            k == c || k == c + 1 || k == c + dim.x
        };
    let c = stencil_offset(dim, sx, sy, j);
    lemma_stencil_cells(dim, sx, sy, j);
    phase_centers_are_interior(dim, phase, j);
    let center = index_at(dim, c);
    lemma_offset_of_index_at(dim, c);
    phases_cover_interior_once(dim, center);
    assert(phase_of(center) == phase);
    if k == c {
        assert(center == index);
    } else if k == c + 1 {
        assert(center == negative_x(index));
    } else {
        assert(center == negative_y(index));
    }
}

} // verus!
