//! The Gauss-Seidel projection in its sequential form: in which order the
//! cells are relaxed, which are skipped, and which three cells each
//! relaxation may change. How a relaxation changes them is the caller's
//! arithmetic.

use crate::scene::cell::Cell;
use crate::scene::cell::is_default;
use crate::scene::grid::Grid;
use crate::scene::grid::negative_x;
use crate::scene::grid::negative_y;
use crate::scene::grid::neighbor_marks;
use crate::scene::grid::positive_x;
use crate::scene::grid::positive_y;
use crate::scene::layout::inside_border;
use crate::scene::layout::interior_indices;
use crate::scene::layout::lemma_interior_indices_inside;
use crate::scene::layout::lemma_offset_in_bounds;
use crate::scene::layout::linear_offset;
use crate::types::Index2;
use vstd::prelude::*;

verus! {

/// Whether a sweep relaxes the interior cell `index`: it holds fluid and so
/// does at least one of its four neighbors.
pub open spec fn relaxes<S>(cells: Seq<Cell<S>>, dim: Index2, index: Index2) -> bool {
    let marks = neighbor_marks(cells, dim, index);
    &&& cells[linear_offset(dim, index)].mode == crate::scene::cell::CellTypes::Fluid
    &&& (marks[0][0] || marks[0][1] || marks[1][0] || marks[1][1])
}

/// One visit of a sweep to the interior cell `index` turns `before` into
/// `after`: a cell that is not relaxed is left alone; otherwise `relax`
/// gets the cell, its `+x` and its `+y` neighbor with the fluid marks of the
/// four neighbors, its three results replace the three cells, and no other
/// cell changes.
pub open spec fn visit_relaxes<S, F: Fn(Cell<S>, Cell<S>, Cell<S>, [[bool; 2]; 2]) -> (
    Cell<S>,
    Cell<S>,
    Cell<S>,
)>(before: Seq<Cell<S>>, after: Seq<Cell<S>>, dim: Index2, index: Index2, relax: F) -> bool {
    let k = linear_offset(dim, index);
    if relaxes(before, dim, index) {
        &&& after.len() == before.len()
        &&& forall|j: int|
            0 <= j < before.len() && j != k && j != k + 1 && j != k + dim.x ==> #[trigger] after[j]
                == before[j]
        &&& call_ensures(
            relax,
            (before[k], before[k + 1], before[k + dim.x], neighbor_marks(before, dim, index)),
            (after[k], after[k + 1], after[k + dim.x]),
        )
    } else {
        after == before
    }
}

/// `visits` visits in a row turn `start` into `end`. The visits go through
/// the interior row by row, the first axis running fastest, and begin anew
/// after the last interior cell.
pub open spec fn sweeps<S, F: Fn(Cell<S>, Cell<S>, Cell<S>, [[bool; 2]; 2]) -> (
    Cell<S>,
    Cell<S>,
    Cell<S>,
)>(start: Seq<Cell<S>>, end: Seq<Cell<S>>, dim: Index2, relax: F, visits: nat) -> bool
    decreases visits,
{
    if visits == 0 {
        end == start
    } else {
        let index = interior_indices(dim)[(visits - 1) % (interior_indices(dim).len() as int)];
        exists|mid: Seq<Cell<S>>|
            #![trigger visit_relaxes(mid, end, dim, index, relax)]
            sweeps(start, mid, dim, relax, (visits - 1) as nat) && visit_relaxes(
                mid,
                end,
                dim,
                index,
                relax,
            )
    }
}

/// One more visit extends a sweep.
pub proof fn lemma_sweeps_extend<S, F: Fn(Cell<S>, Cell<S>, Cell<S>, [[bool; 2]; 2]) -> (
    Cell<S>,
    Cell<S>,
    Cell<S>,
)>(start: Seq<Cell<S>>, mid: Seq<Cell<S>>, end: Seq<Cell<S>>, dim: Index2, relax: F, visits: nat)
    requires
        sweeps(start, mid, dim, relax, visits),
        visit_relaxes(
            mid,
            end,
            dim,
            interior_indices(dim)[(visits as int) % (interior_indices(dim).len() as int)],
            relax,
        ),
    ensures
        sweeps(start, end, dim, relax, visits + 1),
{
    let next = visits + 1;
    assert((next - 1) as nat == visits);
    assert(sweeps(start, mid, dim, relax, (next - 1) as nat));
}

/// Whatever `relax` returns, each cell keeps its index.
pub open spec fn keeps_indices<S, F: Fn(Cell<S>, Cell<S>, Cell<S>, [[bool; 2]; 2]) -> (
    Cell<S>,
    Cell<S>,
    Cell<S>,
)>(relax: F) -> bool {
    forall|c: Cell<S>, x: Cell<S>, y: Cell<S>, marks: [[bool; 2]; 2], r: (Cell<S>, Cell<S>, Cell<S>)| #[trigger]
        call_ensures(relax, (c, x, y, marks), r) ==> r.0.index == c.index && r.1.index == x.index
            && r.2.index == y.index
}

/// `after` is `before` with every pressure reset to the default value of
/// `S`.
pub open spec fn pressure_cleared<S: Default>(before: Seq<Cell<S>>, after: Seq<Cell<S>>) -> bool {
    &&& after.len() == before.len()
    &&& forall|k: int|
        0 <= k < before.len() ==> is_default((#[trigger] after[k]).pressure) && after[k] == (Cell {
            pressure: after[k].pressure,
            ..before[k]
        })
}

impl<S: Copy + Default> Grid<S> {
    /// The sequential projection: resets every pressure, then sweeps
    /// `iterations` times over the interior in row-major order and relaxes
    /// each fluid cell that has a fluid neighbor, in place, so that each
    /// relaxation sees the results of those before it.
    pub fn solve_incompressibility_sequential<F: Fn(
        Cell<S>,
        Cell<S>,
        Cell<S>,
        [[bool; 2]; 2],
    ) -> (Cell<S>, Cell<S>, Cell<S>)>(&mut self, iterations: u64, relax: F)
        requires
            old(self).inv(),
            forall|c: Cell<S>, x: Cell<S>, y: Cell<S>, marks: [[bool; 2]; 2]| #[trigger]
                call_requires(relax, (c, x, y, marks)),
        ensures
            final(self).inv(),
            old(self).wf() && keeps_indices(relax) ==> final(self).wf(),
            final(self).dim() == old(self).dim(),
            final(self).cell_width() == old(self).cell_width(),
            exists|cleared: Seq<Cell<S>>|
                #![trigger pressure_cleared(old(self)@, cleared)]
                pressure_cleared(old(self)@, cleared) && sweeps(
                    cleared,
                    final(self)@,
                    old(self).dim(),
                    relax,
                    (iterations * interior_indices(old(self).dim()).len()) as nat,
                ),
    {
        let n = self.cells().len();
        let dim = self.dim();
        let mut k: usize = 0;
        while k < n
            invariant
                self.inv(),
                self.dim() == old(self).dim(),
                self.cell_width() == old(self).cell_width(),
                n == self@.len(),
                n == old(self)@.len(),
                k <= n,
                forall|j: int| 0 <= j < n ==> (#[trigger] self@[j]).index == old(self)@[j].index,
                forall|j: int| k <= j < n ==> self@[j] == old(self)@[j],
                forall|j: int|
                    0 <= j < k ==> is_default((#[trigger] self@[j]).pressure) && self@[j] == (Cell {
                        pressure: self@[j].pressure,
                        ..old(self)@[j]
                    }),
            decreases n - k,
        {
            let cells = self.cells_mut();
            cells[k].pressure = S::default();
            k += 1;
        }
        let ghost cleared = self@;
        let ghost count = interior_indices(dim).len() as int;
        let ghost visits: nat = 0;
        let mut iter: u64 = 0;
        while iter < iterations
            invariant
                self.inv(),
                dim == self.dim(),
                self.dim() == old(self).dim(),
                self.cell_width() == old(self).cell_width(),
                count == interior_indices(dim).len(),
                iter <= iterations,
                visits == iter * count,
                self@.len() == old(self)@.len(),
                keeps_indices(relax) ==> forall|j: int|
                    0 <= j < self@.len() ==> (#[trigger] self@[j]).index == old(self)@[j].index,
                pressure_cleared(old(self)@, cleared),
                sweeps(cleared, self@, dim, relax, visits),
                forall|c: Cell<S>, x: Cell<S>, y: Cell<S>, marks: [[bool; 2]; 2]| #[trigger]
                    call_requires(relax, (c, x, y, marks)),
            decreases iterations - iter,
        {
            let mut it = self.iter_index_inside();
            let ghost all = it@;
            let ghost done: int = 0;
            loop
                invariant
                    self.inv(),
                    dim == self.dim(),
                    self.dim() == old(self).dim(),
                    self.cell_width() == old(self).cell_width(),
                    all == interior_indices(dim),
                    count == all.len(),
                    0 <= done <= count,
                    it@ == all.skip(done),
                    visits == iter * count + done,
                    iter < iterations,
                    self@.len() == old(self)@.len(),
                    keeps_indices(relax) ==> forall|j: int|
                        0 <= j < self@.len() ==> (#[trigger] self@[j]).index == old(self)@[j].index,
                    sweeps(cleared, self@, dim, relax, visits),
                    forall|c: Cell<S>, x: Cell<S>, y: Cell<S>, marks: [[bool; 2]; 2]| #[trigger]
                        call_requires(relax, (c, x, y, marks)),
                ensures
                    done == count,
                decreases count - done,
            {
                let index = match it.next() {
                    Some(index) => index,
                    None => {
                        break ;
                    },
                };
                let ghost before = self@;
                proof {
                    assert(index == all[done]);
                    lemma_interior_indices_inside(dim, done);
                    assert(iter * count >= 0) by (nonlinear_arith)
                        requires
                            iter >= 0,
                            count >= 0,
                    ;
                    vstd::arithmetic::div_mod::lemma_fundamental_div_mod_converse(
                        visits as int,
                        count,
                        iter as int,
                        done,
                    );
                    lemma_offset_in_bounds(dim, index);
                    lemma_offset_in_bounds(dim, positive_x(index));
                    lemma_offset_in_bounds(dim, positive_y(index));
                    lemma_offset_in_bounds(dim, negative_x(index));
                    lemma_offset_in_bounds(dim, negative_y(index));
                }
                let marks = self.fluid_neighbors(index);
                let relaxed = self.cell(index).is_fluid() && (marks[0][0] || marks[0][1]
                    || marks[1][0] || marks[1][1]);
                if relaxed {
                    let nbs = Self::get_neighbors_indices(index);
                    let c = *self.cell(index);
                    let x = *self.cell(nbs[1][0]);
                    let y = *self.cell(nbs[1][1]);
                    let (c2, x2, y2) = relax(c, x, y, marks);
                    *self.cell_mut(index) = c2;
                    *self.cell_mut(nbs[1][0]) = x2;
                    *self.cell_mut(nbs[1][1]) = y2;
                    proof {
                        let o = linear_offset(dim, index);
                        assert(linear_offset(dim, positive_x(index)) == o + 1);
                        assert(linear_offset(dim, positive_y(index)) == o + dim.x) by (nonlinear_arith)
                            requires
                                linear_offset(dim, positive_y(index)) == index.x + (index.y + 1)
                                    * dim.x,
                                o == index.x + index.y * dim.x,
                        ;
                        assert(call_ensures(
                            relax,
                            (
                                before[o],
                                before[o + 1],
                                before[o + dim.x],
                                neighbor_marks(before, dim, index),
                            ),
                            (self@[o], self@[o + 1], self@[o + dim.x]),
                        ));
                    }
                }
                proof {
                    assert(visit_relaxes(before, self@, dim, index, relax));
                    assert(visits as int % count == done);
                    lemma_sweeps_extend(cleared, before, self@, dim, relax, visits);
                    visits = visits + 1;
                    done = done + 1;
                }
            }
            iter += 1;
            proof {
                assert(iter * count == (iter - 1) * count + count) by (nonlinear_arith);
            }
        }
    }
}

} // verus!
