//! Integration of body forces: which cells are accelerated, and in which
//! order the cells of the ghost layer then take over velocities from the
//! interior. The arithmetic of both is the caller's.

use crate::scene::cell::Cell;
use crate::scene::grid::Grid;
use crate::scene::layout::inside_grid;
use crate::scene::layout::lemma_offset_in_bounds;
use crate::scene::layout::linear_offset;
use crate::types::FrontBackBuffer;
use crate::types::Index2;
use vstd::array::spec_array_update;
use vstd::prelude::*;

verus! {

/// The cells of the ghost layer of a grid of extent `dim` in the order in
/// which velocities are extrapolated to them: the left column, the right
/// column, the bottom row, the top row, each from its low end. The corners
/// come twice.
pub open spec fn border_indices(dim: Index2) -> Seq<Index2> {
    Seq::new(
        (2 * dim.y + 2 * dim.x) as nat,
        |j: int|
            if j < dim.y {
                Index2 { x: 0, y: j as usize }
            } else if j < 2 * dim.y {
                Index2 { x: (dim.x - 1) as usize, y: (j - dim.y) as usize }
            } else if j < 2 * dim.y + dim.x {
                Index2 { x: (j - 2 * dim.y) as usize, y: 0 }
            } else {
                Index2 { x: (j - 2 * dim.y - dim.x) as usize, y: (dim.y - 1) as usize }
            },
    )
}

/// `after` is `before` with the body force applied: each fluid cell has its
/// `back` velocity replaced by what `accelerate` makes of it, and nothing
/// else changes.
pub open spec fn accelerated<S, A: Fn([S; 2]) -> [S; 2]>(
    before: Seq<Cell<S>>,
    after: Seq<Cell<S>>,
    accelerate: A,
) -> bool {
    &&& after.len() == before.len()
    &&& forall|k: int|
        0 <= k < before.len() ==> if before[k].mode == crate::scene::cell::CellTypes::Fluid {
            &&& call_ensures(accelerate, (before[k].velocity.back,), (#[trigger] after[k]).velocity.back)
            &&& after[k] == (Cell {
                velocity: FrontBackBuffer {
                    front: before[k].velocity.front,
                    back: after[k].velocity.back,
                },
                ..before[k]
            })
        } else {
            after[k] == before[k]
        }
}

impl<S: Copy + Default> Grid<S> {
    /// `after` is this grid with component `dir` of the `back` velocity of
    /// the cell `index` replaced by `v`.
    pub open spec fn with_back_velocity(&self, after: &Self, index: Index2, dir: int, v: S) -> bool {
        let k = linear_offset(self.dim(), index);
        &&& after.dim() == self.dim()
        &&& after.cell_width() == self.cell_width()
        &&& after@ == self@.update(
            k,
            Cell {
                velocity: FrontBackBuffer {
                    front: self@[k].velocity.front,
                    back: spec_array_update(self@[k].velocity.back, dir, v),
                },
                ..self@[k]
            },
        )
    }

    /// One extrapolation step turns this grid into `after`: a fluid cell
    /// `index` takes for component `dir` of its `back` velocity what
    /// `extrapolate` returns on the grid as it stands; a solid cell is left
    /// alone.
    pub open spec fn step_extrapolates<E: Fn(&Grid<S>, Index2, usize) -> S>(
        &self,
        after: &Self,
        index: Index2,
        dir: int,
        extrapolate: E,
    ) -> bool {
        if self.spec_cell(index).is_fluid() {
            exists|v: S|
                #![trigger self.with_back_velocity(after, index, dir, v)]
                call_ensures(extrapolate, (self, index, dir as usize), v) && self.with_back_velocity(
                    after,
                    index,
                    dir,
                    v,
                )
        } else {
            &&& after.dim() == self.dim()
            &&& after.cell_width() == self.cell_width()
            &&& after@ == self@
        }
    }

    /// `steps` extrapolation steps in a row turn this grid into `end`. The
    /// steps go through [`border_indices`] and take the two velocity
    /// components of each cell in turn.
    pub open spec fn extrapolates<E: Fn(&Grid<S>, Index2, usize) -> S>(
        &self,
        end: &Self,
        extrapolate: E,
        steps: nat,
    ) -> bool
        decreases steps,
    {
        if steps == 0 {
            &&& end.dim() == self.dim()
            &&& end.cell_width() == self.cell_width()
            &&& end@ == self@
        } else {
            let index = border_indices(self.dim())[(steps - 1) / 2];
            let dir = (steps - 1) % 2;
            exists|mid: Grid<S>|
                #![trigger mid.step_extrapolates(end, index, dir, extrapolate)]
                self.extrapolates(&mid, extrapolate, (steps - 1) as nat) && mid.step_extrapolates(
                    end,
                    index,
                    dir,
                    extrapolate,
                )
        }
    }

    /// The cells of the ghost layer in the order of [`border_indices`].
    pub fn border(&self) -> (r: Vec<Index2>)
        requires
            self.inv(),
        ensures
            r@ == border_indices(self.dim()),
    {
        let dim = self.dim();
        let mut r: Vec<Index2> = Vec::new();
        let mut j: usize = 0;
        while j < dim.y
            invariant
                j <= dim.y,
                r.len() == j,
                forall|i: int| 0 <= i < r.len() ==> r[i] == border_indices(dim)[i],
            decreases dim.y - j,
        {
            r.push(Index2::new(0, j));
            j += 1;
        }
        j = 0;
        while j < dim.y
            invariant
                dim.x >= 2,
                j <= dim.y,
                r.len() == dim.y + j,
                forall|i: int| 0 <= i < r.len() ==> r[i] == border_indices(dim)[i],
            decreases dim.y - j,
        {
            r.push(Index2::new(dim.x - 1, j));
            j += 1;
        }
        j = 0;
        while j < dim.x
            invariant
                j <= dim.x,
                r.len() == 2 * dim.y + j,
                forall|i: int| 0 <= i < r.len() ==> r[i] == border_indices(dim)[i],
            decreases dim.x - j,
        {
            r.push(Index2::new(j, 0));
            j += 1;
        }
        j = 0;
        while j < dim.x
            invariant
                dim.y >= 2,
                j <= dim.x,
                r.len() == 2 * dim.y + dim.x + j,
                forall|i: int| 0 <= i < r.len() ==> r[i] == border_indices(dim)[i],
            decreases dim.x - j,
        {
            r.push(Index2::new(j, dim.y - 1));
            j += 1;
        }
        assert(r@ =~= border_indices(dim));
        r
    }

    /// Integrates body forces: `accelerate` is applied to the `back` velocity
    /// of every fluid cell, solid cells keep theirs. Then the ghost layer is
    /// filled in: going through [`border_indices`], each fluid cell takes for
    /// each velocity component what `extrapolate` returns for it on the grid
    /// as it then stands.
    pub fn integrate<A: Fn([S; 2]) -> [S; 2], E: Fn(&Grid<S>, Index2, usize) -> S>(
        &mut self,
        accelerate: A,
        extrapolate: E,
    )
        requires
            old(self).inv(),
            forall|v: [S; 2]| #[trigger] call_requires(accelerate, (v,)),
            forall|g: Grid<S>, index: Index2, dir: usize|
                g.inv() && g.dim() == old(self).dim() && inside_grid(g.dim(), index) && dir < 2
                    ==> #[trigger] call_requires(extrapolate, (&g, index, dir)),
        ensures
            final(self).inv(),
            old(self).wf() ==> final(self).wf(),
            final(self).dim() == old(self).dim(),
            final(self).cell_width() == old(self).cell_width(),
            exists|forced: Grid<S>|
                #![trigger accelerated(old(self)@, forced@, accelerate)]
                forced.dim() == old(self).dim() && forced.cell_width() == old(self).cell_width()
                    && accelerated(old(self)@, forced@, accelerate) && forced.extrapolates(
                    final(self),
                    extrapolate,
                    (2 * border_indices(old(self).dim()).len()) as nat,
                ),
    {
        let n = self.cells().len();
        let dim = self.dim();
        let mut k: usize = 0;
        while k < n
            invariant
                self.inv(),
                self.dim() == old(self).dim(),
                self.cell_width() == old(self).cell_width(),
                n == self@.len(),
                n == old(self)@.len(),
                k <= n,
                forall|j: int| 0 <= j < n ==> (#[trigger] self@[j]).index == old(self)@[j].index,
                forall|v: [S; 2]| #[trigger] call_requires(accelerate, (v,)),
                forall|j: int| k <= j < n ==> self@[j] == old(self)@[j],
                forall|j: int|
                    0 <= j < k ==> if old(self)@[j].mode == crate::scene::cell::CellTypes::Fluid {
                        &&& call_ensures(
                            accelerate,
                            (old(self)@[j].velocity.back,),
                            (#[trigger] self@[j]).velocity.back,
                        )
                        &&& self@[j] == (Cell {
                            velocity: FrontBackBuffer {
                                front: old(self)@[j].velocity.front,
                                back: self@[j].velocity.back,
                            },
                            ..old(self)@[j]
                        })
                    } else {
                        self@[j] == old(self)@[j]
                    },
            decreases n - k,
        {
            let cells = self.cells_mut();
            cells[k].integrate(&accelerate);
            k += 1;
        }
        let ghost forced = *self;
        let border = self.border();
        let ghost steps: nat = 0;
        let mut j: usize = 0;
        while j < border.len()
            invariant
                self.inv(),
                dim == self.dim(),
                self.dim() == old(self).dim(),
                self.cell_width() == old(self).cell_width(),
                forced.dim() == self.dim(),
                forced.cell_width() == self.cell_width(),
                border@ == border_indices(dim),
                j <= border.len(),
                steps == 2 * j,
                self@.len() == old(self)@.len(),
                forall|i: int|
                    0 <= i < self@.len() ==> (#[trigger] self@[i]).index == old(self)@[i].index,
                forced.extrapolates(&*self, extrapolate, steps),
                forall|g: Grid<S>, index: Index2, dir: usize|
                    g.inv() && g.dim() == old(self).dim() && inside_grid(g.dim(), index) && dir < 2
                        ==> #[trigger] call_requires(extrapolate, (&g, index, dir)),
            decreases border.len() - j,
        {
            let index = border[j];
            assert(index == border_indices(dim)[j as int]);
            assert(inside_grid(dim, index));
            let mut dir: usize = 0;
            while dir < 2
                invariant
                    self.inv(),
                    dim == self.dim(),
                    self.dim() == old(self).dim(),
                    self.cell_width() == old(self).cell_width(),
                    forced.dim() == self.dim(),
                    forced.cell_width() == self.cell_width(),
                    j < border.len(),
                    border@ == border_indices(dim),
                    index == border_indices(dim)[j as int],
                    inside_grid(dim, index),
                    dir <= 2,
                    steps == 2 * j + dir,
                    self@.len() == old(self)@.len(),
                    forall|i: int|
                        0 <= i < self@.len() ==> (#[trigger] self@[i]).index == old(self)@[i].index,
                    forced.extrapolates(&*self, extrapolate, steps),
                    forall|g: Grid<S>, index: Index2, dir: usize|
                        g.inv() && g.dim() == old(self).dim() && inside_grid(g.dim(), index) && dir
                            < 2 ==> #[trigger] call_requires(extrapolate, (&g, index, dir)),
                decreases 2 - dir,
            {
                let ghost seen = *self;
                proof {
                    lemma_offset_in_bounds(dim, index);
                }
                if self.cell(index).is_fluid() {
                    let v = extrapolate(&*self, index, dir);
                    self.cell_mut(index).velocity.back[dir] = v;
                    proof {
                        assert(self@ =~= seen@.update(
                            linear_offset(dim, index),
                            Cell {
                                velocity: FrontBackBuffer {
                                    front: seen@[linear_offset(dim, index)].velocity.front,
                                    back: spec_array_update(
                                        seen@[linear_offset(dim, index)].velocity.back,
                                        dir as int,
                                        v,
                                    ),
                                },
                                ..seen@[linear_offset(dim, index)]
                            },
                        ));
                        assert(seen.with_back_velocity(&*self, index, dir as int, v));
                    }
                }
                proof {
                    assert(seen.step_extrapolates(&*self, index, dir as int, extrapolate));
                    let next = steps + 1;
                    assert((next - 1) as nat == steps);
                    assert((next - 1) / 2 == j && (next - 1) % 2 == dir);
                    assert(forced.extrapolates(&seen, extrapolate, (next - 1) as nat));
                    assert(forced.extrapolates(&*self, extrapolate, next));
                    steps = next;
                }
                dir += 1;
            }
            j += 1;
        }
        proof {
            assert(accelerated(old(self)@, forced@, accelerate));
        }
    }
}

} // verus!
