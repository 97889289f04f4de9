//! Semi-Lagrangian advection: which values a pass replaces, and the strict
//! discipline of reading from `back` and writing to `front`. What a value is
//! replaced by is computed by the caller.

use crate::scene::cell::Cell;
use crate::scene::grid::Grid;
use crate::scene::grid::negative_x;
use crate::scene::grid::negative_y;
use crate::scene::layout::index_at;
use crate::scene::layout::inside_border;
use crate::scene::layout::lemma_offset_of_index_at;
use crate::types::FrontBackBuffer;
use crate::types::Index2;
use vstd::prelude::*;

verus! {

/// The negative neighbor of `index` along axis `dir`.
pub open spec fn negative_neighbor(index: Index2, dir: int) -> Index2 {
    if dir == 0 {
        negative_x(index)
    } else {
        negative_y(index)
    }
}

impl<S: Copy + Default> Grid<S> {
    /// Whether a pass transports velocity component `dir` of the cell
    /// `index`: the cell lies inside the ghost layer and holds fluid, and so
    /// does its negative neighbor along `dir`, with which it shares the face
    /// that carries the component.
    pub open spec fn advects_velocity(&self, index: Index2, dir: int) -> bool {
        &&& inside_border(self.dim(), index)
        &&& self.spec_cell(index).is_fluid()
        &&& self.spec_cell(negative_neighbor(index, dir)).is_fluid()
    }

    /// `other` is this grid but for the `front` velocities of its cells.
    pub open spec fn same_but_front_velocity(&self, other: &Self) -> bool {
        &&& other.dim() == self.dim()
        &&& other.cell_width() == self.cell_width()
        &&& other@.len() == self@.len()
        &&& forall|k: int|
            0 <= k < self@.len() ==> #[trigger] other@[k] == (Cell {
                velocity: FrontBackBuffer {
                    front: other@[k].velocity.front,
                    back: self@[k].velocity.back,
                },
                ..self@[k]
            })
    }

    /// Whether `v` is what a velocity pass with `backtrace` may leave in
    /// component `dir` of the cell `index`: for a transported component a
    /// result of `backtrace`, called on a grid that shows every `back`
    /// value as it was before the pass; for any other the old value.
    pub open spec fn advected_velocity<F: Fn(&Grid<S>, Index2, usize) -> S>(
        &self,
        backtrace: F,
        index: Index2,
        dir: int,
        v: S,
    ) -> bool {
        if self.advects_velocity(index, dir) {
            exists|g: Grid<S>|
                self.same_but_front_velocity(&g) && #[trigger] call_ensures(
                    backtrace,
                    (&g, index, dir as usize),
                    v,
                )
        } else {
            v == self.spec_cell(index).velocity.back[dir]
        }
    }

    /// Transports the velocity. Every component that
    /// [`advects_velocity`](Self::advects_velocity) names is replaced by what
    /// `backtrace` returns for it; all others stay. `backtrace` sees the grid
    /// with every `back` velocity as it was before the pass: the pass writes
    /// to `front` only and swaps the buffers of all cells once at its end, so
    /// that afterwards `back` holds the new and `front` the old velocity.
    pub fn advect_velocity<F: Fn(&Grid<S>, Index2, usize) -> S>(&mut self, backtrace: F)
        requires
            old(self).inv(),
            forall|g: Grid<S>, index: Index2, dir: usize|
                old(self).same_but_front_velocity(&g) && inside_border(old(self).dim(), index)
                    && dir < 2 ==> #[trigger] call_requires(backtrace, (&g, index, dir)),
        ensures
            final(self).inv(),
            old(self).wf() ==> final(self).wf(),
            final(self).dim() == old(self).dim(),
            final(self).cell_width() == old(self).cell_width(),
            forall|k: int|
                0 <= k < old(self)@.len() ==> {
                    let index = index_at(old(self).dim(), k);
                    let before = old(self)@[k];
                    let after = #[trigger] final(self)@[k];
                    &&& after == (Cell {
                        velocity: FrontBackBuffer {
                            front: before.velocity.back,
                            back: after.velocity.back,
                        },
                        ..before
                    })
                    &&& old(self).advected_velocity(backtrace, index, 0, after.velocity.back[0])
                    &&& old(self).advected_velocity(backtrace, index, 1, after.velocity.back[1])
                },
    {
        let n = self.cells().len();
        let dim = self.dim();
        let w = dim.x;
        let mut k: usize = 0;
        while k < n
            invariant
                self.inv(),
                self.dim() == old(self).dim(),
                self.cell_width() == old(self).cell_width(),
                n == self@.len(),
                k <= n,
                forall|j: int|
                    0 <= j < n ==> #[trigger] self@[j] == (Cell {
                        velocity: FrontBackBuffer {
                            front: self@[j].velocity.front,
                            back: old(self)@[j].velocity.back,
                        },
                        ..old(self)@[j]
                    }),
                forall|j: int| 0 <= j < k ==> (#[trigger] self@[j]).velocity.front == old(self)@[j].velocity.back,
            decreases n - k,
        {
            let cells = self.cells_mut();
            cells[k].velocity.front = cells[k].velocity.back;
            k += 1;
        }
        k = 0;
        while k < n
            invariant
                self.inv(),
                dim == self.dim(),
                w == dim.x,
                self.dim() == old(self).dim(),
                self.cell_width() == old(self).cell_width(),
                n == self@.len(),
                k <= n,
                old(self).same_but_front_velocity(&*self),
                forall|g: Grid<S>, index: Index2, dir: usize|
                    old(self).same_but_front_velocity(&g) && inside_border(old(self).dim(), index)
                        && dir < 2 ==> #[trigger] call_requires(backtrace, (&g, index, dir)),
                forall|j: int|
                    k <= j < n ==> (#[trigger] self@[j]).velocity.front == old(self)@[j].velocity.back,
                forall|j: int|
                    0 <= j < k ==> {
                        let index = index_at(dim, j);
                        let front = (#[trigger] self@[j]).velocity.front;
                        &&& old(self).advected_velocity(backtrace, index, 0, front[0])
                        &&& old(self).advected_velocity(backtrace, index, 1, front[1])
                    },
            decreases n - k,
        {
            let index = Index2::new(k % w, k / w);
            proof {
                lemma_offset_of_index_at(dim, k as int);
            }
            if self.is_inside_border(index) && self.cell(index).is_fluid() {
                let nbs = Self::get_neighbors_indices(index);
                let mut dir: usize = 0;
                while dir < 2
                    invariant
                        self.inv(),
                        dim == self.dim(),
                        self.dim() == old(self).dim(),
                        self.cell_width() == old(self).cell_width(),
                        n == self@.len(),
                        k < n,
                        dir <= 2,
                        index == index_at(dim, k as int),
                        k == crate::scene::layout::linear_offset(dim, index),
                        inside_border(dim, index),
                        self.spec_cell(index).is_fluid(),
                        nbs[0][0] == negative_x(index),
                        nbs[0][1] == negative_y(index),
                        old(self).same_but_front_velocity(&*self),
                        forall|g: Grid<S>, index: Index2, dir: usize|
                            old(self).same_but_front_velocity(&g) && inside_border(
                                old(self).dim(),
                                index,
                            ) && dir < 2 ==> #[trigger] call_requires(backtrace, (&g, index, dir)),
                        forall|j: int|
                            k < j < n ==> (#[trigger] self@[j]).velocity.front == old(
                                self,
                            )@[j].velocity.back,
                        forall|j: int|
                            0 <= j < k ==> {
                                let index = index_at(dim, j);
                                let front = (#[trigger] self@[j]).velocity.front;
                                &&& old(self).advected_velocity(backtrace, index, 0, front[0])
                                &&& old(self).advected_velocity(backtrace, index, 1, front[1])
                            },
                        forall|d: int|
                            0 <= d < dir ==> old(self).advected_velocity(
                                backtrace,
                                index,
                                d,
                                #[trigger] self@[k as int].velocity.front[d],
                            ),
                        forall|d: int|
                            dir <= d < 2 ==> #[trigger] self@[k as int].velocity.front[d] == old(
                                self,
                            )@[k as int].velocity.back[d],
                    decreases 2 - dir,
                {
                    let ghost seen = *self;
                    let ghost nb = negative_neighbor(index, dir as int);
                    proof {
                        crate::scene::layout::lemma_offset_in_bounds(dim, nb);
                        let o = crate::scene::layout::linear_offset(dim, nb);
                        assert(seen@[o].mode == old(self)@[o].mode);
                        assert(seen@[k as int].mode == old(self)@[k as int].mode);
                    }
                    if self.cell(nbs[0][dir]).is_fluid() {
                        let v = backtrace(&*self, index, dir);
                        self.cell_mut(index).velocity.front[dir] = v;
                        proof {
                            assert(old(self).advects_velocity(index, dir as int));
                            assert(old(self).same_but_front_velocity(&seen));
                            assert(call_ensures(backtrace, (&seen, index, dir), v));
                            assert(old(self).advected_velocity(backtrace, index, dir as int, v));
                        }
                    } else {
                        assert(!old(self).advects_velocity(index, dir as int));
                    }
                    proof {
                        assert(forall|j: int| 0 <= j < n && j != k ==> self@[j] == seen@[j]);
                        assert forall|d: int| 0 <= d < dir + 1 implies old(self).advected_velocity(
                            backtrace,
                            index,
                            d,
                            #[trigger] self@[k as int].velocity.front[d],
                        ) by {
                            if d < dir {
                                assert(self@[k as int].velocity.front[d] == seen@[k as int].velocity.front[d]);
                            }
                        }
                    }
                    dir += 1;
                }
            }
            k += 1;
        }
        k = 0;
        while k < n
            invariant
                self.inv(),
                dim == self.dim(),
                self.dim() == old(self).dim(),
                self.cell_width() == old(self).cell_width(),
                n == self@.len(),
                n == old(self)@.len(),
                k <= n,
                forall|j: int|
                    k <= j < n ==> {
                        let index = index_at(dim, j);
                        let cell = #[trigger] self@[j];
                        &&& cell == (Cell {
                            velocity: FrontBackBuffer {
                                front: cell.velocity.front,
                                back: old(self)@[j].velocity.back,
                            },
                            ..old(self)@[j]
                        })
                        &&& old(self).advected_velocity(backtrace, index, 0, cell.velocity.front[0])
                        &&& old(self).advected_velocity(backtrace, index, 1, cell.velocity.front[1])
                    },
                forall|j: int|
                    0 <= j < k ==> {
                        let index = index_at(dim, j);
                        let before = old(self)@[j];
                        let after = #[trigger] self@[j];
                        &&& after == (Cell {
                            velocity: FrontBackBuffer {
                                front: before.velocity.back,
                                back: after.velocity.back,
                            },
                            ..before
                        })
                        &&& old(self).advected_velocity(backtrace, index, 0, after.velocity.back[0])
                        &&& old(self).advected_velocity(backtrace, index, 1, after.velocity.back[1])
                    },
            decreases n - k,
        {
            let cells = self.cells_mut();
            cells[k].velocity.swap();
            k += 1;
        }
    }

    /// Whether a pass transports the smoke of the cell `index`: the cell
    /// lies inside the ghost layer and holds fluid.
    pub open spec fn advects_smoke(&self, index: Index2) -> bool {
        inside_border(self.dim(), index) && self.spec_cell(index).is_fluid()
    }

    /// `other` is this grid but for the `front` smoke of its cells.
    pub open spec fn same_but_front_smoke(&self, other: &Self) -> bool {
        &&& other.dim() == self.dim()
        &&& other.cell_width() == self.cell_width()
        &&& other@.len() == self@.len()
        &&& forall|k: int|
            0 <= k < self@.len() ==> #[trigger] other@[k] == (Cell {
                smoke: FrontBackBuffer { front: other@[k].smoke.front, back: self@[k].smoke.back },
                ..self@[k]
            })
    }

    /// Whether `v` is what a smoke pass with `backtrace` may leave in the
    /// cell `index`: for a transported cell a result of `backtrace`, called
    /// on a grid that shows every `back` value as it was before the pass; for
    /// any other the old value.
    pub open spec fn advected_smoke<F: Fn(&Grid<S>, Index2) -> S>(
        &self,
        backtrace: F,
        index: Index2,
        v: S,
    ) -> bool {
        if self.advects_smoke(index) {
            exists|g: Grid<S>|
                self.same_but_front_smoke(&g) && #[trigger] call_ensures(backtrace, (&g, index), v)
        } else {
            v == self.spec_cell(index).smoke.back
        }
    }

    /// Transports the smoke. The smoke of every fluid cell inside the ghost
    /// layer is replaced by what `backtrace` returns for it; all others stay.
    /// `backtrace` sees the grid with every `back` smoke value as it was
    /// before the pass: the pass writes to `front` only and swaps the buffers
    /// of all cells once at its end.
    pub fn advect_smoke<F: Fn(&Grid<S>, Index2) -> S>(&mut self, backtrace: F)
        requires
            old(self).inv(),
            forall|g: Grid<S>, index: Index2|
                old(self).same_but_front_smoke(&g) && inside_border(old(self).dim(), index)
                    ==> #[trigger] call_requires(backtrace, (&g, index)),
        ensures
            final(self).inv(),
            old(self).wf() ==> final(self).wf(),
            final(self).dim() == old(self).dim(),
            final(self).cell_width() == old(self).cell_width(),
            forall|k: int|
                0 <= k < old(self)@.len() ==> {
                    let index = index_at(old(self).dim(), k);
                    let before = old(self)@[k];
                    let after = #[trigger] final(self)@[k];
                    &&& after == (Cell {
                        smoke: FrontBackBuffer { front: before.smoke.back, back: after.smoke.back },
                        ..before
                    })
                    &&& old(self).advected_smoke(backtrace, index, after.smoke.back)
                },
    {
        let n = self.cells().len();
        let dim = self.dim();
        let w = dim.x;
        let mut k: usize = 0;
        while k < n
            invariant
                self.inv(),
                self.dim() == old(self).dim(),
                self.cell_width() == old(self).cell_width(),
                n == self@.len(),
                k <= n,
                forall|j: int|
                    0 <= j < n ==> #[trigger] self@[j] == (Cell {
                        smoke: FrontBackBuffer {
                            front: self@[j].smoke.front,
                            back: old(self)@[j].smoke.back,
                        },
                        ..old(self)@[j]
                    }),
                forall|j: int| 0 <= j < k ==> (#[trigger] self@[j]).smoke.front == old(self)@[j].smoke.back,
            decreases n - k,
        {
            let cells = self.cells_mut();
            cells[k].smoke.front = cells[k].smoke.back;
            k += 1;
        }
        k = 0;
        while k < n
            invariant
                self.inv(),
                dim == self.dim(),
                w == dim.x,
                self.dim() == old(self).dim(),
                self.cell_width() == old(self).cell_width(),
                n == self@.len(),
                k <= n,
                old(self).same_but_front_smoke(&*self),
                forall|g: Grid<S>, index: Index2|
                    old(self).same_but_front_smoke(&g) && inside_border(old(self).dim(), index)
                        ==> #[trigger] call_requires(backtrace, (&g, index)),
                forall|j: int| k <= j < n ==> (#[trigger] self@[j]).smoke.front == old(self)@[j].smoke.back,
                forall|j: int|
                    0 <= j < k ==> old(self).advected_smoke(
                        backtrace,
                        index_at(dim, j),
                        (#[trigger] self@[j]).smoke.front,
                    ),
            decreases n - k,
        {
            let index = Index2::new(k % w, k / w);
            proof {
                lemma_offset_of_index_at(dim, k as int);
            }
            let ghost seen = *self;
            proof {
                assert(seen@[k as int].mode == old(self)@[k as int].mode);
            }
            if self.is_inside_border(index) && self.cell(index).is_fluid() {
                let v = backtrace(&*self, index);
                self.cell_mut(index).smoke.front = v;
                proof {
                    assert(old(self).advects_smoke(index));
                    assert(old(self).same_but_front_smoke(&seen));
                    assert(call_ensures(backtrace, (&seen, index), v));
                }
            } else {
                assert(!old(self).advects_smoke(index));
            }
            proof {
                assert(forall|j: int| 0 <= j < n && j != k ==> self@[j] == seen@[j]);
            }
            k += 1;
        }
        k = 0;
        while k < n
            invariant
                self.inv(),
                dim == self.dim(),
                self.dim() == old(self).dim(),
                self.cell_width() == old(self).cell_width(),
                n == self@.len(),
                n == old(self)@.len(),
                k <= n,
                forall|j: int|
                    k <= j < n ==> {
                        let cell = #[trigger] self@[j];
                        &&& cell == (Cell {
                            smoke: FrontBackBuffer {
                                front: cell.smoke.front,
                                back: old(self)@[j].smoke.back,
                            },
                            ..old(self)@[j]
                        })
                        &&& old(self).advected_smoke(backtrace, index_at(dim, j), cell.smoke.front)
                    },
                forall|j: int|
                    0 <= j < k ==> {
                        let before = old(self)@[j];
                        let after = #[trigger] self@[j];
                        &&& after == (Cell {
                            smoke: FrontBackBuffer {
                                front: before.smoke.back,
                                back: after.smoke.back,
                            },
                            ..before
                        })
                        &&& old(self).advected_smoke(backtrace, index_at(dim, j), after.smoke.back)
                    },
            decreases n - k,
        {
            let cells = self.cells_mut();
            cells[k].smoke.swap();
            k += 1;
        }
    }
}

} // verus!
