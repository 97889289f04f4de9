use crate::math::clamped_to_range;
use crate::scene::cell::Cell;
use crate::scene::cell::CellTypes;
use crate::scene::grid_stencil::PosStencilMut;
use crate::scene::grid_stencil::positive_stencils_mut;
use crate::scene::grid_stencil::stencil_count;
use crate::scene::grid_stencil::stencil_covers;
use crate::scene::grid_stencil::stencil_offset;
use crate::scene::layout::index_at;
use crate::scene::layout::inside_border;
use crate::scene::layout::inside_grid;
use crate::scene::layout::inside_range;
use crate::scene::layout::lemma_index_at_offset;
use crate::scene::layout::lemma_offset_in_bounds;
use crate::scene::layout::lemma_offset_of_index_at;
use crate::scene::layout::linear_offset;
use crate::scene::layout::range_indices;
use crate::types::Index2;
use vstd::arithmetic::div_mod::lemma_fundamental_div_mod_converse;
use vstd::prelude::*;

verus! {

/// Walks the indices of a box row by row, the first axis running fastest.
pub struct GridIndexIterator {
    curr: Index2,
    min: Index2,
    max: Index2,
}

impl Clone for GridIndexIterator {
    /// An iterator with the same indices still to come.
    fn clone(&self) -> (r: Self)
        ensures
            r@ == self@,
    {
        proof {
            use_type_invariant(self);
        }
        GridIndexIterator { curr: self.curr, min: self.min, max: self.max }
    }
}

impl GridIndexIterator {
    #[verifier::type_invariant]
    spec fn inv(self) -> bool {
        self.min.x <= self.curr.x && self.min.y <= self.curr.y
    }

    /// The indices that are still to come, in the order in which `next`
    /// hands them out.
    pub closed spec fn view(&self) -> Seq<Index2> {
        if inside_range(self.min, self.max, self.curr) {
            let w = self.max.x - self.min.x;
            Seq::new(
                ((self.max.y - self.curr.y - 1) * w + (self.max.x - self.curr.x)) as nat,
                |j: int|
                    Index2 {
                        x: (self.min.x + (self.curr.x - self.min.x + j) % w) as usize,
                        y: (self.curr.y + (self.curr.x - self.min.x + j) / w) as usize,
                    },
            )
        } else {
            Seq::empty()
        }
    }

    /// An iterator over the box `min <= index < max`, standing at its first
    /// index.
    pub fn over(min: Index2, max: Index2) -> (r: GridIndexIterator)
        ensures
            r@ == range_indices(min, max),
    {
        let r = GridIndexIterator { curr: min, min, max };
        proof {
            if min.x < max.x && min.y < max.y {
                let w = max.x - min.x;
                assert((max.y - min.y - 1) * w + w == w * (max.y - min.y)) by (nonlinear_arith);
                assert(r@ =~= range_indices(min, max));
            }
        }
        r
    }

    /// An iterator over every index of a grid of extent `dim`.
    pub fn new(dim: Index2) -> (r: GridIndexIterator)
        ensures
            r@ == range_indices(Index2 { x: 0, y: 0 }, dim),
    {
        GridIndexIterator::over(Index2::zeros(), dim)
    }

    /// Hands out the next index, or `None` once the box is exhausted.
    pub fn next(&mut self) -> (r: Option<Index2>)
        ensures
            old(self)@.len() == 0 ==> r is None && final(self)@ == old(self)@,
            old(self)@.len() > 0 ==> r == Some(old(self)@[0]) && final(self)@ == old(
                self,
            )@.skip(1),
    {
        proof {
            use_type_invariant(&*self);
        }
        let curr = self.curr;
        if !(self.min.x <= curr.x && curr.x < self.max.x && self.min.y <= curr.y && curr.y
            < self.max.y) {
            return None;
        }
        let ghost before = *self;
        let ghost w = self.max.x - self.min.x;
        let ghost c = curr.x - self.min.x;
        if curr.x + 1 >= self.max.x {
            self.curr.y = curr.y + 1;
            self.curr.x = self.min.x;
        } else {
            self.curr.x = curr.x + 1;
        }
        proof {
            assert((self.max.y - curr.y - 1) * w >= 0) by (nonlinear_arith)
                requires
                    self.max.y - curr.y - 1 >= 0,
                    w >= 0,
            ;
            lemma_fundamental_div_mod_converse(c, w, 0, c);
            assert(before@[0] == curr);
            if curr.x + 1 >= self.max.x {
                assert(c == w - 1);
                assert((self.max.y - curr.y - 1) * w == (self.max.y - curr.y - 2) * w + w)
                    by (nonlinear_arith);
                assert forall|j: int| 0 <= j < self@.len() implies self@[j] == before@[j + 1] by {
                    let q = j / w;
                    let m = j % w;
                    vstd::arithmetic::div_mod::lemma_fundamental_div_mod(j, w);
                    vstd::arithmetic::div_mod::lemma_mod_bound(j, w);
                    assert(w + j == (q + 1) * w + m) by (nonlinear_arith)
                        requires
                            j == w * q + m,
                    ;
                    lemma_fundamental_div_mod_converse(w + j, w, q + 1, m);
                    assert(c + (j + 1) == w + j);
                }
            } else {
                assert forall|j: int| 0 <= j < self@.len() implies self@[j] == before@[j + 1] by {
                    assert(c + 1 + j == c + (j + 1));
                }
            }
            assert(self@ =~= before@.skip(1));
        }
        Some(curr)
    }
}

/// The grid: a flat row-major sequence of cells with one ghost cell added on
/// each side of the extent that the user asked for.
pub struct Grid<S> {
    cell_width: S,
    dim: Index2,
    cells: Vec<Cell<S>>,
}

/// The neighbor of `index` one step down the first axis; from 0 the step
/// wraps to `usize::MAX`, an index that no grid holds.
pub open spec fn negative_x(index: Index2) -> Index2 {
    Index2 { x: if index.x == 0 { usize::MAX } else { (index.x - 1) as usize }, y: index.y }
}

/// The neighbor of `index` one step down the second axis; from 0 the step
/// wraps to `usize::MAX`.
pub open spec fn negative_y(index: Index2) -> Index2 {
    Index2 { x: index.x, y: if index.y == 0 { usize::MAX } else { (index.y - 1) as usize } }
}

/// The neighbor of `index` one step up the first axis.
pub open spec fn positive_x(index: Index2) -> Index2 {
    Index2 { x: (index.x + 1) as usize, y: index.y }
}

/// The neighbor of `index` one step up the second axis.
pub open spec fn positive_y(index: Index2) -> Index2 {
    Index2 { x: index.x, y: (index.y + 1) as usize }
}

impl<S> Grid<S> {
    /// The cells in storage order.
    pub closed spec fn view(&self) -> Seq<Cell<S>> {
        self.cells@
    }

    /// The extent of the grid, ghost layer included.
    pub closed spec fn spec_dim(&self) -> Index2 {
        self.dim
    }

    /// The extent of the grid, ghost layer included.
    #[verifier::when_used_as_spec(spec_dim)]
    pub fn dim(&self) -> (r: Index2)
        ensures
            r == self.dim(),
    {
        self.dim
    }

    /// The grid has a ghost layer and holds one cell for each index of its
    /// extent. Every grid that this library hands out satisfies this, and no
    /// use of its methods can change it.
    pub open spec fn inv(&self) -> bool {
        &&& self.dim().x >= 2
        &&& self.dim().y >= 2
        &&& self@.len() == self.dim().x * self.dim().y
    }

    /// Beyond [`inv`](Self::inv), each cell knows its own index. This holds
    /// of a new grid and lasts as long as no cell is overwritten by a cell
    /// made for another index.
    pub open spec fn wf(&self) -> bool {
        &&& self.inv()
        &&& forall|k: int| 0 <= k < self@.len() ==> (#[trigger] self@[k]).index == index_at(self.dim(), k)
    }

    /// The cell at `index`.
    pub open spec fn spec_cell(&self, index: Index2) -> Cell<S> {
        self@[linear_offset(self.dim(), index)]
    }
}

impl<S: Copy + Default> Grid<S> {
    /// A grid of `dim.x` by `dim.y` interior cells of side `cell_width`,
    /// surrounded by one layer of ghost cells. Every cell is fluid and at
    /// rest.
    pub fn new(dim: Index2, cell_width: S) -> (g: Self)
        requires
            (dim.x + 2) * (dim.y + 2) <= usize::MAX,
        ensures
            g.dim() == (Index2 { x: (dim.x + 2) as usize, y: (dim.y + 2) as usize }),
            g.cell_width() == cell_width,
            g.wf(),
            forall|k: int| 0 <= k < g@.len() ==> (#[trigger] g@[k]).at_rest(),
    {
        proof {
            assert(dim.x + 2 <= (dim.x + 2) * (dim.y + 2)) by (nonlinear_arith);
            assert(dim.y + 2 <= (dim.x + 2) * (dim.y + 2)) by (nonlinear_arith);
        }
        let dim = Index2::new(dim.x + 2, dim.y + 2);
        let mut cells: Vec<Cell<S>> = Vec::new();
        let mut it = GridIndexIterator::new(dim);
        let ghost all = it@;
        loop
            invariant
                all == range_indices(Index2 { x: 0, y: 0 }, dim),
                dim.x >= 2 && dim.y >= 2,
                cells.len() + it@.len() == all.len(),
                it@ == all.skip(cells.len() as int),
                forall|k: int| 0 <= k < cells.len() ==> (#[trigger] cells[k]).index == all[k],
                forall|k: int| 0 <= k < cells.len() ==> (#[trigger] cells[k]).at_rest(),
            ensures
                cells.len() == all.len(),
            decreases it@.len(),
        {
            match it.next() {
                Some(index) => {
                    cells.push(Cell::new(index));
                },
                None => {
                    break ;
                },
            }
        }
        Grid { cell_width, dim, cells }
    }

    /// The side length of a cell.
    pub closed spec fn spec_cell_width(&self) -> S {
        self.cell_width
    }

    /// The side length of a cell.
    #[verifier::when_used_as_spec(spec_cell_width)]
    pub fn cell_width(&self) -> (r: S)
        ensures
            r == self.cell_width(),
    {
        self.cell_width
    }

    /// An iterator over every index of the grid, ghost layer included.
    pub fn iter_index(&self) -> (r: GridIndexIterator)
        ensures
            r@ == range_indices(Index2 { x: 0, y: 0 }, self.dim()),
    {
        GridIndexIterator::new(self.dim)
    }

    /// An iterator over the indices inside the ghost layer.
    pub fn iter_index_inside(&self) -> (r: GridIndexIterator)
        requires
            self.inv(),
        ensures
            r@ == range_indices(
                Index2 { x: 1, y: 1 },
                Index2 { x: (self.dim().x - 1) as usize, y: (self.dim().y - 1) as usize },
            ),
    {
        GridIndexIterator::over(
            Index2::new(1, 1),
            Index2::new(self.dim.x - 1, self.dim.y - 1),
        )
    }

    /// Clamps `index` component-wise into `[min, max]`.
    pub fn clamp_to_range(min: Index2, max: Index2, index: Index2) -> (r: Index2)
        ensures
            r == crate::math::clamped_to_range(min, max, index),
    {
        crate::math::clamp_to_range(min, max, index)
    }

    /// Whether `min <= index < max` holds in both components.
    pub fn is_inside_range(min: Index2, max: Index2, index: Index2) -> (r: bool)
        ensures
            r == inside_range(min, max, index),
    {
        index.x < max.x && index.y < max.y && index.x >= min.x && index.y >= min.y
    }

    /// Whether `index` lies strictly inside the ghost layer.
    pub fn is_inside_border(&self, index: Index2) -> (r: bool)
        requires
            self.inv(),
        ensures
            r == inside_border(self.dim(), index),
    {
        Self::is_inside_range(
            Index2::new(1, 1),
            Index2::new(self.dim.x - 1, self.dim.y - 1),
            index,
        )
    }

    /// The four neighbors of `index` as `[[-x, -y], [+x, +y]]`. A step below
    /// 0 wraps to `usize::MAX`.
    pub fn get_neighbors_indices(index: Index2) -> (r: [[Index2; 2]; 2])
        requires
            index.x < usize::MAX,
            index.y < usize::MAX,
        ensures
            r[0][0] == negative_x(index),
            r[0][1] == negative_y(index),
            r[1][0] == positive_x(index),
            r[1][1] == positive_y(index),
    {
        [
            [
                Index2::new(index.x.wrapping_sub(1), index.y),
                Index2::new(index.x, index.y.wrapping_sub(1)),
            ],
            [Index2::new(index.x + 1, index.y), Index2::new(index.x, index.y + 1)],
        ]
    }

    /// The cell at `index`.
    pub fn cell(&self, index: Index2) -> (r: &Cell<S>)
        requires
            self.inv(),
            inside_grid(self.dim(), index),
        ensures
            *r == self.spec_cell(index),
            self.wf() ==> r.index == index,
    {
        proof {
            lemma_offset_in_bounds(self.dim, index);
            lemma_index_at_offset(self.dim, index);
            assert(0 <= index.y * self.dim.x) by (nonlinear_arith);
            assert(self.cells@.len() == self.cells.len());
        }
        &self.cells[index.x + index.y * self.dim.x]
    }

    /// The cell at `index`, for writing.
    pub fn cell_mut(&mut self, index: Index2) -> (r: &mut Cell<S>)
        requires
            old(self).inv(),
            inside_grid(old(self).dim(), index),
        ensures
            final(self).inv(),
            *r == old(self).spec_cell(index),
            final(self)@ == old(self)@.update(linear_offset(old(self).dim(), index), *final(r)),
            final(self).dim() == old(self).dim(),
            final(self).cell_width() == old(self).cell_width(),
    {
        proof {
            lemma_offset_in_bounds(self.dim, index);
            assert(0 <= index.y * self.dim.x) by (nonlinear_arith);
            assert(self.cells@.len() == self.cells.len());
        }
        &mut self.cells[index.x + index.y * self.dim.x]
    }

    /// The cell at `index`, or `None` if the grid has no such cell.
    pub fn cell_opt(&self, index: Index2) -> (r: Option<&Cell<S>>)
        requires
            self.inv(),
        ensures
            inside_grid(self.dim(), index) ==> r == Some(&self.spec_cell(index)),
            !inside_grid(self.dim(), index) ==> r is None,
    {
        if Self::is_inside_range(Index2::zeros(), self.dim, index) {
            Some(self.cell(index))
        } else {
            None
        }
    }

    /// The cell at `index` for writing, or `None` if the grid has no such
    /// cell.
    pub fn cell_mut_opt(&mut self, index: Index2) -> (r: Option<&mut Cell<S>>)
        requires
            old(self).inv(),
        ensures
            final(self).inv(),
            final(self).dim() == old(self).dim(),
            final(self).cell_width() == old(self).cell_width(),
            !inside_grid(old(self).dim(), index) ==> r is None && final(self)@ == old(self)@,
            inside_grid(old(self).dim(), index) ==> r is Some && *r->0 == old(self).spec_cell(
                index,
            ) && final(self)@ == old(self)@.update(
                linear_offset(old(self).dim(), index),
                *final(r->0),
            ),
    {
        if Self::is_inside_range(Index2::zeros(), self.dim, index) {
            Some(self.cell_mut(index))
        } else {
            None
        }
    }

    /// All cells in storage order.
    pub fn cells(&self) -> (r: &[Cell<S>])
        ensures
            r@ == self@,
    {
        self.cells.as_slice()
    }

    /// All cells in storage order, for writing. The grid keeps what the
    /// caller leaves in the slice.
    pub fn cells_mut(&mut self) -> (r: &mut [Cell<S>])
        ensures
            r@ == old(self)@,
            final(self)@ == final(r)@,
            final(self).dim() == old(self).dim(),
            final(self).cell_width() == old(self).cell_width(),
    {
        self.cells.as_mut_slice()
    }

    /// The indices of the four sample cells around `index`: see
    /// [`sample_indices`].
    pub fn sample_cells(min: Index2, max: Index2, index: Index2) -> (r: [Index2; 4])
        requires
            max.x >= 1,
            max.y >= 1,
            min.x < usize::MAX,
            min.y < usize::MAX,
        ensures
            r@ == sample_indices(min, max, index),
    {
        let hi = Index2::new(max.x - 1, max.y - 1);
        let base = Self::clamp_to_range(min, hi, index);
        let r = [
            Self::clamp_to_range(min, hi, Index2::new(base.x, base.y + 1)),
            base,
            Self::clamp_to_range(min, hi, Index2::new(base.x + 1, base.y + 1)),
            Self::clamp_to_range(min, hi, Index2::new(base.x + 1, base.y)),
        ];
        assert(r@ =~= sample_indices(min, max, index));
        r
    }

    /// Reads the four samples that a bilinear interpolation around the cell
    /// `index` combines: `get_val` of each cell of [`sample_indices`], in that
    /// order. The caller turns a position into `index` and weights the
    /// samples.
    pub fn sample_field<F: Fn(&Cell<S>) -> S>(
        &self,
        min: Index2,
        max: Index2,
        index: Index2,
        get_val: F,
    ) -> (r: [S; 4])
        requires
            self.inv(),
            inside_grid(self.dim(), min),
            1 <= max.x <= self.dim().x,
            1 <= max.y <= self.dim().y,
            forall|k: int|
                0 <= k < 4 ==> call_requires(
                    get_val,
                    (&self.spec_cell(#[trigger] sample_indices(min, max, index)[k]),),
                ),
        ensures
            forall|k: int|
                0 <= k < 4 ==> inside_grid(self.dim(), #[trigger] sample_indices(min, max, index)[k])
                    && call_ensures(
                    get_val,
                    (&self.spec_cell(sample_indices(min, max, index)[k]),),
                    r[k],
                ),
    {
        let nbs = Self::sample_cells(min, max, index);
        proof {
            let s = sample_indices(min, max, index);
            assert(nbs[0] == s[0] && nbs[1] == s[1] && nbs[2] == s[2] && nbs[3] == s[3]);
            assert(inside_grid(self.dim(), s[0]));
            assert(inside_grid(self.dim(), s[1]));
            assert(inside_grid(self.dim(), s[2]));
            assert(inside_grid(self.dim(), s[3]));
        }
        let v0 = get_val(self.cell(nbs[0]));
        let v1 = get_val(self.cell(nbs[1]));
        let v2 = get_val(self.cell(nbs[2]));
        let v3 = get_val(self.cell(nbs[3]));
        [v0, v1, v2, v3]
    }

    /// Whether each neighbor of the interior cell `index` holds fluid, as
    /// `[[-x, -y], [+x, +y]]`.
    pub fn fluid_neighbors(&self, index: Index2) -> (r: [[bool; 2]; 2])
        requires
            self.inv(),
            inside_border(self.dim(), index),
        ensures
            r == neighbor_marks(self@, self.dim(), index),
    {
        let nbs = Self::get_neighbors_indices(index);
        let r = [
            [self.cell(nbs[0][0]).is_fluid(), self.cell(nbs[0][1]).is_fluid()],
            [self.cell(nbs[1][0]).is_fluid(), self.cell(nbs[1][1]).is_fluid()],
        ];
        proof {
            crate::scene::cell::lemma_marks_equal(r, neighbor_marks(self@, self.dim(), index));
        }
        r
    }

    /// The positive stencils of one pass over the interior: the first is
    /// centered at `(1, 1) + offset`. The four passes of
    /// [`stencil_phases`](crate::scene::grid_stencil::stencil_phases) together
    /// have every interior cell as a center exactly once.
    pub fn positive_stencils(&mut self, offset: Index2) -> (out: Vec<PosStencilMut<'_, Cell<S>>>)
        requires
            old(self).inv(),
        ensures
            final(self).inv(),
            final(self).dim() == old(self).dim(),
            final(self).cell_width() == old(self).cell_width(),
            final(self)@.len() == old(self)@.len(),
            out.len() == stencil_count(old(self).dim(), 1 + offset.x, 1 + offset.y),
            forall|i: int|
                0 <= i < out.len() ==> {
                    let c = stencil_offset(old(self).dim(), 1 + offset.x, 1 + offset.y, i);
                    &&& *(#[trigger] out[i]).cell == old(self)@[c]
                    &&& *out[i].neighbors[0] == old(self)@[c + 1]
                    &&& *out[i].neighbors[1] == old(self)@[c + old(self).dim().x]
                },
            forall|i: int|
                0 <= i < out.len() ==> {
                    let c = stencil_offset(old(self).dim(), 1 + offset.x, 1 + offset.y, i);
                    &&& final(self)@[c] == *final((#[trigger] out[i]).cell)
                    &&& final(self)@[c + 1] == *final(out[i].neighbors[0])
                    &&& final(self)@[c + old(self).dim().x] == *final(out[i].neighbors[1])
                },
            forall|p: int|
                0 <= p < old(self)@.len() && !stencil_covers(
                    old(self).dim(),
                    1 + offset.x,
                    1 + offset.y,
                    p,
                ) ==> #[trigger] final(self)@[p] == old(self)@[p],
    {
        let dim = self.dim;
        positive_stencils_mut(
            self.cells.as_mut_slice(),
            dim,
            Some(Index2::new(1, 1)),
            Some(Index2::new(dim.x - 1, dim.y - 1)),
            Some(offset),
        )
    }

    /// Rasterizes an obstacle: every cell inside the ghost layer that
    /// `covers` accepts becomes solid and takes `velocity` (no motion if none
    /// is given); every other cell inside the ghost layer becomes fluid. The
    /// ghost layer itself is left alone.
    pub fn set_obstacle<F: Fn(Index2) -> bool>(&mut self, covers: F, velocity: Option<[S; 2]>)
        requires
            old(self).inv(),
            forall|index: Index2|
                inside_border(old(self).dim(), index) ==> #[trigger] call_requires(
                    covers,
                    (index,),
                ),
        ensures
            final(self).inv(),
            old(self).wf() ==> final(self).wf(),
            final(self).dim() == old(self).dim(),
            final(self).cell_width() == old(self).cell_width(),
            final(self)@.len() == old(self)@.len(),
            forall|k: int|
                0 <= k < old(self)@.len() ==> {
                    let index = index_at(old(self).dim(), k);
                    let before = old(self)@[k];
                    let after = #[trigger] final(self)@[k];
                    if inside_border(old(self).dim(), index) {
                        ||| call_ensures(covers, (index,), true) && after.is_obstacle_of(
                            &before,
                            velocity,
                        )
                        ||| call_ensures(covers, (index,), false) && after == before.with_mode(
                            CellTypes::Fluid,
                        )
                    } else {
                        after == before
                    }
                },
    {
        let vel = match velocity {
            Some(v) => v,
            None => {
                let zero = S::default();
                [zero, zero]
            },
        };
        let w = self.dim.x;
        let n = self.cells.len();
        let mut k: usize = 0;
        while k < n
            invariant
                self.dim == old(self).dim,
                self.cell_width == old(self).cell_width,
                w == self.dim.x,
                w >= 2,
                self.dim.y >= 2,
                n == self.cells@.len(),
                n == old(self).cells@.len(),
                n == w * self.dim.y,
                k <= n,
                match velocity {
                    Some(v) => vel == v,
                    None => is_default_pair(vel),
                },
                forall|index: Index2|
                    inside_border(self.dim, index) ==> #[trigger] call_requires(covers, (index,)),
                forall|j: int| k <= j < n ==> self.cells@[j] == old(self).cells@[j],
                forall|j: int|
                    0 <= j < k ==> {
                        let index = index_at(self.dim, j);
                        let before = old(self).cells@[j];
                        let after = #[trigger] self.cells@[j];
                        if inside_border(self.dim, index) {
                            ||| call_ensures(covers, (index,), true) && after.is_obstacle_of(
                                &before,
                                velocity,
                            )
                            ||| call_ensures(covers, (index,), false) && after == before.with_mode(
                                CellTypes::Fluid,
                            )
                        } else {
                            after == before
                        }
                    },
            decreases n - k,
        {
            let index = Index2::new(k % w, k / w);
            proof {
                lemma_offset_of_index_at(self.dim, k as int);
            }
            if index.x >= 1 && index.x < w - 1 && index.y >= 1 && index.y < self.dim.y - 1 {
                if covers(index) {
                    self.cells[k].mode = CellTypes::Solid;
                    self.cells[k].velocity.back = vel;
                } else {
                    self.cells[k].mode = CellTypes::Fluid;
                }
            }
            k += 1;
        }
    }
}

/// Whether each neighbor of the cell `index` holds fluid in `cells`, the
/// cells of a grid of extent `dim`: `[[-x, -y], [+x, +y]]`.
pub open spec fn neighbor_marks<S>(cells: Seq<Cell<S>>, dim: Index2, index: Index2) -> [[bool; 2]; 2] {
    [
        [
            cells[linear_offset(dim, negative_x(index))].mode == CellTypes::Fluid,
            cells[linear_offset(dim, negative_y(index))].mode == CellTypes::Fluid,
        ],
        [
            cells[linear_offset(dim, positive_x(index))].mode == CellTypes::Fluid,
            cells[linear_offset(dim, positive_y(index))].mode == CellTypes::Fluid,
        ],
    ]
}

/// The cells whose values a bilinear interpolation around `index` combines.
/// `index` is first clamped into `[min, max - (1, 1)]`; with the result
/// `(i, j)` the cells are `(i, j+1)`, `(i, j)`, `(i+1, j+1)`, `(i+1, j)`, each
/// clamped in the same way: the 2x2 matrix of samples, upper row first, read
/// column by column.
pub open spec fn sample_indices(min: Index2, max: Index2, index: Index2) -> Seq<Index2> {
    let hi = Index2 { x: (max.x - 1) as usize, y: (max.y - 1) as usize };
    let base = clamped_to_range(min, hi, index);
    seq![
        clamped_to_range(min, hi, positive_y(base)),
        base,
        clamped_to_range(min, hi, positive_y(positive_x(base))),
        clamped_to_range(min, hi, positive_x(base)),
    ]
}

/// Away from the bounds the sample cells are the cell `index` and its
/// neighbors at `+x`, `+y` and `+x+y`; in any case they lie in
/// `[min, max - (1, 1)]` if that box is not empty.
pub proof fn sample_cells_stay_in_range(min: Index2, max: Index2, index: Index2)
    requires
        min.x < max.x,
        min.y < max.y,
    ensures
        forall|k: int|
            0 <= k < 4 ==> inside_range(min, max, #[trigger] sample_indices(min, max, index)[k]),
        inside_range(min, max, index) && inside_range(min, max, positive_x(positive_y(index)))
            ==> sample_indices(min, max, index) == seq![
            positive_y(index),
            index,
            positive_y(positive_x(index)),
            positive_x(index),
        ],
{
    let hi = Index2 { x: (max.x - 1) as usize, y: (max.y - 1) as usize };
    let base = clamped_to_range(min, hi, index);
    crate::math::lemma_clamped_in_range(min, hi, index);
    crate::math::lemma_clamped_in_range(min, hi, positive_y(base));
    crate::math::lemma_clamped_in_range(min, hi, positive_x(base));
    crate::math::lemma_clamped_in_range(min, hi, positive_y(positive_x(base)));
    let s = sample_indices(min, max, index);
    assert(s[0] == clamped_to_range(min, hi, positive_y(base)));
    assert(s[1] == base);
    assert(s[2] == clamped_to_range(min, hi, positive_y(positive_x(base))));
    assert(s[3] == clamped_to_range(min, hi, positive_x(base)));
    if inside_range(min, max, index) && inside_range(min, max, positive_x(positive_y(index))) {
        assert(s =~= seq![
            positive_y(index),
            index,
            positive_y(positive_x(index)),
            positive_x(index),
        ]);
    }
}

/// Both components of `v` are default values of `S`.
pub open spec fn is_default_pair<S: Default>(v: [S; 2]) -> bool {
    crate::scene::cell::is_default(v[0]) && crate::scene::cell::is_default(v[1])
}

} // verus!
