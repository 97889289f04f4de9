use crate::types::FrontBackBuffer;
use crate::types::Index2;
use vstd::array::spec_array_update;
use vstd::prelude::*;

verus! {

/// Whether a cell holds fluid or is part of a solid.
#[derive(Clone, Copy, Debug, PartialEq, Eq, Structural)]
pub enum CellTypes {
    Solid,
    Fluid,
}

/// One square cell of the grid.
///
/// The velocity is staggered: component 0 lives on the face towards the
/// negative `x` neighbor, component 1 on the face towards the negative `y`
/// neighbor.
#[derive(Clone, Copy, Debug)]
pub struct Cell<S> {
    /// The grid coordinate of the cell. A grid sets it when it creates the
    /// cell; its well-formedness ties it to the position of the cell.
    pub index: Index2,
    /// Fluid or solid.
    pub mode: CellTypes,
    /// Velocity `[x, y]`.
    pub velocity: FrontBackBuffer<[S; 2]>,
    /// The pressure accumulated by the last projection.
    pub pressure: S,
    /// The advected smoke density.
    pub smoke: FrontBackBuffer<S>,
    /// The last computed divergence, the net outflow.
    pub div: S,
    /// The divergence divided by the number of fluid neighbors (parallel
    /// projection only).
    pub div_normed: S,
    /// The inverse of the number of fluid neighbors, or the default value if
    /// there is none (parallel projection only).
    pub s_tot_inv: S,
    /// Whether each neighbor is fluid, as `[negative, positive]` by
    /// `[x, y]` (parallel projection only).
    pub s_nbs: [[bool; 2]; 2],
}

/// Two sets of fluid marks with the same four entries are the same.
pub proof fn lemma_marks_equal(a: [[bool; 2]; 2], b: [[bool; 2]; 2])
    requires
        a[0][0] == b[0][0],
        a[0][1] == b[0][1],
        a[1][0] == b[1][0],
        a[1][1] == b[1][1],
    ensures
        a == b,
{
    assert(a[0] =~= b[0]);
    assert(a[1] =~= b[1]);
    assert(a =~= b);
}

/// `s` is a value that `S::default()` may return: the zero of a numeric
/// type.
pub open spec fn is_default<S: Default>(s: S) -> bool {
    call_ensures(S::default, (), s)
}

impl<S: Copy + Default> Cell<S> {
    /// `other` differs from `self` at most in `velocity.back`.
    pub open spec fn same_but_back_velocity(&self, other: &Self) -> bool {
        &&& other.index == self.index
        &&& other.mode == self.mode
        &&& other.velocity.front == self.velocity.front
        &&& other.pressure == self.pressure
        &&& other.smoke == self.smoke
        &&& other.div == self.div
        &&& other.div_normed == self.div_normed
        &&& other.s_tot_inv == self.s_tot_inv
        &&& other.s_nbs == self.s_nbs
    }

    /// The cell is fluid and every field is at rest: scalars at the default
    /// value of `S`, no neighbor marked as fluid.
    pub open spec fn at_rest(&self) -> bool {
        &&& self.mode == CellTypes::Fluid
        &&& is_default(self.velocity.front[0]) && is_default(self.velocity.front[1])
        &&& is_default(self.velocity.back[0]) && is_default(self.velocity.back[1])
        &&& is_default(self.pressure)
        &&& is_default(self.smoke.front) && is_default(self.smoke.back)
        &&& is_default(self.div)
        &&& is_default(self.div_normed)
        &&& is_default(self.s_tot_inv)
        &&& !self.s_nbs[0][0] && !self.s_nbs[0][1] && !self.s_nbs[1][0] && !self.s_nbs[1][1]
    }

    /// The cell with its mode replaced by `mode`.
    pub open spec fn with_mode(self, mode: CellTypes) -> Self {
        Cell { mode, ..self }
    }

    /// What an obstacle makes of the cell `before`: a solid cell that moves
    /// with `velocity`, or stands still (at the default value of `S`) if
    /// none is given, and is otherwise unchanged.
    pub open spec fn is_obstacle_of(&self, before: &Self, velocity: Option<[S; 2]>) -> bool {
        &&& self.mode == CellTypes::Solid
        &&& match velocity {
            Some(v) => self.velocity.back == v,
            None => is_default(self.velocity.back[0]) && is_default(self.velocity.back[1]),
        }
        &&& self.index == before.index
        &&& self.velocity.front == before.velocity.front
        &&& self.pressure == before.pressure
        &&& self.smoke == before.smoke
        &&& self.div == before.div
        &&& self.div_normed == before.div_normed
        &&& self.s_tot_inv == before.s_tot_inv
        &&& self.s_nbs == before.s_nbs
    }

    /// The cell with the fluid mark of one neighbor replaced: `side` is 0
    /// for the negative and 1 for the positive neighbor, `axis` 0 for `x` and
    /// 1 for `y`.
    pub open spec fn with_mark(self, side: int, axis: int, fluid: bool) -> Self {
        Cell {
            s_nbs: spec_array_update(
                self.s_nbs,
                side,
                spec_array_update(self.s_nbs[side], axis, fluid),
            ),
            ..self
        }
    }

    /// A fluid cell at `index`, at rest.
    pub fn new(index: Index2) -> (c: Self)
        ensures
            c.index == index,
            c.at_rest(),
    {
        let zero = S::default();
        Cell {
            index,
            mode: CellTypes::Fluid,
            velocity: FrontBackBuffer { front: [zero, zero], back: [zero, zero] },
            pressure: zero,
            smoke: FrontBackBuffer { front: zero, back: zero },
            div: zero,
            div_normed: zero,
            s_tot_inv: zero,
            s_nbs: [[false, false], [false, false]],
        }
    }

    /// The grid coordinate of the cell.
    pub fn index(&self) -> (r: Index2)
        ensures
            r == self.index,
    {
        self.index
    }

    /// Whether the cell holds fluid.
    pub open spec fn spec_is_fluid(&self) -> bool {
        self.mode == CellTypes::Fluid
    }

    /// Whether the cell holds fluid.
    #[verifier::when_used_as_spec(spec_is_fluid)]
    pub fn is_fluid(&self) -> (r: bool)
        ensures
            r == self.is_fluid(),
    {
        match self.mode {
            CellTypes::Solid => false,
            CellTypes::Fluid => true,
        }
    }

    /// Applies a body force: a fluid cell replaces `velocity.back` by what
    /// `accelerate` makes of it; a solid cell keeps its velocity and
    /// `accelerate` is not called.
    pub fn integrate<F: Fn([S; 2]) -> [S; 2]>(&mut self, accelerate: &F)
        requires
            old(self).is_fluid() ==> call_requires(*accelerate, (old(self).velocity.back,)),
        ensures
            !old(self).is_fluid() ==> *final(self) == *old(self),
            old(self).is_fluid() ==> call_ensures(
                *accelerate,
                (old(self).velocity.back,),
                final(self).velocity.back,
            ),
            old(self).same_but_back_velocity(final(self)),
    {
        if self.is_fluid() {
            self.velocity.back = accelerate(self.velocity.back);
        }
    }
}

} // verus!
