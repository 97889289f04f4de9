use vstd::prelude::*;

verus! {

/// How the projection is run.
#[derive(Clone, Copy, Debug, PartialEq, Eq, Structural)]
pub enum ExecutionMode {
    /// Sequential Gauss-Seidel sweep in row-major order.
    Single,
    /// Four passes of disjoint positive stencils, each pass in parallel.
    Parallel,
    /// The same passes as `Parallel`.
    ParallelUnsafe,
}

impl ExecutionMode {
    /// Whether the mode asks for the stencil passes.
    pub open spec fn spec_is_parallel(self) -> bool {
        self != ExecutionMode::Single
    }

    /// Whether the mode asks for the stencil passes rather than for the
    /// sequential sweep.
    #[verifier::when_used_as_spec(spec_is_parallel)]
    pub fn is_parallel(self) -> (r: bool)
        ensures
            r == self.is_parallel(),
    {
        match self {
            ExecutionMode::Single => false,
            ExecutionMode::Parallel => true,
            ExecutionMode::ParallelUnsafe => true,
        }
    }
}

/// The phases of one time step, in the order in which they run.
#[derive(Clone, Copy, Debug, PartialEq, Eq, Structural)]
pub enum StepPhase {
    /// Scene manipulators set inflow cells and smoke sources.
    Manipulate,
    /// The statistics of the last step are cleared.
    Reset,
    /// Body forces are added to the velocities.
    Integrate,
    /// The projection removes divergence.
    SolveIncompressibility,
    /// Velocity and smoke are transported.
    Advect,
}

/// The phases of a step from first to last.
pub open spec fn step_phases() -> Seq<StepPhase> {
    seq![
        StepPhase::Manipulate,
        StepPhase::Reset,
        StepPhase::Integrate,
        StepPhase::SolveIncompressibility,
        StepPhase::Advect,
    ]
}

impl StepPhase {
    /// The position of the phase within a step.
    pub open spec fn rank(self) -> int {
        match self {
            StepPhase::Manipulate => 0,
            StepPhase::Reset => 1,
            StepPhase::Integrate => 2,
            StepPhase::SolveIncompressibility => 3,
            StepPhase::Advect => 4,
        }
    }

    /// The phase that opens a step.
    pub fn first() -> (r: StepPhase)
        ensures
            r == step_phases()[0],
    {
        StepPhase::Manipulate
    }

    /// The phase that follows, or `None` after the last one: the step is
    /// complete and the clock advances.
    pub fn next(self) -> (r: Option<StepPhase>)
        ensures
            step_phases()[self.rank()] == self,
            self.rank() + 1 < step_phases().len() ==> r == Some(step_phases()[self.rank() + 1]),
            self.rank() + 1 == step_phases().len() ==> r is None,
    {
        match self {
            StepPhase::Manipulate => Some(StepPhase::Reset),
            StepPhase::Reset => Some(StepPhase::Integrate),
            StepPhase::Integrate => Some(StepPhase::SolveIncompressibility),
            StepPhase::SolveIncompressibility => Some(StepPhase::Advect),
            StepPhase::Advect => None,
        }
    }
}

} // verus!
