use vstd::prelude::*;
use crate::interfaces::problem_interface::{ProblemInterface, ProblemStateStatus};

verus! {

/// One state transition of a problem.
pub trait Action: Sized {
    type Problem: ProblemInterface;

    /// The action can be applied to this state and problem.
    spec fn enabled(
        &self,
        state: <Self::Problem as ProblemInterface>::State,
        problem: Self::Problem,
    ) -> bool;

    /// Applying the action to `(state, problem)` gives `(next_state,
    /// next_problem)` and reports `status`.
    spec fn transition(
        &self,
        state: <Self::Problem as ProblemInterface>::State,
        problem: Self::Problem,
        next_state: <Self::Problem as ProblemInterface>::State,
        next_problem: Self::Problem,
        status: ProblemStateStatus,
    ) -> bool;

    /// Updates the state and the problem as the action says.
    fn execute(
        &self,
        state: &mut <Self::Problem as ProblemInterface>::State,
        problem: &mut Self::Problem,
    ) -> (status: ProblemStateStatus)
        requires
            self.enabled(*old(state), *old(problem)),
        ensures
            old(problem).same_instance(*final(problem)),
            self.transition(*old(state), *old(problem), *final(state), *final(problem), status),
    ;
}

} // verus!
