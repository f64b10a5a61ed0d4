use vstd::prelude::*;
use crate::interfaces::action_interface::Action;
use crate::interfaces::problem_interface::{ProblemInterface, ProblemStateStatus};

verus! {

/// A problem that proposes exactly one next action per construction step.
pub trait GreedyInterface: ProblemInterface {
    type GreedyAction: Action<Problem = Self>;

    /// `state` is a state of the greedy construction of this problem.
    spec fn constructing(&self, state: Self::State) -> bool;

    /// The number of construction steps that are left.
    spec fn pending(&self, state: Self::State) -> nat;

    /// The next action to take in the current state. Executing it keeps the
    /// construction going, takes exactly one step off `pending`, and reports
    /// `Terminal` exactly when no step is left.
    fn greedy_action(&self, state: &Self::State) -> (action: Self::GreedyAction)
        requires
            self.constructing(*state),
            self.pending(*state) > 0,
        ensures
            action.enabled(*state, *self),
            forall|next_state: Self::State, next: Self, status: ProblemStateStatus| #[trigger]
                action.transition(*state, *self, next_state, next, status) ==> {
                    &&& next.constructing(next_state)
                    &&& next.pending(next_state) + 1 == self.pending(*state)
                    &&& (status == ProblemStateStatus::Terminal <==> next.pending(next_state) == 0)
                },
    ;
}

/// Drives a greedy construction to its end.
pub struct GreedySolver<P> where P: GreedyInterface {
    pub problem: P,
}

impl<P> GreedySolver<P> where P: GreedyInterface {
    pub fn new(problem: P) -> (solver: Self)
        ensures
            solver.problem == problem,
    {
        GreedySolver { problem }
    }

    /// Asks for the next action and executes it until an action reports
    /// `Terminal`: one action per pending step, so `pending` actions in all.
    pub fn solve(&mut self, state: &mut <P as ProblemInterface>::State)
        requires
            old(self).problem.constructing(*old(state)),
            old(self).problem.pending(*old(state)) > 0,
        ensures
            final(self).problem.constructing(*final(state)),
            final(self).problem.pending(*final(state)) == 0,
            old(self).problem.same_instance(final(self).problem),
    {
        let mut state_status = ProblemStateStatus::NonTerminal;
        proof {
            self.problem.same_instance_reflexive();
        }
        while state_status == ProblemStateStatus::NonTerminal
            invariant
                self.problem.constructing(*state),
                old(self).problem.same_instance(self.problem),
                state_status == ProblemStateStatus::NonTerminal ==> self.problem.pending(*state) > 0,
                state_status == ProblemStateStatus::Terminal ==> self.problem.pending(*state) == 0,
            decreases self.problem.pending(*state),
        {
            let ghost before = self.problem;
            let action = self.problem.greedy_action(state);
            state_status = action.execute(state, &mut self.problem);
            proof {
                old(self).problem.same_instance_transitive(before, self.problem);
            }
        }
    }
}

} // verus!
