use vstd::prelude::*;
use crate::interfaces::action_interface::Action;
use crate::interfaces::problem_interface::{ProblemInterface, ProblemStateStatus};

verus! {

/// A problem that can look for an improving move in a neighbourhood of a
/// given size.
pub trait LocalSearchInterface: ProblemInterface {
    type LSAction: Action<Problem = Self>;

    /// `state` is a complete solution of this problem, with its objective
    /// value cached.
    spec fn searchable(&self, state: Self::State) -> bool;

    /// Some move of the size-`k` neighbourhood strictly improves the
    /// objective.
    spec fn improvable(&self, k: usize, state: Self::State) -> bool;

    /// `(next, next_state)` is what becomes of `(self, state)` when the best
    /// strictly improving move of the size-`k` neighbourhood is executed.
    spec fn best_step(
        &self,
        k: usize,
        state: Self::State,
        next: Self,
        next_state: Self::State,
    ) -> bool;

    /// `(other, other_state)` holds the same solution as `(self, state)`.
    spec fn same_solution(&self, state: Self::State, other: Self, other_state: Self::State) -> bool;

    proof fn same_solution_reflexive(&self, state: Self::State)
        ensures
            self.same_solution(state, *self, state),
    ;

    proof fn same_solution_transitive(
        &self,
        state: Self::State,
        middle: Self,
        middle_state: Self::State,
        last: Self,
        last_state: Self::State,
    )
        requires
            self.same_solution(state, middle, middle_state),
            middle.same_solution(middle_state, last, last_state),
        ensures
            self.same_solution(state, last, last_state),
    ;

    /// The same solution has the same objective, the same neighbourhoods that
    /// improve it, and the same best steps.
    proof fn same_solution_agrees(&self, state: Self::State, other: Self, other_state: Self::State)
        requires
            self.same_solution(state, other, other_state),
        ensures
            self.objective() == other.objective(),
            self.searchable(state) == other.searchable(other_state),
            forall|size: usize|
                #![trigger self.improvable(size, state)]
                #![trigger other.improvable(size, other_state)]
                self.improvable(size, state) == other.improvable(size, other_state),
            forall|size: usize, next: Self, next_state: Self::State|
                #![trigger self.best_step(size, state, next, next_state)]
                #![trigger other.best_step(size, other_state, next, next_state)]
                self.best_step(size, state, next, next_state) == other.best_step(
                    size,
                    other_state,
                    next,
                    next_state,
                ),
    ;

    /// The best strictly improving move of the size-`k` neighbourhood, if
    /// there is one. The problem and the state may be used as scratch space,
    /// and are handed back holding the solution they held.
    fn local_search_action(&mut self, k: usize, state: &mut Self::State) -> (found: Option<
        Self::LSAction,
    >)
        requires
            old(self).searchable(*old(state)),
        ensures
            final(self).searchable(*final(state)),
            old(self).same_instance(*final(self)),
            old(self).same_solution(*old(state), *final(self), *final(state)),
            found.is_some() <==> old(self).improvable(k, *old(state)),
            found matches Some(action) ==> {
                &&& action.enabled(*final(state), *final(self))
                &&& forall|next_state: Self::State, next: Self, status: ProblemStateStatus| #[trigger]
                    action.transition(*final(state), *final(self), next_state, next, status) ==> {
                        &&& next.searchable(next_state)
                        &&& next.objective() < final(self).objective()
                        &&& final(self).best_step(k, *final(state), next, next_state)
                    }
            },
    ;
}

/// `size` is the smallest size from 2 to `ceiling` whose neighbourhood
/// improves the solution.
pub open spec fn first_improving_size<P: LocalSearchInterface>(
    problem: P,
    state: P::State,
    size: usize,
    ceiling: usize,
) -> bool {
    &&& 2 <= size <= ceiling
    &&& problem.improvable(size, state)
    &&& forall|smaller: usize|
        2 <= smaller < size ==> !#[trigger] problem.improvable(smaller, state)
}

/// One step of the descent: the best move of the smallest improving
/// neighbourhood is executed.
pub open spec fn descent_step<P: LocalSearchInterface>(
    problem: P,
    state: P::State,
    ceiling: usize,
    next: P,
    next_state: P::State,
) -> bool {
    exists|size: usize| #[trigger]
        first_improving_size(problem, state, size, ceiling) && problem.best_step(
            size,
            state,
            next,
            next_state,
        )
}

/// Entry `i + 1` of `trace` comes from entry `i` by one step of the descent.
pub open spec fn step_at<P: LocalSearchInterface>(
    trace: Seq<(P, P::State)>,
    ceiling: usize,
    i: int,
) -> bool {
    descent_step(trace[i].0, trace[i].1, ceiling, trace[i + 1].0, trace[i + 1].1)
}

/// `trace` is a descent from `(start, start_state)`: it begins there, and
/// each entry comes from the one before it by one step.
pub open spec fn is_descent<P: LocalSearchInterface>(
    start: P,
    start_state: P::State,
    ceiling: usize,
    trace: Seq<(P, P::State)>,
) -> bool {
    &&& trace.len() >= 1
    &&& trace[0] == (start, start_state)
    &&& forall|i: int| 0 <= i < trace.len() - 1 ==> #[trigger] step_at(trace, ceiling, i)
}

/// Variable-neighbourhood descent over neighbourhood sizes from 2 up to a
/// ceiling.
pub struct LocalSearchSolver<P> where P: LocalSearchInterface {
    pub problem: P,
}

impl<P> LocalSearchSolver<P> where P: LocalSearchInterface {
    pub fn new(problem: P) -> (solver: Self)
        ensures
            solver.problem == problem,
    {
        LocalSearchSolver { problem }
    }

    /// Starts at size 2; executes the best improving move and goes back to
    /// size 2 where one is found, and goes on to the next size where none is.
    /// So the solution it ends in is the end of a descent from the one it
    /// started from; no neighbourhood of a size from 2 to `k` improves it;
    /// and its objective is not above the one it started from. With `k`
    /// under 2 nothing is touched.
    pub fn solve(&mut self, k: usize, state: &mut <P as ProblemInterface>::State)
        requires
            old(self).problem.searchable(*old(state)),
        ensures
            final(self).problem.searchable(*final(state)),
            final(self).problem.objective() <= old(self).problem.objective(),
            old(self).problem.same_instance(final(self).problem),
            forall|size: usize|
                2 <= size <= k ==> !#[trigger] final(self).problem.improvable(size, *final(state)),
            exists|trace: Seq<(P, P::State)>| #[trigger]
                is_descent(old(self).problem, *old(state), k, trace) && trace.last().0.same_solution(
                    trace.last().1,
                    final(self).problem,
                    *final(state),
                ),
            k < 2 ==> *final(state) == *old(state) && final(self).problem == old(self).problem,
    {
        let ghost mut trace: Seq<(P, P::State)> = seq![(self.problem, *state)];
        proof {
            self.problem.same_instance_reflexive();
            self.problem.same_solution_reflexive(*state);
        }
        if k < 2 {
            return ;
        }
        let mut i: usize = 2;
        let mut scanning = true;
        while scanning
            invariant
                2 <= i <= k,
                self.problem.searchable(*state),
                self.problem.objective() <= old(self).problem.objective(),
                old(self).problem.same_instance(self.problem),
                is_descent(old(self).problem, *old(state), k, trace),
                trace.last().0.same_solution(trace.last().1, self.problem, *state),
                forall|size: usize|
                    2 <= size < i ==> !#[trigger] self.problem.improvable(size, *state),
                !scanning ==> i == k && !self.problem.improvable(k, *state),
            decreases self.problem.objective(), k - i, if scanning { 1nat } else { 0nat },
        {
            let ghost before = self.problem;
            let ghost before_state = *state;
            let ghost reached = trace.last().0;
            let ghost reached_state = trace.last().1;
            let found = self.problem.local_search_action(i, state);
            proof {
                old(self).problem.same_instance_transitive(before, self.problem);
                before.same_solution_agrees(before_state, self.problem, *state);
                reached.same_solution_agrees(reached_state, before, before_state);
                reached.same_solution_transitive(
                    reached_state,
                    before,
                    before_state,
                    self.problem,
                    *state,
                );
                reached.same_solution_agrees(reached_state, self.problem, *state);
            }
            match found {
                Some(action) => {
                    let ghost scratch = self.problem;
                    let ghost scratch_state = *state;
                    action.execute(state, &mut self.problem);
                    proof {
                        old(self).problem.same_instance_transitive(scratch, self.problem);
                        assert(scratch.best_step(i, scratch_state, self.problem, *state));
                        assert(reached.best_step(i, reached_state, self.problem, *state));
                        assert(before.improvable(i, before_state));
                        assert(reached.improvable(i, reached_state));
                        assert forall|smaller: usize| 2 <= smaller < i implies !#[trigger] reached.improvable(
                            smaller,
                            reached_state,
                        ) by {
                            assert(!before.improvable(smaller, before_state));
                        }
                        assert(first_improving_size(reached, reached_state, i, k));
                        assert(descent_step(reached, reached_state, k, self.problem, *state));
                        let longer = trace.push((self.problem, *state));
                        assert forall|q: int| 0 <= q < longer.len() - 1 implies #[trigger] step_at(
                            longer,
                            k,
                            q,
                        ) by {
                            if q < trace.len() - 1 {
                                assert(step_at(trace, k, q));
                            }
                        }
                        trace = longer;
                        self.problem.same_solution_reflexive(*state);
                    }
                    i = 2;
                },
                None => {
                    assert(!self.problem.improvable(i, *state));
                    if i < k {
                        i += 1;
                    } else {
                        scanning = false;
                    }
                },
            }
        }
    }
}

} // verus!
