use vstd::prelude::*;

verus! {

/// Whether a state is final.
#[derive(Copy, Clone, Debug, PartialEq, Eq, Hash, Structural)]
pub enum ProblemStateStatus {
    Terminal,
    NonTerminal,
}

/// An optimisation problem: a state type, a fresh state, and the objective
/// value that the problem currently caches.
pub trait ProblemInterface: Sized {
    /// State representation used to query the next action.
    type State;

    /// What a freshly initialised state of this problem looks like.
    spec fn is_initial(&self, state: Self::State) -> bool;

    /// The cached objective value.
    spec fn objective(&self) -> u128;

    /// `other` describes the same problem instance as `self`: the fixed data
    /// agree, whatever the solution under construction is.
    spec fn same_instance(&self, other: Self) -> bool;

    proof fn same_instance_reflexive(&self)
        ensures
            self.same_instance(*self),
    ;

    proof fn same_instance_transitive(&self, middle: Self, last: Self)
        requires
            self.same_instance(middle),
            middle.same_instance(last),
        ensures
            self.same_instance(last),
    ;

    /// A fresh state; it depends on the problem's fixed shape only.
    fn init_state(&self) -> (state: Self::State)
        ensures
            self.is_initial(state),
    ;

    /// Reads the cached objective value.
    fn value(&self) -> (v: u128)
        ensures
            v == self.objective(),
    ;
}

} // verus!
