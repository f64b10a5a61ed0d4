use vstd::prelude::*;
use crate::interfaces::action_interface::Action;
use crate::interfaces::greedy_interface::GreedyInterface;
use crate::interfaces::local_search_interface::LocalSearchInterface;
use crate::interfaces::problem_interface::{ProblemInterface, ProblemStateStatus};
use crate::problems::cost_matrix::{nested, CostMatrix, MakeSpanError};
use crate::problems::enumeration::{
    combinations_of,
    entries_below,
    index_combinations,
    index_tuples,
    tuples_of,
};
use crate::problems::makespan_model::{
    current_moves,
    greedy_at,
    greedy_built,
    is_greedy_choice,
    jobs_of,
    lemma_load_bounds,
    lemma_load_holds_job,
    lemma_load_push,
    lemma_load_update,
    lemma_restore_after,
    lemma_round_trip,
    load_with,
    loads_of,
    makespan,
    moves_within,
    pairing,
    peak,
    reassign,
    touches,
};

verus! {

/// Makespan scheduling: each job goes to one machine, and the largest total
/// cost on any machine is to be small.
pub struct MakeSpanProblem {
    /// The cost of each job on each machine.
    pub cost: CostMatrix,
    /// The machine of each job placed so far.
    pub incumbent: Vec<usize>,
    /// The makespan of the incumbent, once every job is placed.
    pub value: u128,
}

/// The accumulated time of each machine, and how far the construction is.
#[derive(Clone, Debug, PartialEq)]
pub struct MakeSpanState {
    pub current_machine_times: Vec<u128>,
    pub current_job: usize,
    pub num_jobs: usize,
}

/// Places the next job on one machine.
pub struct MakeSpanGreedyAction {
    pub action: usize,
}

/// One reassignment: `job` goes to `machine`.
pub struct MakeSpanAllocation {
    pub job: usize,
    pub machine: usize,
}

/// Moves several jobs at once, each to the machine named for it.
pub struct MakeSpanLocalSearchAction {
    pub allocations: Vec<MakeSpanAllocation>,
}

/// The makespan that candidate `(c, t)` gives: the jobs of subset `c` sent to
/// the machines of tuple `t`.
pub open spec fn candidate_value(
    cost: Seq<Seq<u64>>,
    assignment: Seq<usize>,
    machines: nat,
    subsets: Seq<Seq<usize>>,
    tuples: Seq<Seq<usize>>,
    c: int,
    t: int,
) -> u128 {
    makespan(cost, reassign(assignment, pairing(subsets[c], tuples[t])), machines)
}

/// Candidate `(c, t)` comes before candidate `(d, u)` in the scan.
pub open spec fn scanned_before(c: int, t: int, d: int, u: int) -> bool {
    c < d || (c == d && t < u)
}

/// Some candidate gives a makespan under `value`.
pub open spec fn improving_exists(
    cost: Seq<Seq<u64>>,
    assignment: Seq<usize>,
    machines: nat,
    value: u128,
    subsets: Seq<Seq<usize>>,
    tuples: Seq<Seq<usize>>,
) -> bool {
    exists|c: int, t: int|
        0 <= c < subsets.len() && 0 <= t < tuples.len() && #[trigger] candidate_value(
            cost,
            assignment,
            machines,
            subsets,
            tuples,
            c,
            t,
        ) < value
}

/// Candidate `(c, t)` gives a makespan under `value`, no candidate gives a
/// lower one, and every candidate before it gives a higher one.
pub open spec fn is_best_candidate(
    cost: Seq<Seq<u64>>,
    assignment: Seq<usize>,
    machines: nat,
    value: u128,
    subsets: Seq<Seq<usize>>,
    tuples: Seq<Seq<usize>>,
    c: int,
    t: int,
) -> bool {
    &&& 0 <= c < subsets.len()
    &&& 0 <= t < tuples.len()
    &&& candidate_value(cost, assignment, machines, subsets, tuples, c, t) < value
    &&& forall|d: int, u: int|
        0 <= d < subsets.len() && 0 <= u < tuples.len() ==> {
            &&& candidate_value(cost, assignment, machines, subsets, tuples, c, t)
                <= #[trigger] candidate_value(cost, assignment, machines, subsets, tuples, d, u)
            &&& scanned_before(d, u, c, t) ==> candidate_value(
                cost,
                assignment,
                machines,
                subsets,
                tuples,
                c,
                t,
            ) < candidate_value(cost, assignment, machines, subsets, tuples, d, u)
        }
}

/// `result` is `assignment` after the moves of the best candidate.
pub open spec fn best_reassignment(
    cost: Seq<Seq<u64>>,
    assignment: Seq<usize>,
    machines: nat,
    value: u128,
    subsets: Seq<Seq<usize>>,
    tuples: Seq<Seq<usize>>,
    result: Seq<usize>,
) -> bool {
    exists|c: int, t: int|
        #![trigger pairing(subsets[c], tuples[t])]
        {
            &&& is_best_candidate(cost, assignment, machines, value, subsets, tuples, c, t)
            &&& result == reassign(assignment, pairing(subsets[c], tuples[t]))
        }
}

/// The largest of the times; 0 where there is none.
pub fn longest_time(times: &Vec<u128>) -> (longest: u128)
    ensures
        longest == peak(times@),
{
    let mut longest: u128 = 0;
    let mut i: usize = 0;
    while i < times.len()
        invariant
            0 <= i <= times@.len(),
            longest == peak(times@.take(i as int)),
        decreases times@.len() - i,
    {
        proof {
            assert(times@.take(i + 1).drop_last() =~= times@.take(i as int));
        }
        if times[i] > longest {
            longest = times[i];
        }
        i += 1;
    }
    proof {
        assert(times@.take(i as int) =~= times@);
    }
    longest
}

impl MakeSpanProblem {
    /// The number of jobs of the cost table.
    pub open spec fn jobs(&self) -> nat {
        self.cost@.len()
    }

    /// The number of machines of the cost table.
    pub open spec fn machines(&self) -> nat {
        self.cost.columns()
    }

    /// The cost table is a rectangle with a job and a machine at least.
    pub open spec fn well_formed(&self) -> bool {
        &&& self.cost.well_formed()
        &&& self.jobs() >= 1
        &&& self.machines() >= 1
    }

    /// `state` carries the load that the incumbent puts on each machine.
    pub open spec fn consistent(&self, state: MakeSpanState) -> bool {
        &&& self.well_formed()
        &&& self.incumbent@.len() <= self.jobs()
        &&& forall|j: int|
            0 <= j < self.incumbent@.len() ==> (#[trigger] self.incumbent@[j]) < self.machines()
        &&& state.num_jobs == self.jobs()
        &&& state.current_machine_times@ == loads_of(
            self.cost@,
            self.incumbent@,
            self.machines(),
        )
    }

    /// Every job is placed and `state` carries the loads.
    pub open spec fn balanced(&self, state: MakeSpanState) -> bool {
        &&& self.consistent(state)
        &&& self.incumbent@.len() == self.jobs()
    }

    /// Every job is placed, `state` carries the loads and `value` is the
    /// makespan.
    pub open spec fn settled(&self, state: MakeSpanState) -> bool {
        &&& self.balanced(state)
        &&& self.value == peak(state.current_machine_times@)
    }

    /// A problem over `cost` with no job placed yet. A table without jobs or
    /// without machines is refused.
    pub fn new(cost: CostMatrix) -> (made: Result<Self, MakeSpanError>)
        ensures
            made == Err::<Self, MakeSpanError>(MakeSpanError::NoJobs) <==> cost@.len() == 0,
            made == Err::<Self, MakeSpanError>(MakeSpanError::NoMachines) <==> cost@.len() > 0
                && cost.columns() == 0,
            made is Ok <==> cost@.len() > 0 && cost.columns() > 0,
            made matches Ok(problem) ==> {
                &&& problem.cost == cost
                &&& problem.incumbent@ == Seq::<usize>::empty()
                &&& problem.value == 0
                &&& problem.well_formed()
            },
    {
        if cost.num_rows() == 0 {
            return Err(MakeSpanError::NoJobs);
        }
        if cost.num_columns() == 0 {
            return Err(MakeSpanError::NoMachines);
        }
        Ok(MakeSpanProblem { cost, incumbent: Vec::new(), value: 0 })
    }

    /// A problem over `cost` with the assignment `incumbent` already made.
    /// Refused, in this order: a table without jobs, one without machines,
    /// an assignment that does not have one entry per job, and one that names
    /// a machine that the table does not have.
    pub fn new_with_incumbent(cost: CostMatrix, incumbent: Vec<usize>) -> (made: Result<
        Self,
        MakeSpanError,
    >)
        ensures
            made == Err::<Self, MakeSpanError>(MakeSpanError::NoJobs) <==> cost@.len() == 0,
            made == Err::<Self, MakeSpanError>(MakeSpanError::NoMachines) <==> cost@.len() > 0
                && cost.columns() == 0,
            made == Err::<Self, MakeSpanError>(MakeSpanError::IncumbentLength) <==> cost@.len() > 0
                && cost.columns() > 0 && incumbent@.len() != cost@.len(),
            made == Err::<Self, MakeSpanError>(MakeSpanError::MachineOutOfRange) <==> cost@.len()
                > 0 && cost.columns() > 0 && incumbent@.len() == cost@.len() && exists|j: int|
                0 <= j < incumbent@.len() && #[trigger] incumbent@[j] >= cost.columns(),
            made is Ok <==> cost@.len() > 0 && cost.columns() > 0 && incumbent@.len()
                == cost@.len() && forall|j: int|
                0 <= j < incumbent@.len() ==> #[trigger] incumbent@[j] < cost.columns(),
            made matches Ok(problem) ==> {
                &&& problem.cost == cost
                &&& problem.incumbent@ == incumbent@
                &&& problem.value == 0
                &&& problem.well_formed()
            },
    {
        let n = cost.num_rows();
        if n == 0 {
            return Err(MakeSpanError::NoJobs);
        }
        let m = cost.num_columns();
        if m == 0 {
            return Err(MakeSpanError::NoMachines);
        }
        if incumbent.len() != n {
            return Err(MakeSpanError::IncumbentLength);
        }
        let mut j: usize = 0;
        while j < n
            invariant
                0 <= j <= n,
                n == incumbent@.len(),
                n == cost@.len(),
                n > 0,
                m > 0,
                m == cost.columns(),
                forall|q: int| 0 <= q < j ==> #[trigger] incumbent@[q] < m,
            decreases n - j,
        {
            if incumbent[j] >= m {
                return Err(MakeSpanError::MachineOutOfRange);
            }
            j += 1;
        }
        Ok(MakeSpanProblem { cost, incumbent, value: 0 })
    }

    /// The number of jobs.
    pub fn num_jobs(&self) -> (n: usize)
        ensures
            n == self.jobs(),
    {
        self.cost.num_rows()
    }

    /// The number of machines.
    pub fn num_machines(&self) -> (m: usize)
        ensures
            m == self.machines(),
    {
        self.cost.num_columns()
    }
}

impl ProblemInterface for MakeSpanProblem {
    type State = MakeSpanState;

    /// No machine carries any time, and the first job is next.
    open spec fn is_initial(&self, state: MakeSpanState) -> bool {
        &&& state.current_machine_times@ == Seq::new(self.machines(), |m: int| 0u128)
        &&& state.current_job == 0
        &&& state.num_jobs == self.jobs()
    }

    open spec fn objective(&self) -> u128 {
        self.value
    }

    /// The cost table is the same.
    open spec fn same_instance(&self, other: MakeSpanProblem) -> bool {
        self.cost == other.cost
    }

    proof fn same_instance_reflexive(&self) {
    }

    proof fn same_instance_transitive(&self, middle: MakeSpanProblem, last: MakeSpanProblem) {
    }

    fn init_state(&self) -> (state: MakeSpanState) {
        let m = self.num_machines();
        let mut times: Vec<u128> = Vec::new();
        let mut i: usize = 0;
        while i < m
            invariant
                0 <= i <= m,
                times@ == Seq::new(i as nat, |q: int| 0u128),
            decreases m - i,
        {
            times.push(0);
            i += 1;
            proof {
                assert(times@ =~= Seq::new(i as nat, |q: int| 0u128));
            }
        }
        MakeSpanState { current_machine_times: times, current_job: 0, num_jobs: self.num_jobs() }
    }

    fn value(&self) -> (v: u128) {
        self.value
    }
}

/// Placing one more job where the greedy rule puts it keeps an assignment
/// greedy.
pub proof fn lemma_greedy_extend(
    cost: Seq<Seq<u64>>,
    assignment: Seq<usize>,
    machines: nat,
    to: usize,
)
    requires
        greedy_built(cost, assignment, machines),
        is_greedy_choice(
            loads_of(cost, assignment, machines),
            cost[assignment.len() as int],
            to as int,
        ),
    ensures
        greedy_built(cost, assignment.push(to), machines),
{
    let longer = assignment.push(to);
    assert forall|job: int| 0 <= job < longer.len() implies #[trigger] greedy_at(
        cost,
        longer,
        machines,
        job,
    ) by {
        if job < assignment.len() {
            assert(longer.take(job) =~= assignment.take(job));
            assert(greedy_at(cost, assignment, machines, job));
        } else {
            assert(longer.take(job) =~= assignment);
        }
    }
}

impl Action for MakeSpanGreedyAction {
    type Problem = MakeSpanProblem;

    /// The state carries the loads of the jobs placed so far, a job is left
    /// to place, and the machine exists.
    open spec fn enabled(&self, state: MakeSpanState, problem: MakeSpanProblem) -> bool {
        &&& problem.consistent(state)
        &&& state.current_job == problem.incumbent@.len()
        &&& state.current_job < problem.jobs()
        &&& self.action < problem.machines()
    }

    /// The next job is placed on the machine, whose time grows by the job's
    /// cost there. With the last job placed the status is `Terminal` and the
    /// value is the makespan; before that the value is left alone.
    open spec fn transition(
        &self,
        state: MakeSpanState,
        problem: MakeSpanProblem,
        next_state: MakeSpanState,
        next: MakeSpanProblem,
        status: ProblemStateStatus,
    ) -> bool {
        &&& next.cost == problem.cost
        &&& next.incumbent@ == problem.incumbent@.push(self.action)
        &&& next.consistent(next_state)
        &&& next_state.current_job == state.current_job + 1
        &&& next_state.current_machine_times@ == state.current_machine_times@.update(
            self.action as int,
            (state.current_machine_times@[self.action as int]
                + problem.cost@[state.current_job as int][self.action as int]) as u128,
        )
        &&& (status == ProblemStateStatus::Terminal <==> next_state.current_job
            >= next_state.num_jobs)
        &&& next.value == if status == ProblemStateStatus::Terminal {
            peak(next_state.current_machine_times@)
        } else {
            problem.value
        }
    }

    fn execute(&self, state: &mut MakeSpanState, problem: &mut MakeSpanProblem) -> (status:
        ProblemStateStatus) {
        let job = state.current_job;
        let added = problem.cost.cost(job, self.action);
        let before = state.current_machine_times[self.action];
        proof {
            lemma_load_bounds(problem.cost@, problem.incumbent@, self.action as int);
        }
        problem.incumbent.push(self.action);
        state.current_machine_times.set(self.action, before + added as u128);
        state.current_job += 1;
        proof {
            let cost = problem.cost@;
            let placed = old(problem).incumbent@;
            assert forall|m: int| 0 <= m < problem.machines() implies #[trigger] state.current_machine_times@[m]
                == loads_of(cost, problem.incumbent@, problem.machines())[m] by {
                lemma_load_push(cost, placed, self.action, m);
                lemma_load_bounds(cost, placed, m);
                lemma_load_bounds(cost, problem.incumbent@, m);
            }
            assert(state.current_machine_times@ =~= loads_of(
                cost,
                problem.incumbent@,
                problem.machines(),
            ));
        }
        if state.current_job >= state.num_jobs {
            problem.value = longest_time(&state.current_machine_times);
            ProblemStateStatus::Terminal
        } else {
            ProblemStateStatus::NonTerminal
        }
    }
}

impl GreedyInterface for MakeSpanProblem {
    type GreedyAction = MakeSpanGreedyAction;

    /// The jobs before `current_job` are placed, each where the greedy rule
    /// puts it; the state carries their loads; and with every job placed the
    /// value is the makespan.
    open spec fn constructing(&self, state: MakeSpanState) -> bool {
        &&& self.consistent(state)
        &&& state.current_job == self.incumbent@.len()
        &&& greedy_built(self.cost@, self.incumbent@, self.machines())
        &&& (self.incumbent@.len() == self.jobs() ==> self.value == peak(
            state.current_machine_times@,
        ))
    }

    /// The jobs that are not placed yet.
    open spec fn pending(&self, state: MakeSpanState) -> nat {
        (self.jobs() - state.current_job) as nat
    }

    /// The machine on which the next job ends soonest, the lowest index among
    /// equals.
    fn greedy_action(&self, state: &MakeSpanState) -> (action: MakeSpanGreedyAction)
        ensures
            is_greedy_choice(
                state.current_machine_times@,
                self.cost@[state.current_job as int],
                action.action as int,
            ),
    {
        let m = self.num_machines();
        let job = state.current_job;
        let ghost times = state.current_machine_times@;
        let ghost row = self.cost@[job as int];
        proof {
            assert forall|q: int| 0 <= q < m implies 0 <= (#[trigger] times[q]) <= job
                * 0xffff_ffff_ffff_ffff by {
                lemma_load_bounds(self.cost@, self.incumbent@, q);
            }
        }
        let mut best: usize = 0;
        let mut best_time: u128 = state.current_machine_times[0] + self.cost.cost(job, 0) as u128;
        let mut j: usize = 1;
        while j < m
            invariant
                1 <= j <= m,
                0 <= best < j,
                m == self.machines(),
                m == times.len(),
                times == state.current_machine_times@,
                row == self.cost@[job as int],
                self.cost.well_formed(),
                job < self.cost@.len(),
                forall|q: int| 0 <= q < m ==> 0 <= (#[trigger] times[q]) <= job
                    * 0xffff_ffff_ffff_ffff,
                best_time == load_with(times, row, best as int),
                forall|q: int| 0 <= q < j ==> best_time <= #[trigger] load_with(times, row, q),
                forall|q: int| 0 <= q < best ==> best_time < #[trigger] load_with(times, row, q),
            decreases m - j,
        {
            let time = state.current_machine_times[j] + self.cost.cost(job, j) as u128;
            if time < best_time {
                best = j;
                best_time = time;
            }
            j += 1;
        }
        let action = MakeSpanGreedyAction { action: best };
        proof {
            assert forall|next_state: MakeSpanState, next: MakeSpanProblem, status: ProblemStateStatus| #[trigger]
                action.transition(*state, *self, next_state, next, status) implies {
                &&& next.constructing(next_state)
                &&& next.pending(next_state) + 1 == self.pending(*state)
                &&& (status == ProblemStateStatus::Terminal <==> next.pending(next_state) == 0)
            } by {
                lemma_greedy_extend(self.cost@, self.incumbent@, self.machines(), best);
            }
        }
        action
    }
}

/// A state fresh from `init_state`, on a problem with no job placed, starts a
/// greedy construction with every job pending.
pub proof fn lemma_fresh_state_constructs(problem: MakeSpanProblem, state: MakeSpanState)
    requires
        problem.well_formed(),
        problem.incumbent@.len() == 0,
        problem.is_initial(state),
    ensures
        problem.constructing(state),
        problem.pending(state) == problem.jobs(),
        problem.pending(state) > 0,
{
    assert(state.current_machine_times@ =~= loads_of(
        problem.cost@,
        problem.incumbent@,
        problem.machines(),
    ));
}

/// Where a greedy construction has no job pending, every job is placed where
/// the greedy rule puts it, and the value is the largest sum, over the
/// machines, of the costs of the jobs placed on one machine.
pub proof fn lemma_finished_construction(problem: MakeSpanProblem, state: MakeSpanState)
    requires
        problem.constructing(state),
        problem.pending(state) == 0,
    ensures
        problem.incumbent@.len() == problem.jobs(),
        greedy_built(problem.cost@, problem.incumbent@, problem.machines()),
        problem.objective() == makespan(problem.cost@, problem.incumbent@, problem.machines()),
        problem.settled(state),
{
}

impl Action for MakeSpanLocalSearchAction {
    type Problem = MakeSpanProblem;

    /// Every job is placed, the state carries the loads, and every move
    /// names a job and a machine that exist.
    open spec fn enabled(&self, state: MakeSpanState, problem: MakeSpanProblem) -> bool {
        &&& problem.balanced(state)
        &&& moves_within(self.allocations@, problem.jobs(), problem.machines())
    }

    /// The moves are applied first to last, the state carries the new loads,
    /// and the value is the new makespan. The status is `NonTerminal` exactly
    /// when the value went down.
    open spec fn transition(
        &self,
        state: MakeSpanState,
        problem: MakeSpanProblem,
        next_state: MakeSpanState,
        next: MakeSpanProblem,
        status: ProblemStateStatus,
    ) -> bool {
        &&& next.cost == problem.cost
        &&& next.incumbent@ == reassign(problem.incumbent@, self.allocations@)
        &&& next.balanced(next_state)
        &&& next_state.current_job == state.current_job
        &&& next.value == makespan(next.cost@, next.incumbent@, next.machines())
        &&& (status == ProblemStateStatus::NonTerminal <==> problem.value > next.value)
    }

    fn execute(&self, state: &mut MakeSpanState, problem: &mut MakeSpanProblem) -> (status:
        ProblemStateStatus) {
        let mut i: usize = 0;
        while i < self.allocations.len()
            invariant
                0 <= i <= self.allocations@.len(),
                problem.balanced(*state),
                problem.cost == old(problem).cost,
                problem.value == old(problem).value,
                state.current_job == old(state).current_job,
                moves_within(self.allocations@, problem.jobs(), problem.machines()),
                problem.incumbent@ == reassign(
                    old(problem).incumbent@,
                    self.allocations@.take(i as int),
                ),
            decreases self.allocations@.len() - i,
        {
            let job = self.allocations[i].job;
            let to = self.allocations[i].machine;
            let from = problem.incumbent[job];
            let ghost cost = problem.cost@;
            let ghost placed = problem.incumbent@;
            let ghost machines = problem.machines();
            let removed = problem.cost.cost(job, from);
            proof {
                lemma_load_holds_job(cost, placed, job as int);
                lemma_load_bounds(cost, placed, from as int);
                lemma_load_bounds(cost, placed, to as int);
                lemma_load_update(cost, placed, job as int, to, from as int);
                lemma_load_update(cost, placed, job as int, to, to as int);
                lemma_load_bounds(cost, placed.update(job as int, to), to as int);
            }
            let lighter = state.current_machine_times[from] - removed as u128;
            state.current_machine_times.set(from, lighter);
            problem.incumbent.set(job, to);
            let added = problem.cost.cost(job, to);
            let heavier = state.current_machine_times[to] + added as u128;
            state.current_machine_times.set(to, heavier);
            proof {
                assert(problem.incumbent@ == placed.update(job as int, to));
                assert forall|m: int| 0 <= m < machines implies #[trigger] state.current_machine_times@[m]
                    == loads_of(cost, problem.incumbent@, machines)[m] by {
                    lemma_load_update(cost, placed, job as int, to, m);
                    lemma_load_bounds(cost, placed, m);
                    lemma_load_bounds(cost, problem.incumbent@, m);
                }
                assert(state.current_machine_times@ =~= loads_of(
                    cost,
                    problem.incumbent@,
                    machines,
                ));
                assert(self.allocations@.take(i + 1).drop_last() =~= self.allocations@.take(
                    i as int,
                ));
            }
            i += 1;
        }
        proof {
            assert(self.allocations@.take(i as int) =~= self.allocations@);
        }
        let old_val = problem.value;
        problem.value = longest_time(&state.current_machine_times);
        if old_val > problem.value {
            ProblemStateStatus::NonTerminal
        } else {
            ProblemStateStatus::Terminal
        }
    }
}

/// The moves that send job `jobs[i]` to machine `machines[i]`.
fn pair_moves(jobs: &Vec<usize>, machines: &Vec<usize>) -> (moves: Vec<MakeSpanAllocation>)
    ensures
        moves@ == pairing(jobs@, machines@),
{
    let mut moves: Vec<MakeSpanAllocation> = Vec::new();
    let mut i: usize = 0;
    while i < jobs.len() && i < machines.len()
        invariant
            0 <= i <= jobs@.len(),
            i <= machines@.len(),
            moves@ == pairing(jobs@, machines@).take(i as int),
        decreases jobs@.len() - i,
    {
        moves.push(MakeSpanAllocation { job: jobs[i], machine: machines[i] });
        i += 1;
        proof {
            assert(moves@ =~= pairing(jobs@, machines@).take(i as int));
        }
    }
    proof {
        assert(pairing(jobs@, machines@).take(i as int) =~= pairing(jobs@, machines@));
    }
    moves
}

impl MakeSpanProblem {
    /// The moves that send each of `jobs` where the incumbent has it.
    fn revert_moves(&self, jobs: &Vec<usize>) -> (moves: Vec<MakeSpanAllocation>)
        requires
            forall|i: int| 0 <= i < jobs@.len() ==> (#[trigger] jobs@[i]) < self.incumbent@.len(),
        ensures
            moves@ == current_moves(self.incumbent@, jobs@),
    {
        let mut moves: Vec<MakeSpanAllocation> = Vec::new();
        let mut i: usize = 0;
        while i < jobs.len()
            invariant
                0 <= i <= jobs@.len(),
                forall|i: int|
                    0 <= i < jobs@.len() ==> (#[trigger] jobs@[i]) < self.incumbent@.len(),
                moves@ == current_moves(self.incumbent@, jobs@).take(i as int),
            decreases jobs@.len() - i,
        {
            moves.push(MakeSpanAllocation { job: jobs[i], machine: self.incumbent[jobs[i]] });
            i += 1;
            proof {
                assert(moves@ =~= current_moves(self.incumbent@, jobs@).take(i as int));
            }
        }
        proof {
            assert(current_moves(self.incumbent@, jobs@).take(i as int) =~= current_moves(
                self.incumbent@,
                jobs@,
            ));
        }
        moves
    }

    /// Tries every candidate, subset by subset and within a subset tuple by
    /// tuple: applies it, reads the value, and sends the subset's jobs back.
    /// The result is the candidate with the lowest value under the current
    /// one, the earliest of those with that value; none where no candidate is
    /// under the current value. The problem and the state end as they began.
    pub fn best_move(
        &mut self,
        state: &mut MakeSpanState,
        subsets: &Vec<Vec<usize>>,
        tuples: &Vec<Vec<usize>>,
    ) -> (found: Option<MakeSpanLocalSearchAction>)
        requires
            old(self).settled(*old(state)),
            entries_below(nested(subsets@), old(self).jobs()),
            entries_below(nested(tuples@), old(self).machines()),
        ensures
            final(self).cost == old(self).cost,
            final(self).incumbent@ == old(self).incumbent@,
            final(self).value == old(self).value,
            final(self).settled(*final(state)),
            final(state).current_machine_times@ == old(state).current_machine_times@,
            final(state).current_job == old(state).current_job,
            final(state).num_jobs == old(state).num_jobs,
            found is None <==> !improving_exists(
                old(self).cost@,
                old(self).incumbent@,
                old(self).machines(),
                old(self).value,
                nested(subsets@),
                nested(tuples@),
            ),
            found matches Some(action) ==> exists|c: int, t: int|
                #![trigger pairing(nested(subsets@)[c], nested(tuples@)[t])]
                {
                    &&& is_best_candidate(
                        old(self).cost@,
                        old(self).incumbent@,
                        old(self).machines(),
                        old(self).value,
                        nested(subsets@),
                        nested(tuples@),
                        c,
                        t,
                    )
                    &&& action.allocations@ == pairing(nested(subsets@)[c], nested(tuples@)[t])
                },
    {
        let ghost cost = self.cost@;
        let ghost placed = self.incumbent@;
        let ghost machines = self.machines();
        let ghost value = self.value;
        let ghost all_subsets = nested(subsets@);
        let ghost all_tuples = nested(tuples@);
        let ghost times = state.current_machine_times@;
        let mut best_value = self.value;
        let mut best_action: Option<MakeSpanLocalSearchAction> = None;
        let ghost mut bc: int = 0;
        let ghost mut bt: int = 0;
        let mut c: usize = 0;
        while c < subsets.len()
            invariant
                0 <= c <= subsets@.len(),
                self.cost == old(self).cost,
                cost == self.cost@,
                machines == self.machines(),
                self.incumbent@ == placed,
                self.value == value,
                self.settled(*state),
                state.current_machine_times@ == times,
                state.current_job == old(state).current_job,
                state.num_jobs == old(state).num_jobs,
                all_subsets == nested(subsets@),
                all_tuples == nested(tuples@),
                entries_below(all_subsets, self.jobs()),
                entries_below(all_tuples, machines),
                best_value <= value,
                best_action is None ==> best_value == value,
                best_action matches Some(action) ==> {
                    &&& 0 <= bc < all_subsets.len()
                    &&& 0 <= bt < all_tuples.len()
                    &&& action.allocations@ == pairing(all_subsets[bc], all_tuples[bt])
                    &&& best_value == candidate_value(
                        cost,
                        placed,
                        machines,
                        all_subsets,
                        all_tuples,
                        bc,
                        bt,
                    )
                    &&& best_value < value
                    &&& forall|d: int, u: int|
                        0 <= d < all_subsets.len() && 0 <= u < all_tuples.len() && scanned_before(
                            d,
                            u,
                            bc,
                            bt,
                        ) ==> best_value < #[trigger] candidate_value(
                            cost,
                            placed,
                            machines,
                            all_subsets,
                            all_tuples,
                            d,
                            u,
                        )
                },
                forall|d: int, u: int|
                    0 <= d < c && 0 <= u < all_tuples.len() ==> best_value
                        <= #[trigger] candidate_value(
                        cost,
                        placed,
                        machines,
                        all_subsets,
                        all_tuples,
                        d,
                        u,
                    ),
            decreases subsets@.len() - c,
        {
            let subset = &subsets[c];
            proof {
                assert forall|i: int| 0 <= i < subset@.len() implies (#[trigger] subset@[i])
                    < self.incumbent@.len() by {
                    assert(all_subsets[c as int][i] < self.jobs());
                }
            }
            let revert = MakeSpanLocalSearchAction { allocations: self.revert_moves(subset) };
            let mut t: usize = 0;
            while t < tuples.len()
                invariant
                    0 <= t <= tuples@.len(),
                    0 <= c < subsets@.len(),
                    subset@ == all_subsets[c as int],
                    revert.allocations@ == current_moves(placed, subset@),
                    self.cost == old(self).cost,
                    cost == self.cost@,
                    machines == self.machines(),
                    self.incumbent@ == placed,
                    self.value == value,
                    self.settled(*state),
                    state.current_machine_times@ == times,
                    state.current_job == old(state).current_job,
                    state.num_jobs == old(state).num_jobs,
                    all_subsets == nested(subsets@),
                    all_tuples == nested(tuples@),
                    entries_below(all_subsets, self.jobs()),
                    entries_below(all_tuples, machines),
                    best_value <= value,
                    best_action is None ==> best_value == value,
                    best_action matches Some(action) ==> {
                        &&& 0 <= bc < all_subsets.len()
                        &&& 0 <= bt < all_tuples.len()
                        &&& action.allocations@ == pairing(all_subsets[bc], all_tuples[bt])
                        &&& best_value == candidate_value(
                            cost,
                            placed,
                            machines,
                            all_subsets,
                            all_tuples,
                            bc,
                            bt,
                        )
                        &&& best_value < value
                        &&& forall|d: int, u: int|
                            0 <= d < all_subsets.len() && 0 <= u < all_tuples.len()
                                && scanned_before(d, u, bc, bt) ==> best_value
                                < #[trigger] candidate_value(
                                cost,
                                placed,
                                machines,
                                all_subsets,
                                all_tuples,
                                d,
                                u,
                            )
                    },
                    forall|d: int, u: int|
                        0 <= d < all_subsets.len() && 0 <= u < all_tuples.len() && scanned_before(
                            d,
                            u,
                            c as int,
                            t as int,
                        ) ==> best_value <= #[trigger] candidate_value(
                            cost,
                            placed,
                            machines,
                            all_subsets,
                            all_tuples,
                            d,
                            u,
                        ),
                decreases tuples@.len() - t,
            {
                let action = MakeSpanLocalSearchAction {
                    allocations: pair_moves(subset, &tuples[t]),
                };
                let ghost moves = pairing(all_subsets[c as int], all_tuples[t as int]);
                proof {
                    assert(action.allocations@ == moves);
                    assert forall|i: int| 0 <= i < moves.len() implies (#[trigger] moves[i]).job
                        < self.jobs() && moves[i].machine < machines by {
                        assert(all_subsets[c as int][i] < self.jobs());
                        assert(all_tuples[t as int][i] < machines);
                    }
                }
                action.execute(state, self);
                proof {
                    assert(self.value == candidate_value(
                        cost,
                        placed,
                        machines,
                        all_subsets,
                        all_tuples,
                        c as int,
                        t as int,
                    ));
                }
                if self.value < best_value {
                    best_value = self.value;
                    best_action = Some(action);
                    proof {
                        bc = c as int;
                        bt = t as int;
                    }
                }
                proof {
                    let back = revert.allocations@;
                    assert forall|i: int| 0 <= i < back.len() implies (#[trigger] back[i]).job
                        < self.jobs() && back[i].machine < machines by {
                        assert(all_subsets[c as int][i] < self.jobs());
                        assert(placed[all_subsets[c as int][i] as int] < machines);
                    }
                    assert forall|job: int| touches(jobs_of(moves), job) implies touches(
                        subset@,
                        job,
                    ) by {
                        let i = choose|i: int|
                            0 <= i < jobs_of(moves).len() && #[trigger] jobs_of(moves)[i] == job;
                        assert(subset@[i] == job);
                    }
                    lemma_restore_after(placed, moves, subset@);
                }
                revert.execute(state, self);
                proof {
                    assert(self.incumbent@ == placed);
                    assert(state.current_machine_times@ == times);
                }
                t += 1;
            }
            c += 1;
        }
        proof {
            if best_action is None {
                assert(!improving_exists(cost, placed, machines, value, all_subsets, all_tuples));
            } else {
                assert(candidate_value(cost, placed, machines, all_subsets, all_tuples, bc, bt)
                    < value);
                assert(is_best_candidate(
                    cost,
                    placed,
                    machines,
                    value,
                    all_subsets,
                    all_tuples,
                    bc,
                    bt,
                ));
            }
        }
        best_action
    }
}

impl LocalSearchInterface for MakeSpanProblem {
    type LSAction = MakeSpanLocalSearchAction;

    /// Every job is placed, the state carries the loads, the value is the
    /// makespan, and a subset of the jobs can be enumerated.
    open spec fn searchable(&self, state: MakeSpanState) -> bool {
        &&& self.settled(state)
        &&& self.jobs() <= usize::MAX / 64
    }

    /// Some subset of `k` jobs can be sent to some `k` machines so that the
    /// makespan goes down.
    open spec fn improvable(&self, k: usize, state: MakeSpanState) -> bool {
        &&& k <= self.jobs()
        &&& improving_exists(
            self.cost@,
            self.incumbent@,
            self.machines(),
            self.value,
            combinations_of(self.jobs(), k as nat),
            tuples_of(self.machines(), k as nat),
        )
    }

    /// The best candidate among the subsets of `k` jobs and the tuples of `k`
    /// machines is applied: the incumbent is reassigned as it says, the state
    /// carries the new loads, and the value is the new makespan.
    open spec fn best_step(
        &self,
        k: usize,
        state: MakeSpanState,
        next: MakeSpanProblem,
        next_state: MakeSpanState,
    ) -> bool {
        &&& k <= self.jobs()
        &&& next.cost == self.cost
        &&& next.settled(next_state)
        &&& next_state.current_job == state.current_job
        &&& best_reassignment(
            self.cost@,
            self.incumbent@,
            self.machines(),
            self.value,
            combinations_of(self.jobs(), k as nat),
            tuples_of(self.machines(), k as nat),
            next.incumbent@,
        )
    }

    /// The cost table, the incumbent, the value, the machine times and the
    /// job counters are the same.
    open spec fn same_solution(
        &self,
        state: MakeSpanState,
        other: MakeSpanProblem,
        other_state: MakeSpanState,
    ) -> bool {
        &&& self.cost == other.cost
        &&& self.incumbent@ == other.incumbent@
        &&& self.value == other.value
        &&& state.current_machine_times@ == other_state.current_machine_times@
        &&& state.current_job == other_state.current_job
        &&& state.num_jobs == other_state.num_jobs
    }

    proof fn same_solution_reflexive(&self, state: MakeSpanState) {
    }

    proof fn same_solution_transitive(
        &self,
        state: MakeSpanState,
        middle: MakeSpanProblem,
        middle_state: MakeSpanState,
        last: MakeSpanProblem,
        last_state: MakeSpanState,
    ) {
    }

    proof fn same_solution_agrees(
        &self,
        state: MakeSpanState,
        other: MakeSpanProblem,
        other_state: MakeSpanState,
    ) {
    }

    /// The best move over every subset of `k` jobs and every tuple of `k`
    /// machines: see `best_move`. With more than `k` jobs asked for than there
    /// are, there is no subset and no move.
    fn local_search_action(&mut self, k: usize, state: &mut MakeSpanState) -> (found: Option<
        MakeSpanLocalSearchAction,
    >)
        ensures
            final(self).incumbent@ == old(self).incumbent@,
            final(state).current_machine_times@ == old(state).current_machine_times@,
            final(state).current_job == old(state).current_job,
            final(state).num_jobs == old(state).num_jobs,
            found matches Some(action) ==> exists|c: int, t: int|
                #![trigger pairing(combinations_of(old(self).jobs(), k as nat)[c], tuples_of(old(self).machines(), k as nat)[t])]
                {
                    &&& is_best_candidate(
                        old(self).cost@,
                        old(self).incumbent@,
                        old(self).machines(),
                        old(self).value,
                        combinations_of(old(self).jobs(), k as nat),
                        tuples_of(old(self).machines(), k as nat),
                        c,
                        t,
                    )
                    &&& action.allocations@ == pairing(
                        combinations_of(old(self).jobs(), k as nat)[c],
                        tuples_of(old(self).machines(), k as nat)[t],
                    )
                },
    {
        let n = self.num_jobs();
        let m = self.num_machines();
        if k > n {
            return None;
        }
        let subsets = index_combinations(n, k);
        let tuples = index_tuples(m, k);
        let found = self.best_move(state, &subsets, &tuples);
        proof {
            if found is Some {
                    let action = found->Some_0;
                    let (c, t) = choose|c: int, t: int|
                        #![trigger pairing(nested(subsets@)[c], nested(tuples@)[t])]
                        {
                            &&& is_best_candidate(
                                old(self).cost@,
                                old(self).incumbent@,
                                old(self).machines(),
                                old(self).value,
                                nested(subsets@),
                                nested(tuples@),
                                c,
                                t,
                            )
                            &&& action.allocations@ == pairing(
                                nested(subsets@)[c],
                                nested(tuples@)[t],
                            )
                        };
                    let moves = action.allocations@;
                    assert forall|i: int| 0 <= i < moves.len() implies (#[trigger] moves[i]).job
                        < self.jobs() && moves[i].machine < self.machines() by {
                        assert(nested(subsets@)[c][i] < self.jobs());
                        assert(nested(tuples@)[t][i] < self.machines());
                    }
                    assert(candidate_value(
                        self.cost@,
                        self.incumbent@,
                        self.machines(),
                        nested(subsets@),
                        nested(tuples@),
                        c,
                        t,
                    ) < self.value);
            }
        }
        found
    }
}

/// A finished greedy construction can be searched, where the number of jobs
/// leaves room to enumerate their subsets.
pub proof fn lemma_finished_construction_searchable(problem: MakeSpanProblem, state: MakeSpanState)
    requires
        problem.constructing(state),
        problem.pending(state) == 0,
        problem.jobs() <= usize::MAX / 64,
    ensures
        problem.searchable(state),
{
}

/// Round trip: where a move is executed on a settled problem, and then the
/// move that sends every job it names back where it was, the incumbent, the
/// machine times and the value are what they were before the first move.
pub proof fn lemma_execute_round_trip(
    there: MakeSpanLocalSearchAction,
    back: MakeSpanLocalSearchAction,
    problem: MakeSpanProblem,
    state: MakeSpanState,
    moved: MakeSpanProblem,
    moved_state: MakeSpanState,
    moved_status: ProblemStateStatus,
    restored: MakeSpanProblem,
    restored_state: MakeSpanState,
    restored_status: ProblemStateStatus,
)
    requires
        problem.settled(state),
        there.enabled(state, problem),
        there.transition(state, problem, moved_state, moved, moved_status),
        back.allocations@ == current_moves(problem.incumbent@, jobs_of(there.allocations@)),
        back.transition(moved_state, moved, restored_state, restored, restored_status),
    ensures
        back.enabled(moved_state, moved),
        restored.incumbent@ == problem.incumbent@,
        restored.objective() == problem.objective(),
        restored_state.current_machine_times@ == state.current_machine_times@,
        restored.settled(restored_state),
{
    lemma_round_trip(problem.incumbent@, there.allocations@);
    let moves = back.allocations@;
    assert forall|i: int| 0 <= i < moves.len() implies (#[trigger] moves[i]).job < moved.jobs()
        && moves[i].machine < moved.machines() by {
        assert(there.allocations@[i].job < problem.jobs());
    }
}

} // verus!
