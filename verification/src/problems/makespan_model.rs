use vstd::prelude::*;
use crate::problems::makespan_problem::MakeSpanAllocation;

verus! {

/// The total cost of the jobs that `assignment` places on `machine`.
pub open spec fn load(cost: Seq<Seq<u64>>, assignment: Seq<usize>, machine: int) -> int
    decreases assignment.len(),
{
    if assignment.len() == 0 {
        0
    } else {
        let job = assignment.len() - 1;
        load(cost, assignment.drop_last(), machine) + if assignment[job] == machine {
            cost[job][machine] as int
        } else {
            0
        }
    }
}

/// The load of each of the `machines` machines under `assignment`.
pub open spec fn loads_of(cost: Seq<Seq<u64>>, assignment: Seq<usize>, machines: nat) -> Seq<u128> {
    Seq::new(machines, |m: int| load(cost, assignment, m) as u128)
}

/// The largest entry of `times`; 0 where there is none.
pub open spec fn peak(times: Seq<u128>) -> u128
    decreases times.len(),
{
    if times.len() == 0 {
        0
    } else {
        let rest = peak(times.drop_last());
        if times.last() > rest {
            times.last()
        } else {
            rest
        }
    }
}

/// The makespan of `assignment`: the largest load of any machine.
pub open spec fn makespan(cost: Seq<Seq<u64>>, assignment: Seq<usize>, machines: nat) -> u128 {
    peak(loads_of(cost, assignment, machines))
}

/// What machine `m` would carry if the job with costs `row` were added to it.
pub open spec fn load_with(times: Seq<u128>, row: Seq<u64>, m: int) -> int {
    times[m] + row[m]
}

/// `choice` is the machine with the least resulting load, the lowest index
/// among equals.
pub open spec fn is_greedy_choice(times: Seq<u128>, row: Seq<u64>, choice: int) -> bool {
    &&& 0 <= choice < times.len()
    &&& forall|m: int|
        0 <= m < times.len() ==> load_with(times, row, choice) <= #[trigger] load_with(
            times,
            row,
            m,
        )
    &&& forall|m: int|
        0 <= m < choice ==> load_with(times, row, choice) < #[trigger] load_with(times, row, m)
}

/// Job `job` stands where the greedy rule puts it, given the jobs before it.
pub open spec fn greedy_at(
    cost: Seq<Seq<u64>>,
    assignment: Seq<usize>,
    machines: nat,
    job: int,
) -> bool {
    is_greedy_choice(
        loads_of(cost, assignment.take(job), machines),
        cost[job],
        assignment[job] as int,
    )
}

/// Every job of `assignment` stands where the greedy rule puts it.
pub open spec fn greedy_built(cost: Seq<Seq<u64>>, assignment: Seq<usize>, machines: nat) -> bool {
    forall|job: int|
        0 <= job < assignment.len() ==> #[trigger] greedy_at(cost, assignment, machines, job)
}

/// `assignment` after the moves, applied first to last.
pub open spec fn reassign(assignment: Seq<usize>, moves: Seq<MakeSpanAllocation>) -> Seq<usize>
    decreases moves.len(),
{
    if moves.len() == 0 {
        assignment
    } else {
        reassign(assignment, moves.drop_last()).update(
            moves.last().job as int,
            moves.last().machine,
        )
    }
}

/// The moves that send job `jobs[i]` to machine `machines[i]`, as far as both
/// lists go.
pub open spec fn pairing(jobs: Seq<usize>, machines: Seq<usize>) -> Seq<MakeSpanAllocation> {
    Seq::new(
        if jobs.len() <= machines.len() {
            jobs.len()
        } else {
            machines.len()
        },
        |i: int| (MakeSpanAllocation { job: jobs[i], machine: machines[i] }),
    )
}

/// The moves that send each of `jobs` where `assignment` has it.
pub open spec fn current_moves(assignment: Seq<usize>, jobs: Seq<usize>) -> Seq<MakeSpanAllocation> {
    Seq::new(
        jobs.len(),
        |i: int| (MakeSpanAllocation { job: jobs[i], machine: assignment[jobs[i] as int] }),
    )
}

/// The jobs that the moves speak of, in their order.
pub open spec fn jobs_of(moves: Seq<MakeSpanAllocation>) -> Seq<usize> {
    Seq::new(moves.len(), |i: int| moves[i].job)
}

/// Some entry of `jobs` is `job`.
pub open spec fn touches(jobs: Seq<usize>, job: int) -> bool {
    exists|i: int| 0 <= i < jobs.len() && #[trigger] jobs[i] == job
}

/// Every move names a job under `jobs` and a machine under `machines`.
pub open spec fn moves_within(moves: Seq<MakeSpanAllocation>, jobs: nat, machines: nat) -> bool {
    forall|i: int|
        0 <= i < moves.len() ==> (#[trigger] moves[i]).job < jobs && moves[i].machine < machines
}

/// A load is a sum of at most one cost per job.
pub proof fn lemma_load_bounds(cost: Seq<Seq<u64>>, assignment: Seq<usize>, machine: int)
    ensures
        0 <= load(cost, assignment, machine) <= assignment.len() * 0xffff_ffff_ffff_ffff,
    decreases assignment.len(),
{
    if assignment.len() > 0 {
        lemma_load_bounds(cost, assignment.drop_last(), machine);
    }
}

/// Placing one more job adds its cost to the machine it goes to.
pub proof fn lemma_load_push(cost: Seq<Seq<u64>>, assignment: Seq<usize>, to: usize, machine: int)
    ensures
        load(cost, assignment.push(to), machine) == load(cost, assignment, machine) + if to
            == machine {
            cost[assignment.len() as int][machine] as int
        } else {
            0
        },
{
    assert(assignment.push(to).drop_last() =~= assignment);
}

/// Moving a job takes its cost off the machine it leaves and adds its cost on
/// the machine it goes to.
pub proof fn lemma_load_update(
    cost: Seq<Seq<u64>>,
    assignment: Seq<usize>,
    job: int,
    to: usize,
    machine: int,
)
    requires
        0 <= job < assignment.len(),
    ensures
        load(cost, assignment.update(job, to), machine) == load(cost, assignment, machine) - (if assignment[job]
            == machine {
            cost[job][machine] as int
        } else {
            0
        }) + (if to == machine {
            cost[job][machine] as int
        } else {
            0
        }),
    decreases assignment.len(),
{
    let last = assignment.len() - 1;
    if job == last {
        assert(assignment.update(job, to).drop_last() =~= assignment.drop_last());
    } else {
        assert(assignment.update(job, to).drop_last() =~= assignment.drop_last().update(job, to));
        lemma_load_update(cost, assignment.drop_last(), job, to, machine);
    }
}

/// A machine's load is at least the cost of any job placed on it.
pub proof fn lemma_load_holds_job(cost: Seq<Seq<u64>>, assignment: Seq<usize>, job: int)
    requires
        0 <= job < assignment.len(),
    ensures
        load(cost, assignment, assignment[job] as int) >= cost[job][assignment[job] as int],
    decreases assignment.len(),
{
    let last = assignment.len() - 1;
    lemma_load_bounds(cost, assignment.drop_last(), assignment[job] as int);
    if job != last {
        lemma_load_holds_job(cost, assignment.drop_last(), job);
    }
}

/// Moves change the entries of the jobs they name and no others.
pub proof fn lemma_reassign_keeps(assignment: Seq<usize>, moves: Seq<MakeSpanAllocation>, job: int)
    requires
        0 <= job < assignment.len(),
        !touches(jobs_of(moves), job),
        forall|i: int| 0 <= i < moves.len() ==> (#[trigger] moves[i]).job < assignment.len(),
    ensures
        reassign(assignment, moves).len() == assignment.len(),
        reassign(assignment, moves)[job] == assignment[job],
    decreases moves.len(),
{
    lemma_reassign_len(assignment, moves);
    if moves.len() > 0 {
        let rest = moves.drop_last();
        lemma_reassign_len(assignment, rest);
        assert(jobs_of(moves)[moves.len() - 1] == moves.last().job);
        if touches(jobs_of(rest), job) {
            let i = choose|i: int| 0 <= i < jobs_of(rest).len() && #[trigger] jobs_of(rest)[i] == job;
            assert(jobs_of(moves)[i] == job);
        }
        lemma_reassign_keeps(assignment, rest, job);
    }
}

/// Moves keep the number of jobs.
pub proof fn lemma_reassign_len(assignment: Seq<usize>, moves: Seq<MakeSpanAllocation>)
    requires
        forall|i: int| 0 <= i < moves.len() ==> (#[trigger] moves[i]).job < assignment.len(),
    ensures
        reassign(assignment, moves).len() == assignment.len(),
    decreases moves.len(),
{
    if moves.len() > 0 {
        lemma_reassign_len(assignment, moves.drop_last());
    }
}

/// Sending each of `jobs` back where `home` has it restores the entries
/// of those jobs and leaves the others alone.
pub proof fn lemma_restore_at(
    current: Seq<usize>,
    home: Seq<usize>,
    jobs: Seq<usize>,
    job: int,
)
    requires
        current.len() == home.len(),
        0 <= job < home.len(),
        forall|i: int| 0 <= i < jobs.len() ==> (#[trigger] jobs[i]) < home.len(),
    ensures
        reassign(current, current_moves(home, jobs)).len() == home.len(),
        reassign(current, current_moves(home, jobs))[job] == if touches(jobs, job) {
            home[job]
        } else {
            current[job]
        },
    decreases jobs.len(),
{
    let moves = current_moves(home, jobs);
    lemma_reassign_len(current, moves);
    if jobs.len() > 0 {
        let rest = jobs.drop_last();
        let last = jobs.last();
        assert(moves.drop_last() =~= current_moves(home, rest));
        lemma_reassign_len(current, moves.drop_last());
        lemma_restore_at(current, home, rest, job);
        assert(jobs[jobs.len() - 1] == last);
        if last != job {
            if touches(rest, job) {
                let i = choose|i: int| 0 <= i < rest.len() && #[trigger] rest[i] == job;
                assert(jobs[i] == job);
            }
            if touches(jobs, job) {
                let i = choose|i: int| 0 <= i < jobs.len() && #[trigger] jobs[i] == job;
                assert(rest[i] == job);
            }
        }
    }
}

/// Applying moves and then sending every job they name back where it was
/// restores the assignment.
pub proof fn lemma_round_trip(assignment: Seq<usize>, moves: Seq<MakeSpanAllocation>)
    requires
        forall|i: int| 0 <= i < moves.len() ==> (#[trigger] moves[i]).job < assignment.len(),
    ensures
        reassign(reassign(assignment, moves), current_moves(assignment, jobs_of(moves)))
            == assignment,
{
    lemma_restore_after(assignment, moves, jobs_of(moves));
}

/// Applying moves and then sending back every job of `jobs`, which covers
/// the jobs that the moves name, restores the assignment.
pub proof fn lemma_restore_after(
    assignment: Seq<usize>,
    moves: Seq<MakeSpanAllocation>,
    jobs: Seq<usize>,
)
    requires
        forall|i: int| 0 <= i < jobs.len() ==> (#[trigger] jobs[i]) < assignment.len(),
        forall|i: int| 0 <= i < moves.len() ==> (#[trigger] moves[i]).job < assignment.len(),
        forall|job: int| touches(jobs_of(moves), job) ==> touches(jobs, job),
    ensures
        reassign(reassign(assignment, moves), current_moves(assignment, jobs)) == assignment,
{
    let moved = reassign(assignment, moves);
    let back = reassign(moved, current_moves(assignment, jobs));
    lemma_reassign_len(assignment, moves);
    lemma_reassign_len(moved, current_moves(assignment, jobs));
    assert forall|job: int| 0 <= job < assignment.len() implies back[job] == assignment[job] by {
        lemma_restore_at(moved, assignment, jobs, job);
        if !touches(jobs, job) {
            lemma_reassign_keeps(assignment, moves, job);
        }
    }
    assert(back =~= assignment);
}

} // verus!
