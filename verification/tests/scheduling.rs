use makespan_solver::interfaces::action_interface::Action;
use makespan_solver::interfaces::greedy_interface::{GreedyInterface, GreedySolver};
use makespan_solver::interfaces::local_search_interface::{LocalSearchInterface, LocalSearchSolver};
use makespan_solver::interfaces::problem_interface::{ProblemInterface, ProblemStateStatus};
use makespan_solver::problems::cost_matrix::{CostMatrix, MakeSpanError};
use makespan_solver::problems::makespan_problem::{
    longest_time, MakeSpanAllocation, MakeSpanGreedyAction, MakeSpanLocalSearchAction,
    MakeSpanProblem, MakeSpanState,
};

fn seven_jobs() -> Vec<Vec<u64>> {
    vec![
        vec![21, 43, 31],
        vec![11, 12, 9],
        vec![27, 24, 20],
        vec![39, 32, 22],
        vec![72, 77, 43],
        vec![55, 34, 44],
        vec![45, 40, 39],
    ]
}

fn problem_of(rows: &Vec<Vec<u64>>) -> MakeSpanProblem {
    let cost = match CostMatrix::from_rows(rows) {
        Ok(cost) => cost,
        Err(_) => panic!("the table is a rectangle"),
    };
    match MakeSpanProblem::new(cost) {
        Ok(problem) => problem,
        Err(_) => panic!("the table has jobs and machines"),
    }
}

fn loads(rows: &Vec<Vec<u64>>, incumbent: &Vec<usize>, machines: usize) -> Vec<u128> {
    let mut times = vec![0u128; machines];
    for (job, machine) in incumbent.iter().enumerate() {
        times[*machine] += rows[job][*machine] as u128;
    }
    times
}

/// A problem with every job placed as `incumbent` says, and the state that
/// goes with it.
fn settled(rows: &Vec<Vec<u64>>, incumbent: Vec<usize>) -> (MakeSpanProblem, MakeSpanState) {
    let cost = match CostMatrix::from_rows(rows) {
        Ok(cost) => cost,
        Err(_) => panic!("the table is a rectangle"),
    };
    let times = loads(rows, &incumbent, rows[0].len());
    let mut problem = match MakeSpanProblem::new_with_incumbent(cost, incumbent) {
        Ok(problem) => problem,
        Err(_) => panic!("the assignment fits the table"),
    };
    problem.value = longest_time(&times);
    let state =
        MakeSpanState { current_machine_times: times, current_job: rows.len(), num_jobs: rows.len() };
    (problem, state)
}

fn pairs(action: &MakeSpanLocalSearchAction) -> Vec<(usize, usize)> {
    action.allocations.iter().map(|a| (a.job, a.machine)).collect()
}

#[test]
fn cost_matrix_keeps_rows_and_columns() {
    let rows = vec![vec![1u64, 2, 3], vec![4, 5, 6]];
    let cost = match CostMatrix::from_rows(&rows) {
        Ok(cost) => cost,
        Err(_) => panic!("the table is a rectangle"),
    };
    assert_eq!(cost.num_rows(), 2);
    assert_eq!(cost.num_columns(), 3);
    for i in 0..2 {
        for j in 0..3 {
            assert_eq!(cost.cost(i, j), rows[i][j]);
        }
    }
    assert_eq!(cost.cost(1, 0), 4);
    assert_eq!(cost.cost(0, 2), 3);
}

#[test]
fn cost_matrix_without_rows_is_refused() {
    let rows: Vec<Vec<u64>> = Vec::new();
    assert!(matches!(CostMatrix::from_rows(&rows), Err(MakeSpanError::NoJobs)));
}

#[test]
fn cost_matrix_without_columns_is_refused() {
    let rows: Vec<Vec<u64>> = vec![Vec::new(), Vec::new()];
    assert!(matches!(CostMatrix::from_rows(&rows), Err(MakeSpanError::NoMachines)));
}

#[test]
fn cost_matrix_with_ragged_rows_is_refused() {
    let rows: Vec<Vec<u64>> = vec![vec![1, 2], vec![3]];
    assert!(matches!(CostMatrix::from_rows(&rows), Err(MakeSpanError::RaggedRows)));
    let longer: Vec<Vec<u64>> = vec![vec![1, 2], vec![3, 4, 5]];
    assert!(matches!(CostMatrix::from_rows(&longer), Err(MakeSpanError::RaggedRows)));
}

#[test]
fn new_problem_is_empty() {
    let problem = problem_of(&seven_jobs());
    assert_eq!(problem.num_jobs(), 7);
    assert_eq!(problem.num_machines(), 3);
    assert!(problem.incumbent.is_empty());
    assert_eq!(problem.value(), 0);
}

#[test]
fn incumbent_of_wrong_length_is_refused() {
    let rows = vec![vec![1u64, 2], vec![3, 4]];
    let cost = CostMatrix::from_rows(&rows).ok().unwrap();
    assert!(matches!(
        MakeSpanProblem::new_with_incumbent(cost, vec![0]),
        Err(MakeSpanError::IncumbentLength)
    ));
    let cost = CostMatrix::from_rows(&rows).ok().unwrap();
    assert!(matches!(
        MakeSpanProblem::new_with_incumbent(cost, vec![0, 1, 0]),
        Err(MakeSpanError::IncumbentLength)
    ));
}

#[test]
fn incumbent_with_unknown_machine_is_refused() {
    let rows = vec![vec![1u64, 2], vec![3, 4]];
    let cost = CostMatrix::from_rows(&rows).ok().unwrap();
    assert!(matches!(
        MakeSpanProblem::new_with_incumbent(cost, vec![0, 2]),
        Err(MakeSpanError::MachineOutOfRange)
    ));
}

#[test]
fn incumbent_that_fits_is_kept() {
    let rows = vec![vec![1u64, 2], vec![3, 4]];
    let cost = CostMatrix::from_rows(&rows).ok().unwrap();
    let problem = MakeSpanProblem::new_with_incumbent(cost, vec![1, 0]).ok().unwrap();
    assert_eq!(problem.incumbent, vec![1, 0]);
    assert_eq!(problem.value(), 0);
    assert_eq!(problem.num_jobs(), 2);
    assert_eq!(problem.num_machines(), 2);
}

#[test]
fn init_state_depends_on_shape_only() {
    let problem = problem_of(&seven_jobs());
    let first = problem.init_state();
    let second = problem.init_state();
    assert_eq!(first.current_machine_times, vec![0u128, 0, 0]);
    assert_eq!(first.current_job, 0);
    assert_eq!(first.num_jobs, 7);
    assert_eq!(second.current_machine_times, first.current_machine_times);
    assert_eq!(second.current_job, first.current_job);
    assert_eq!(second.num_jobs, first.num_jobs);
}

#[test]
fn longest_time_is_the_maximum() {
    assert_eq!(longest_time(&vec![66, 58, 74]), 74);
    assert_eq!(longest_time(&vec![5]), 5);
    assert_eq!(longest_time(&vec![7, 7]), 7);
    assert_eq!(longest_time(&Vec::new()), 0);
}

#[test]
fn greedy_action_takes_least_resulting_load() {
    let problem = problem_of(&seven_jobs());
    let state = MakeSpanState { current_machine_times: vec![21, 0, 9], current_job: 2, num_jobs: 7 };
    // 21 + 27, 0 + 24, 9 + 20
    assert_eq!(problem.greedy_action(&state).action, 1);
}

#[test]
fn greedy_action_breaks_ties_by_lowest_index() {
    let problem = problem_of(&vec![vec![5, 5, 5], vec![1, 4, 4]]);
    let state = problem.init_state();
    assert_eq!(problem.greedy_action(&state).action, 0);
    let state = MakeSpanState { current_machine_times: vec![5, 0, 0], current_job: 1, num_jobs: 2 };
    // 6, 4, 4
    assert_eq!(problem.greedy_action(&state).action, 1);
}

#[test]
fn greedy_execute_places_one_job() {
    let mut problem = problem_of(&seven_jobs());
    let mut state = problem.init_state();
    let status = MakeSpanGreedyAction { action: 2 }.execute(&mut state, &mut problem);
    assert_eq!(status, ProblemStateStatus::NonTerminal);
    assert_eq!(problem.incumbent, vec![2]);
    assert_eq!(state.current_machine_times, vec![0u128, 0, 31]);
    assert_eq!(state.current_job, 1);
    assert_eq!(state.num_jobs, 7);
    assert_eq!(problem.value(), 0);
}

#[test]
fn greedy_solver_on_seven_jobs() {
    let rows = seven_jobs();
    let problem = problem_of(&rows);
    let mut state = problem.init_state();
    let mut gs = GreedySolver::new(problem);
    gs.solve(&mut state);
    assert_eq!(gs.problem.incumbent, vec![0, 2, 1, 2, 2, 1, 0]);
    assert_eq!(gs.problem.incumbent.len(), 7);
    assert_eq!(state.current_machine_times, vec![66u128, 58, 74]);
    assert_eq!(state.current_job, 7);
    assert_eq!(gs.problem.value(), 74);
    assert!(gs.problem.value() <= 83);
    assert_eq!(
        gs.problem.value(),
        longest_time(&loads(&rows, &gs.problem.incumbent, 3))
    );
}

#[test]
fn local_search_after_greedy_on_seven_jobs() {
    let rows = seven_jobs();
    let problem = problem_of(&rows);
    let mut state = problem.init_state();
    let mut gs = GreedySolver::new(problem);
    gs.solve(&mut state);
    let before = gs.problem.value();
    let mut ls = LocalSearchSolver::new(gs.problem);
    ls.solve(2, &mut state);
    assert!(ls.problem.value() <= before);
    assert!(ls.problem.value() <= 83);
    assert_eq!(ls.problem.incumbent.len(), 7);
    let times = loads(&rows, &ls.problem.incumbent, 3);
    assert_eq!(state.current_machine_times, times);
    assert_eq!(ls.problem.value(), longest_time(&times));
    assert!(ls.problem.local_search_action(2, &mut state).is_none());
}

#[test]
fn local_search_with_larger_ceiling_is_no_worse() {
    let rows = seven_jobs();
    let problem = problem_of(&rows);
    let mut state = problem.init_state();
    let mut gs = GreedySolver::new(problem);
    gs.solve(&mut state);
    let before = gs.problem.value();
    let mut ls = LocalSearchSolver::new(gs.problem);
    ls.solve(3, &mut state);
    assert!(ls.problem.value() <= before);
    let times = loads(&rows, &ls.problem.incumbent, 3);
    assert_eq!(ls.problem.value(), longest_time(&times));
    assert!(ls.problem.local_search_action(2, &mut state).is_none());
    assert!(ls.problem.local_search_action(3, &mut state).is_none());
}

#[test]
fn single_job_single_machine() {
    let rows = vec![vec![17u64]];
    let problem = problem_of(&rows);
    let mut state = problem.init_state();
    let action = problem.greedy_action(&state);
    assert_eq!(action.action, 0);
    let mut gs = GreedySolver::new(problem);
    gs.solve(&mut state);
    assert_eq!(gs.problem.incumbent, vec![0]);
    assert_eq!(gs.problem.value(), 17);
    assert_eq!(state.current_job, 1);
    let mut ls = LocalSearchSolver::new(gs.problem);
    for k in [0usize, 1, 2, 3, 10] {
        ls.solve(k, &mut state);
        assert_eq!(ls.problem.incumbent, vec![0]);
        assert_eq!(ls.problem.value(), 17);
        assert_eq!(state.current_machine_times, vec![17u128]);
    }
}

#[test]
fn single_job_terminates_after_one_action() {
    let mut problem = problem_of(&vec![vec![17u64]]);
    let mut state = problem.init_state();
    let action = problem.greedy_action(&state);
    let status = action.execute(&mut state, &mut problem);
    assert_eq!(status, ProblemStateStatus::Terminal);
    assert_eq!(problem.value(), 17);
}

#[test]
fn local_search_execute_moves_jobs() {
    let rows = vec![vec![3u64, 1], vec![3, 1], vec![3, 1]];
    let (mut problem, mut state) = settled(&rows, vec![0, 0, 0]);
    assert_eq!(problem.value(), 9);
    let action = MakeSpanLocalSearchAction {
        allocations: vec![
            MakeSpanAllocation { job: 0, machine: 1 },
            MakeSpanAllocation { job: 2, machine: 1 },
        ],
    };
    let status = action.execute(&mut state, &mut problem);
    assert_eq!(status, ProblemStateStatus::NonTerminal);
    assert_eq!(problem.incumbent, vec![1, 0, 1]);
    assert_eq!(state.current_machine_times, vec![3u128, 2]);
    assert_eq!(problem.value(), 3);
}

#[test]
fn local_search_execute_reports_no_improvement() {
    let rows = vec![vec![3u64, 1], vec![3, 1], vec![3, 1]];
    let (mut problem, mut state) = settled(&rows, vec![1, 1, 0]);
    assert_eq!(problem.value(), 3);
    let same = MakeSpanLocalSearchAction {
        allocations: vec![MakeSpanAllocation { job: 0, machine: 1 }],
    };
    assert_eq!(same.execute(&mut state, &mut problem), ProblemStateStatus::Terminal);
    assert_eq!(problem.value(), 3);
    let worse = MakeSpanLocalSearchAction {
        allocations: vec![MakeSpanAllocation { job: 0, machine: 0 }],
    };
    assert_eq!(worse.execute(&mut state, &mut problem), ProblemStateStatus::Terminal);
    assert_eq!(problem.value(), 6);
    assert_eq!(state.current_machine_times, vec![6u128, 1]);
}

#[test]
fn local_search_action_round_trip() {
    let rows = seven_jobs();
    let (mut problem, mut state) = settled(&rows, vec![0, 2, 1, 2, 2, 1, 0]);
    let there = MakeSpanLocalSearchAction {
        allocations: vec![
            MakeSpanAllocation { job: 1, machine: 0 },
            MakeSpanAllocation { job: 4, machine: 1 },
            MakeSpanAllocation { job: 6, machine: 0 },
        ],
    };
    let back = MakeSpanLocalSearchAction {
        allocations: vec![
            MakeSpanAllocation { job: 1, machine: 2 },
            MakeSpanAllocation { job: 4, machine: 2 },
            MakeSpanAllocation { job: 6, machine: 0 },
        ],
    };
    there.execute(&mut state, &mut problem);
    assert_eq!(problem.incumbent, vec![0, 0, 1, 2, 1, 1, 0]);
    assert_eq!(state.current_machine_times, vec![77u128, 135, 22]);
    assert_eq!(problem.value(), 135);
    back.execute(&mut state, &mut problem);
    assert_eq!(problem.incumbent, vec![0, 2, 1, 2, 2, 1, 0]);
    assert_eq!(state.current_machine_times, vec![66u128, 58, 74]);
    assert_eq!(problem.value(), 74);
}

#[test]
fn local_search_action_picks_earliest_best_candidate() {
    let rows = vec![vec![3u64, 1], vec![3, 1], vec![3, 1]];
    let (mut problem, mut state) = settled(&rows, vec![0, 0, 0]);
    let found = problem.local_search_action(2, &mut state);
    let action = match found {
        Some(action) => action,
        None => panic!("an improving move exists"),
    };
    assert_eq!(pairs(&action), vec![(0, 1), (1, 1)]);
    // the problem and the state are handed back as they were
    assert_eq!(problem.incumbent, vec![0, 0, 0]);
    assert_eq!(problem.value(), 9);
    assert_eq!(state.current_machine_times, vec![9u128, 0]);
}

#[test]
fn local_search_action_with_three_jobs_at_once() {
    let rows = vec![vec![3u64, 1], vec![3, 1], vec![3, 1]];
    let (mut problem, mut state) = settled(&rows, vec![0, 0, 0]);
    let found = problem.local_search_action(3, &mut state);
    let action = match found {
        Some(action) => action,
        None => panic!("an improving move exists"),
    };
    // (0,0,0) 9; (0,0,1) 6; (0,1,0) 6; (0,1,1) 3: the first with the least value
    assert_eq!(pairs(&action), vec![(0, 0), (1, 1), (2, 1)]);
}

#[test]
fn local_search_action_finds_nothing_at_a_local_optimum() {
    let rows = vec![vec![3u64, 1], vec![3, 1], vec![3, 1]];
    let (mut problem, mut state) = settled(&rows, vec![1, 1, 0]);
    assert!(problem.local_search_action(2, &mut state).is_none());
    assert!(problem.local_search_action(3, &mut state).is_none());
    assert_eq!(problem.incumbent, vec![1, 1, 0]);
    assert_eq!(problem.value(), 3);
}

#[test]
fn local_search_action_with_more_jobs_than_there_are() {
    let rows = vec![vec![3u64, 1], vec![3, 1]];
    let (mut problem, mut state) = settled(&rows, vec![0, 0]);
    assert!(problem.local_search_action(3, &mut state).is_none());
    assert_eq!(problem.incumbent, vec![0, 0]);
    assert_eq!(problem.value(), 6);
}

#[test]
fn best_move_scans_the_candidates_it_is_given() {
    let rows = vec![vec![3u64, 1], vec![3, 1], vec![3, 1]];
    let (mut problem, mut state) = settled(&rows, vec![0, 0, 0]);
    let subsets = vec![vec![2usize, 0], vec![1, 2]];
    let tuples = vec![vec![0usize, 0], vec![1, 0], vec![1, 1]];
    let found = problem.best_move(&mut state, &subsets, &tuples);
    let action = match found {
        Some(action) => action,
        None => panic!("an improving move exists"),
    };
    assert_eq!(pairs(&action), vec![(2, 1), (0, 1)]);
    assert_eq!(problem.incumbent, vec![0, 0, 0]);
    assert_eq!(problem.value(), 9);
    let none = problem.best_move(&mut state, &subsets, &vec![vec![0usize, 0]]);
    assert!(none.is_none());
    let empty: Vec<Vec<usize>> = Vec::new();
    assert!(problem.best_move(&mut state, &empty, &tuples).is_none());
}

#[test]
fn local_search_solver_descends_to_a_local_optimum() {
    let rows = vec![vec![3u64, 1], vec![3, 1], vec![3, 1]];
    let (problem, mut state) = settled(&rows, vec![0, 0, 0]);
    let mut ls = LocalSearchSolver::new(problem);
    ls.solve(2, &mut state);
    assert_eq!(ls.problem.incumbent, vec![1, 1, 0]);
    assert_eq!(ls.problem.value(), 3);
    assert_eq!(state.current_machine_times, vec![3u128, 2]);
}

#[test]
fn local_search_below_two_is_a_no_op() {
    let rows = vec![vec![3u64, 1], vec![3, 1], vec![3, 1]];
    let (problem, mut state) = settled(&rows, vec![0, 0, 0]);
    let mut ls = LocalSearchSolver::new(problem);
    ls.solve(0, &mut state);
    assert_eq!(ls.problem.incumbent, vec![0, 0, 0]);
    assert_eq!(ls.problem.value(), 9);
    ls.solve(1, &mut state);
    assert_eq!(ls.problem.incumbent, vec![0, 0, 0]);
    assert_eq!(ls.problem.value(), 9);
    assert_eq!(state.current_machine_times, vec![9u128, 0]);
}

#[test]
fn local_search_never_increases_the_value() {
    let rows = vec![vec![4u64, 9, 2], vec![7, 3, 8], vec![5, 5, 5], vec![1, 6, 4]];
    for incumbent in [vec![0, 0, 0, 0], vec![1, 2, 0, 1], vec![2, 1, 0, 0], vec![0, 1, 2, 0]] {
        for k in 0..5usize {
            let (problem, mut state) = settled(&rows, incumbent.clone());
            let before = problem.value();
            let mut ls = LocalSearchSolver::new(problem);
            ls.solve(k, &mut state);
            assert!(ls.problem.value() <= before);
            let times = loads(&rows, &ls.problem.incumbent, 3);
            assert_eq!(ls.problem.value(), longest_time(&times));
        }
    }
}

#[test]
fn greedy_value_is_the_largest_machine_load() {
    let rows = vec![vec![4u64, 9, 2], vec![7, 3, 8], vec![5, 5, 5], vec![1, 6, 4]];
    let problem = problem_of(&rows);
    let mut state = problem.init_state();
    let mut gs = GreedySolver::new(problem);
    gs.solve(&mut state);
    // job 0 -> 2 (2); job 1 -> 1 (3); job 2 -> 0 (5); job 3 -> 0 (6)
    assert_eq!(gs.problem.incumbent, vec![2, 1, 0, 0]);
    assert_eq!(gs.problem.value(), 6);
    assert_eq!(state.current_machine_times, vec![6u128, 3, 2]);
}
