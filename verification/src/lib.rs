//! Greedy construction and variable-neighbourhood local search over a small
//! problem/state/action abstraction, with makespan scheduling as the worked
//! problem. Costs and loads are whole numbers of cost units.

pub mod interfaces;
pub mod problems;
