pub mod action_interface;
pub mod greedy_interface;
pub mod local_search_interface;
pub mod problem_interface;
